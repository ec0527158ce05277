use vstd::prelude::*;

pub mod addr;
pub mod ansible;
pub mod appdata;
pub mod config;
pub mod dns;
pub mod error;
pub mod handlers;
pub mod inventory;
pub mod numfmt;
pub mod opts;
pub mod strutil;
pub mod target;
pub mod util;

pub use target::Service;
pub use target::Target;

verus! {

/// The dispatcher's sequencing rule: within one unit of work the
/// provisioning step runs exactly when the DNS step succeeded.
pub fn provisioning_follows(dns_result: &Result<(), dns::DnsError>) -> (r: bool)
    ensures
        r <==> dns_result is Ok,
{
    dns_result.is_ok()
}

} // verus!
