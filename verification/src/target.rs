use vstd::prelude::*;

verus! {

/// The subject of one registration event: the sender's address literal and
/// the hostname it claims. Created per event and discarded once the unit of
/// work completes; only its side effects persist.
#[derive(Debug, Clone)]
pub struct Target {
    pub ip: String,
    pub hostname: String,
}

impl Target {
    pub fn new(ip: &str, hostname: &str) -> (r: Self)
        ensures
            r.ip@ == ip@,
            r.hostname@ == hostname@,
    {
        Target { ip: String::from_str(ip), hostname: String::from_str(hostname) }
    }
}

/// The registration-service capability: each variant turns a target into
/// idempotent side effects. Implementations live with the process-running
/// code; the decision logic they call is in this crate.
pub trait Service {
    type Err;

    fn run(&self, target: &Target) -> Result<(), Self::Err>;
}

} // verus!
