use crate::ansible::AnsibleError;
use crate::dns::DnsError;
use vstd::prelude::*;

verus! {

/// Failure of one background unit of work, from either service.
#[derive(Debug, Clone)]
pub enum ServiceError {
    Dns(DnsError),
    Ansible(AnsibleError),
}

impl ServiceError {
    /// The HTTP status such a failure maps to at the request boundary.
    pub fn status_code(&self) -> (r: u16)
        ensures
            r == 500,
    {
        match self {
            ServiceError::Dns(_) => 500,
            ServiceError::Ansible(_) => 500,
        }
    }
}

} // verus!
