use crate::ansible::AnsibleService;
use crate::config::Config;
use crate::dns::DnsService;
use vstd::prelude::*;

verus! {

/// Everything the request boundary shares read-only across units of work:
/// the configuration and both services, immutable after construction.
#[derive(Debug, Clone)]
pub struct ApplicationData {
    pub config: Config,
    pub ansible: AnsibleService,
    pub dns: DnsService,
}

impl ApplicationData {
    pub fn new(config: Config, ansible: AnsibleService, dns: DnsService) -> (r: Self)
        ensures
            r.config == config,
            r.ansible == ansible,
            r.dns == dns,
    {
        ApplicationData { config, ansible, dns }
    }
}

} // verus!
