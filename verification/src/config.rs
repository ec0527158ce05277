use vstd::prelude::*;

verus! {

/// Process-wide settings shared by every service.
#[derive(Debug, Clone)]
pub struct GlobalConfig {
    /// Domain suffix appended to claimed hostnames.
    pub domain: String,
}

/// Settings of the DNS registration service.
#[derive(Debug, Clone)]
pub struct DnsConfig {
    /// Address of the dynamic-update server.
    pub server: String,
    /// Zone the record belongs to.
    pub zone_name: String,
    /// Time-to-live of the added record, in seconds.
    pub ttl: u64,
}

/// Settings of the provisioning service.
#[derive(Debug, Clone)]
pub struct AnsibleConfig {
    /// Runner binary to invoke instead of the well-known name.
    pub ansible_playbook_binary: Option<String>,
    /// Playbook files to run, in order.
    pub playbooks: Vec<String>,
    /// Path of the inventory file.
    pub inventory: String,
    /// Whether each playbook run writes a log file.
    pub play_logs: bool,
    /// Directory the log files go to.
    pub play_logdir: String,
}

/// The immutable process-wide configuration, loaded once at startup and
/// passed read-only into each service's constructor.
#[derive(Debug, Clone)]
pub struct Config {
    pub ansible: AnsibleConfig,
    pub dns: DnsConfig,
    pub global: GlobalConfig,
}

/// Directory that playbook logs go to when the configuration names none.
pub fn default_play_logdir() -> (r: String)
    ensures
        r@ == "/var/log/ordin/"@,
{
    String::from_str("/var/log/ordin/")
}

impl Default for GlobalConfig {
    fn default() -> (r: Self)
        ensures
            r.domain@ == Seq::<char>::empty(),
    {
        GlobalConfig { domain: String::new() }
    }
}

impl Default for DnsConfig {
    fn default() -> (r: Self)
        ensures
            r.server@ == Seq::<char>::empty(),
            r.zone_name@ == Seq::<char>::empty(),
            r.ttl == 0,
    {
        DnsConfig { server: String::new(), zone_name: String::new(), ttl: 0 }
    }
}

impl Default for AnsibleConfig {
    fn default() -> (r: Self)
        ensures
            r.ansible_playbook_binary is None,
            r.playbooks@.len() == 0,
            r.inventory@ == Seq::<char>::empty(),
            !r.play_logs,
            r.play_logdir@ == "/var/log/ordin/"@,
    {
        AnsibleConfig {
            ansible_playbook_binary: None,
            playbooks: Vec::new(),
            inventory: String::new(),
            play_logs: false,
            play_logdir: default_play_logdir(),
        }
    }
}

impl Default for Config {
    fn default() -> (r: Self)
        ensures
            r.ansible.ansible_playbook_binary is None,
            r.ansible.playbooks@.len() == 0,
            r.ansible.inventory@ == Seq::<char>::empty(),
            !r.ansible.play_logs,
            r.ansible.play_logdir@ == "/var/log/ordin/"@,
            r.dns.server@ == Seq::<char>::empty(),
            r.dns.zone_name@ == Seq::<char>::empty(),
            r.dns.ttl == 0,
            r.global.domain@ == Seq::<char>::empty(),
    {
        Config {
            ansible: AnsibleConfig::default(),
            dns: DnsConfig::default(),
            global: GlobalConfig::default(),
        }
    }
}

} // verus!
