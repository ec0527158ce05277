use crate::config::Config;
use crate::dns::fqdn_spec;
use crate::inventory::added_value;
use crate::inventory::group_has;
use crate::inventory::inv_count;
use crate::inventory::inv_has;
use crate::inventory::inv_wf;
use crate::inventory::lemma_inv_has_count;
use crate::numfmt::dec_rep;
use crate::numfmt::u64_to_string;
use crate::strutil::last_char_index;
use crate::strutil::last_sep;
use crate::strutil::lemma_last_sep_bound;
use crate::target::Target;
use vstd::prelude::*;

verus! {

/// Failure of the provisioning step.
#[derive(Debug, Clone)]
pub enum AnsibleError {
    /// The runner could not be launched or spoken to, or a file could not
    /// be touched.
    Io(String),
    /// The runner exited with a non-zero status.
    AnsibleFailed,
    /// The registry file's contents could not be read or written as
    /// structured data.
    Yaml(String),
}

/// A playbook kept at construction: its file path.
#[derive(Debug, Clone)]
pub struct Playbook(pub String);

/// The path of the inventory backing file.
#[derive(Debug, Clone)]
pub struct Inventory(pub String);

/// Ensures a target stands in the inventory, then runs the configured
/// playbooks in order against it.
#[derive(Debug, Clone)]
pub struct AnsibleService {
    pub playbooks: Vec<Playbook>,
    pub inventory: Inventory,
    pub binary: Option<String>,
    pub domain: String,
    pub play_logdir: String,
    pub play_log: bool,
}

/// The configured playbook paths whose files were present, in order.
pub open spec fn kept_playbooks(paths: Seq<String>, present: Seq<bool>) -> Seq<Seq<char>>
    recommends
        paths.len() == present.len(),
    decreases paths.len(),
{
    if paths.len() == 0 {
        Seq::<Seq<char>>::empty()
    } else if present.last() {
        kept_playbooks(paths.drop_last(), present.drop_last()).push(paths.last()@)
    } else {
        kept_playbooks(paths.drop_last(), present.drop_last())
    }
}

pub open spec fn playbook_views(ps: Seq<Playbook>) -> Seq<Seq<char>> {
    ps.map_values(|p: Playbook| p.0@)
}

/// What one configured playbook did during a run.
#[derive(Debug, Clone)]
pub enum PlaybookEvent {
    /// The playbook's file had vanished since construction; it is skipped
    /// with a warning and the run carries on.
    Missing,
    /// The runner was invoked and exited; `exit_ok` says whether the exit
    /// status was zero.
    Ran { exit_ok: bool },
}

/// A playbook outcome that fails the whole run.
pub open spec fn event_fatal(e: PlaybookEvent) -> bool {
    e == (PlaybookEvent::Ran { exit_ok: false })
}

/// No playbook outcome in `events` fails the run.
pub open spec fn run_ok(events: Seq<PlaybookEvent>) -> bool {
    forall|i: int| 0 <= i < events.len() ==> !event_fatal(#[trigger] events[i])
}

/// The file-name part of a path: what follows the last slash.
pub open spec fn base_name(s: Seq<char>) -> Seq<char> {
    let j = last_sep(s, '/');
    if j < 0 {
        s
    } else {
        s.skip(j + 1)
    }
}

fn base_name_exec(s: &str) -> (r: String)
    ensures
        r@ == base_name(s@),
{
    match last_char_index(s, '/') {
        None => String::from_str(s),
        Some(j) => {
            proof {
                lemma_last_sep_bound(s@, '/');
            }
            let n = s.unicode_len();
            String::from_str(s.substring_char(j + 1, n))
        },
    }
}

/// The name of one run's log file: timestamp, playbook file name, target
/// address and target hostname.
pub open spec fn play_log_name_spec(
    ts: Seq<char>,
    playbook_file: Seq<char>,
    ip: Seq<char>,
    hostname: Seq<char>,
) -> Seq<char> {
    ts + "-ansible_playbook_"@ + playbook_file + "_"@ + ip + "-"@ + hostname + ".log"@
}

/// The contents of one run's log file: both captured streams, labelled.
pub fn play_log_content(stdout: &str, stderr: &str) -> (r: String)
    ensures
        r@ == "STDOUT:\n"@ + stdout@ + "\nSTDERR:\n"@ + stderr@,
{
    let mut s = String::from_str("STDOUT:\n");
    s.append(stdout);
    s.append("\nSTDERR:\n");
    s.append(stderr);
    proof {
        assert(s@ =~= "STDOUT:\n"@ + stdout@ + "\nSTDERR:\n"@ + stderr@);
    }
    s
}

/// Relies on time::OffsetDateTime::now_utc and unix_timestamp: the system
/// clock's current time as seconds since the Unix epoch.
#[verifier::external_body]
fn now_unix_timestamp() -> i64 {
    time::OffsetDateTime::now_utc().unix_timestamp()
}

impl AnsibleService {
    /// Builds the service from configuration. `present` says, for each
    /// configured playbook path in order, whether its file existed at
    /// construction; missing ones are dropped here and never retried.
    pub fn new(config: &Config, present: &Vec<bool>) -> (r: Self)
        requires
            present@.len() == config.ansible.playbooks@.len(),
        ensures
            playbook_views(r.playbooks@) == kept_playbooks(config.ansible.playbooks@, present@),
            r.inventory.0 == config.ansible.inventory,
            r.binary == config.ansible.ansible_playbook_binary,
            r.domain == config.global.domain,
            r.play_logdir == config.ansible.play_logdir,
            r.play_log == config.ansible.play_logs,
    {
        let mut kept: Vec<Playbook> = Vec::new();
        let mut i: usize = 0;
        proof {
            assert(config.ansible.playbooks@.take(0) =~= Seq::<String>::empty());
            assert(present@.take(0) =~= Seq::<bool>::empty());
            assert(playbook_views(kept@) =~= kept_playbooks(
                config.ansible.playbooks@.take(0),
                present@.take(0),
            ));
        }
        while i < config.ansible.playbooks.len()
            invariant
                i <= config.ansible.playbooks@.len(),
                present@.len() == config.ansible.playbooks@.len(),
                playbook_views(kept@) == kept_playbooks(
                    config.ansible.playbooks@.take(i as int),
                    present@.take(i as int),
                ),
            decreases config.ansible.playbooks@.len() - i,
        {
            let ghost pp = config.ansible.playbooks@.take(i as int);
            let ghost qq = present@.take(i as int);
            proof {
                let pn = config.ansible.playbooks@.take(i as int + 1);
                let qn = present@.take(i as int + 1);
                assert(pn =~= pp.push(config.ansible.playbooks@[i as int]));
                assert(qn =~= qq.push(present@[i as int]));
                assert(pn.drop_last() =~= pp);
                assert(qn.drop_last() =~= qq);
            }
            let ghost oldviews = playbook_views(kept@);
            if present[i] {
                kept.push(Playbook(config.ansible.playbooks[i].clone()));
                proof {
                    assert(playbook_views(kept@) =~= oldviews.push(
                        config.ansible.playbooks@[i as int]@,
                    ));
                }
            }
            i = i + 1;
        }
        proof {
            assert(config.ansible.playbooks@.take(config.ansible.playbooks@.len() as int)
                =~= config.ansible.playbooks@);
            assert(present@.take(present@.len() as int) =~= present@);
        }
        AnsibleService {
            playbooks: kept,
            inventory: Inventory(config.ansible.inventory.clone()),
            binary: match &config.ansible.ansible_playbook_binary {
                Some(b) => Some(b.clone()),
                None => None,
            },
            domain: config.global.domain.clone(),
            play_logdir: config.ansible.play_logdir.clone(),
            play_log: config.ansible.play_logs,
        }
    }

    /// The fully-qualified name provisioning uses for `target`.
    pub fn format_target_name(&self, target: &Target) -> (r: String)
        ensures
            r@ == fqdn_spec(target.hostname@, self.domain@),
    {
        proof {
            reveal_strlit(".");
        }
        let mut s = target.hostname.clone();
        s.append(".");
        s.append(self.domain.as_str());
        proof {
            assert(s@ =~= fqdn_spec(target.hostname@, self.domain@));
        }
        s
    }

    /// Whether the registry already holds the target's name, in any group.
    pub fn is_in_inventory(&self, inv: &crate::inventory::Inventory, target: &Target) -> (r:
        bool)
        ensures
            r == inv_has(*inv, fqdn_spec(target.hostname@, self.domain@)),
    {
        let fqdn = self.format_target_name(target);
        inv.contains(fqdn.as_str())
    }

    /// Inserts the target's name, with empty metadata, into the registry's
    /// default group, creating that group when absent; an entry already in
    /// that group leaves the registry unchanged, so a second call is a
    /// no-op. Every other group's entry is the same value afterwards.
    pub fn add_to_inventory(&self, inv: &mut crate::inventory::Inventory, target: &Target)
        requires
            inv_wf(*old(inv)),
        ensures
            inv_wf(*final(inv)),
            inv_has(*final(inv), fqdn_spec(target.hostname@, self.domain@)),
            group_has(*final(inv), "cloud-init"@, fqdn_spec(target.hostname@, self.domain@)),
            group_has(*old(inv), "cloud-init"@, fqdn_spec(target.hostname@, self.domain@))
                ==> *final(inv) == *old(inv),
            !group_has(*old(inv), "cloud-init"@, fqdn_spec(target.hostname@, self.domain@))
                ==> inv_count(*final(inv), fqdn_spec(target.hostname@, self.domain@))
                == inv_count(*old(inv), fqdn_spec(target.hostname@, self.domain@)) + 1,
            !group_has(*old(inv), "cloud-init"@, fqdn_spec(target.hostname@, self.domain@))
                ==> added_value(*old(inv), *final(inv), fqdn_spec(target.hostname@, self.domain@)),
            forall|h: Seq<char>|
                h != fqdn_spec(target.hostname@, self.domain@) ==> inv_count(*final(inv), h)
                    == inv_count(*old(inv), h),
            forall|h: Seq<char>|
                inv_has(*final(inv), h) <==> (inv_has(*old(inv), h) || h == fqdn_spec(
                    target.hostname@,
                    self.domain@,
                )),
    {
        let fqdn = self.format_target_name(target);
        inv.add(fqdn.as_str());
    }

    /// The first step of a run: the target is added to the registry's
    /// default group exactly when absent from every group. Running it a
    /// second time for the same target leaves the registry unchanged, and a
    /// fresh target ends with exactly one entry, in the default group;
    /// every other group's entry is the same value afterwards.
    pub fn ensure_in_inventory(
        &self,
        inv: &mut crate::inventory::Inventory,
        target: &Target,
    ) -> (added: bool)
        requires
            inv_wf(*old(inv)),
        ensures
            inv_wf(*final(inv)),
            inv_has(*final(inv), fqdn_spec(target.hostname@, self.domain@)),
            inv_has(*old(inv), fqdn_spec(target.hostname@, self.domain@)) ==> *final(inv) == *old(
                inv,
            ),
            !inv_has(*old(inv), fqdn_spec(target.hostname@, self.domain@)) ==> inv_count(
                *final(inv),
                fqdn_spec(target.hostname@, self.domain@),
            ) == 1,
            forall|h: Seq<char>|
                h != fqdn_spec(target.hostname@, self.domain@) ==> inv_count(*final(inv), h)
                    == inv_count(*old(inv), h),
            forall|h: Seq<char>|
                inv_has(*final(inv), h) <==> (inv_has(*old(inv), h) || h == fqdn_spec(
                    target.hostname@,
                    self.domain@,
                )),
            !inv_has(*old(inv), fqdn_spec(target.hostname@, self.domain@)) ==> added_value(
                *old(inv),
                *final(inv),
                fqdn_spec(target.hostname@, self.domain@),
            ) && group_has(*final(inv), "cloud-init"@, fqdn_spec(target.hostname@, self.domain@)),
            added == !inv_has(*old(inv), fqdn_spec(target.hostname@, self.domain@)),
    {
        let fqdn = self.format_target_name(target);
        if inv.contains(fqdn.as_str()) {
            false
        } else {
            proof {
                lemma_inv_has_count(*inv, fqdn@);
                if crate::inventory::group_has(*inv, "cloud-init"@, fqdn@) {
                    let k = choose|k: int|
                        0 <= k < inv.all.children@.len() && (
                        #[trigger] inv.all.children@[k]).0@ == "cloud-init"@
                            && crate::inventory::child_has(inv.all.children@[k].1, fqdn@);
                    assert(inv_has(*inv, fqdn@));
                }
            }
            inv.add(fqdn.as_str());
            true
        }
    }

    /// Outcome of one playbook: a missing file or a clean exit carries the
    /// run on, a non-zero exit fails it.
    pub fn playbook_outcome(&self, event: &PlaybookEvent) -> (r: Result<(), AnsibleError>)
        ensures
            r is Ok <==> !event_fatal(*event),
            event_fatal(*event) ==> r == Err::<(), AnsibleError>(AnsibleError::AnsibleFailed),
    {
        match event {
            PlaybookEvent::Missing => Ok(()),
            PlaybookEvent::Ran { exit_ok } => {
                if *exit_ok {
                    Ok(())
                } else {
                    Err(AnsibleError::AnsibleFailed)
                }
            },
        }
    }

    /// Replays one whole run over the per-playbook outcomes in `events`:
    /// playbooks are taken in configured order, a missing one is skipped,
    /// and the first non-zero exit stops and fails the run. Returns the
    /// outcome and how many playbooks were attempted; after a failure the
    /// remaining playbooks are never attempted.
    pub fn run_events(&self, events: &Vec<PlaybookEvent>) -> (r: (
        Result<(), AnsibleError>,
        usize,
    ))
        requires
            events@.len() == self.playbooks@.len(),
        ensures
            r.0 is Ok <==> run_ok(events@),
            !run_ok(events@) ==> r.0 == Err::<(), AnsibleError>(AnsibleError::AnsibleFailed),
            run_ok(events@) ==> r.1 == events@.len(),
            !run_ok(events@) ==> 1 <= r.1 <= events@.len() && event_fatal(events@[r.1 - 1]) && (
            forall|i: int| 0 <= i < r.1 - 1 ==> !event_fatal(#[trigger] events@[i])),
    {
        let mut i: usize = 0;
        while i < events.len()
            invariant
                i <= events@.len(),
                forall|j: int| 0 <= j < i ==> !event_fatal(#[trigger] events@[j]),
            decreases events@.len() - i,
        {
            match self.playbook_outcome(&events[i]) {
                Ok(_) => {},
                Err(e) => {
                    proof {
                        assert(event_fatal(events@[i as int]));
                    }
                    return (Err(e), i + 1);
                },
            }
            i = i + 1;
        }
        (Ok(()), events.len())
    }

    /// The runner's invocation for one playbook: select the inventory file,
    /// limit execution to the target's name, then the playbook file.
    pub fn runner_args(&self, target: &Target, playbook: &Playbook) -> (r: Vec<String>)
        ensures
            r@.len() == 5,
            r@[0]@ == "-i"@,
            r@[1] == self.inventory.0,
            r@[2]@ == "-l"@,
            r@[3]@ == fqdn_spec(target.hostname@, self.domain@),
            r@[4] == playbook.0,
    {
        let mut r: Vec<String> = Vec::new();
        r.push(String::from_str("-i"));
        r.push(self.inventory.0.clone());
        r.push(String::from_str("-l"));
        r.push(self.format_target_name(target));
        r.push(playbook.0.clone());
        r
    }

    /// The runner binary: the configured override, or the well-known name
    /// resolved through the environment.
    pub fn runner_binary(&self) -> (r: String)
        ensures
            match self.binary {
                Some(b) => r == b,
                None => r@ == "ansible-playbook"@,
            },
    {
        match &self.binary {
            Some(b) => b.clone(),
            None => String::from_str("ansible-playbook"),
        }
    }

    /// The log file name for one playbook run of `target`, stamped `ts`.
    pub fn play_log_name(&self, ts: u64, playbook: &Playbook, target: &Target) -> (r: String)
        ensures
            r@ == play_log_name_spec(
                dec_rep(ts as nat),
                base_name(playbook.0@),
                target.ip@,
                target.hostname@,
            ),
    {
        let mut s = u64_to_string(ts);
        s.append("-ansible_playbook_");
        let b = base_name_exec(playbook.0.as_str());
        s.append(b.as_str());
        s.append("_");
        s.append(target.ip.as_str());
        s.append("-");
        s.append(target.hostname.as_str());
        s.append(".log");
        proof {
            assert(s@ =~= play_log_name_spec(
                dec_rep(ts as nat),
                base_name(playbook.0@),
                target.ip@,
                target.hostname@,
            ));
        }
        s
    }

    /// The log file name for a run happening now; the timestamp part comes
    /// from the system clock.
    pub fn play_log_name_now(&self, playbook: &Playbook, target: &Target) -> (r: String)
        ensures
            exists|ts: nat|
                r@ == play_log_name_spec(
                    dec_rep(ts),
                    base_name(playbook.0@),
                    target.ip@,
                    target.hostname@,
                ),
    {
        let t = now_unix_timestamp();
        let ts: u64 = if t < 0 {
            0
        } else {
            t as u64
        };
        let r = self.play_log_name(ts, playbook, target);
        proof {
            assert(r@ == play_log_name_spec(
                dec_rep(ts as nat),
                base_name(playbook.0@),
                target.ip@,
                target.hostname@,
            ));
        }
        r
    }
}

} // verus!
