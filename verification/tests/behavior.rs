use ordin::addr::format_ipv6;
use ordin::addr::is_valid_ipv4;
use ordin::ansible::AnsibleService;
use ordin::ansible::Playbook;
use ordin::ansible::PlaybookEvent;
use ordin::ansible::play_log_content;
use ordin::appdata::ApplicationData;
use ordin::config::AnsibleConfig;
use ordin::config::Config;
use ordin::config::DnsConfig;
use ordin::config::GlobalConfig;
use ordin::config::default_play_logdir;
use ordin::dns::DnsError;
use ordin::dns::DnsService;
use ordin::error::ServiceError;
use ordin::handlers::Sender;
use ordin::handlers::unit_name;
use ordin::inventory::Inventory;
use ordin::numfmt::u64_to_string;
use ordin::opts::Opts;
use ordin::provisioning_follows;
use ordin::strutil::str_eq;
use ordin::util::Ready;
use ordin::Target;

fn test_config() -> Config {
    Config {
        ansible: AnsibleConfig {
            ansible_playbook_binary: None,
            playbooks: vec![],
            inventory: String::from("/tmp/inventory.yml"),
            play_logs: false,
            play_logdir: String::from("/tmp/logs"),
        },
        dns: DnsConfig {
            server: String::from("ns1.example.com"),
            zone_name: String::from("example.com."),
            ttl: 300,
        },
        global: GlobalConfig { domain: String::from("lab.local") },
    }
}

fn dns_service() -> DnsService {
    DnsService {
        server: String::from("ns1.example.com"),
        zone: String::from("example.com."),
        ttl: 300,
        domain: String::from("lab.local"),
    }
}

fn ansible_service(playbooks: Vec<&str>) -> AnsibleService {
    AnsibleService {
        playbooks: playbooks.iter().map(|p| Playbook(String::from(*p))).collect(),
        inventory: ordin::ansible::Inventory(String::from("/tmp/inventory.yml")),
        binary: None,
        domain: String::from("lab.local"),
        play_logdir: String::from("/tmp/logs"),
        play_log: false,
    }
}

#[test]
fn fqdn_is_hostname_dot_domain() {
    let svc = dns_service();
    let t = Target::new("10.0.0.1", "host1");
    assert_eq!(svc.fmt_hostname(&t), "host1.lab.local");
}

#[test]
fn record_name_appends_zone_when_fqdn_does_not_end_with_it() {
    let svc = dns_service();
    let t = Target::new("10.0.0.1", "host1");
    assert_eq!(svc.record_name(&t), "host1.lab.local.example.com.");
}

#[test]
fn record_name_keeps_fqdn_when_it_ends_with_zone() {
    let mut svc = dns_service();
    svc.zone = String::from("lab.local");
    let t = Target::new("10.0.0.1", "host1");
    assert_eq!(svc.record_name(&t), "host1.lab.local");
}

#[test]
fn ipv6_compressed_literal_renders_in_full() {
    let r = format_ipv6("2001:db8::1");
    assert_eq!(r.as_deref(), Some("2001:0db8:0000:0000:0000:0000:0000:0001"));
}

#[test]
fn ipv6_all_zero_literal() {
    assert_eq!(
        format_ipv6("::").as_deref(),
        Some("0000:0000:0000:0000:0000:0000:0000:0000")
    );
    assert_eq!(
        format_ipv6("::1").as_deref(),
        Some("0000:0000:0000:0000:0000:0000:0000:0001")
    );
    assert_eq!(
        format_ipv6("1::").as_deref(),
        Some("0001:0000:0000:0000:0000:0000:0000:0000")
    );
}

#[test]
fn ipv6_full_literal_is_normalized() {
    assert_eq!(
        format_ipv6("2001:DB8:0:0:8:800:200C:417A").as_deref(),
        Some("2001:0db8:0000:0000:0008:0800:200c:417a")
    );
}

#[test]
fn ipv6_malformed_literals_are_rejected() {
    assert!(format_ipv6("").is_none());
    assert!(format_ipv6(":").is_none());
    assert!(format_ipv6(":::").is_none());
    assert!(format_ipv6("1::2::3").is_none());
    assert!(format_ipv6("1:2:3:4:5:6:7").is_none());
    assert!(format_ipv6("1:2:3:4:5:6:7:8:9").is_none());
    assert!(format_ipv6("12345::").is_none());
    assert!(format_ipv6("g::1").is_none());
    assert!(format_ipv6("1:2:3:4:5:6:7:8::").is_none());
}

#[test]
fn ipv6_embedded_dotted_quad_tail() {
    assert_eq!(
        format_ipv6("::ffff:192.168.0.1").as_deref(),
        Some("0000:0000:0000:0000:0000:ffff:c0a8:0001")
    );
    assert_eq!(
        format_ipv6("1:2:3:4:5:6:1.2.3.4").as_deref(),
        Some("0001:0002:0003:0004:0005:0006:0102:0304")
    );
    assert!(format_ipv6("::1.2.3.4.5").is_none());
    assert!(format_ipv6("1.2.3.4::1").is_none());
    assert!(format_ipv6("::ffff:256.0.0.1").is_none());
    assert!(format_ipv6("1:2:3:4:5:6:7:1.2.3.4").is_none());
}

#[test]
fn ipv4_literals_are_validated() {
    assert!(is_valid_ipv4("192.168.0.1"));
    assert!(is_valid_ipv4("0.0.0.0"));
    assert!(is_valid_ipv4("255.255.255.255"));
    assert!(!is_valid_ipv4("256.0.0.1"));
    assert!(!is_valid_ipv4("1.2.3"));
    assert!(!is_valid_ipv4("1.2.3.4.5"));
    assert!(!is_valid_ipv4("01.2.3.4"));
    assert!(!is_valid_ipv4("1.2.3.x"));
    assert!(!is_valid_ipv4("update add evil"));
}

#[test]
fn transaction_for_ipv6_target() {
    let svc = dns_service();
    let t = Target::new("2001:db8::1", "host1");
    let tx = match svc.build_transaction(&t) {
        Ok(tx) => tx,
        Err(_) => panic!("transaction should build"),
    };
    assert_eq!(
        tx,
        "server ns1.example.com\nzone example.com.\nupdate add host1.lab.local.example.com. 300 AAAA 2001:0db8:0000:0000:0000:0000:0000:0001\nsend\nquit\n"
    );
}

#[test]
fn transaction_for_ipv4_target() {
    let svc = dns_service();
    let t = Target::new("10.0.0.7", "host1");
    let tx = match svc.build_transaction(&t) {
        Ok(tx) => tx,
        Err(_) => panic!("transaction should build"),
    };
    assert_eq!(
        tx,
        "server ns1.example.com\nzone example.com.\nupdate add host1.lab.local.example.com. 300 A 10.0.0.7\nsend\nquit\n"
    );
}

#[test]
fn transaction_rejects_malformed_addresses() {
    let svc = dns_service();
    let bad6 = Target::new("2001:db8::1::2", "host1");
    assert!(matches!(svc.build_transaction(&bad6), Err(DnsError::AddrParse)));
    let bad4 = Target::new("999.1.1.1", "host1");
    assert!(matches!(svc.build_transaction(&bad4), Err(DnsError::AddrParse)));
}

#[test]
fn update_outcome_follows_exit_status() {
    let svc = dns_service();
    assert!(svc.update_outcome(true).is_ok());
    assert!(matches!(svc.update_outcome(false), Err(DnsError::NsupdateFailed)));
}

#[test]
fn fresh_target_is_registered_and_found() {
    let svc = ansible_service(vec![]);
    let mut inv = Inventory::create_default();
    let t = Target::new("10.0.0.1", "host1");
    assert!(!svc.is_in_inventory(&inv, &t));
    let added = svc.ensure_in_inventory(&mut inv, &t);
    assert!(added);
    assert!(svc.is_in_inventory(&inv, &t));
    assert!(inv.contains("host1.lab.local"));
}

#[test]
fn second_registration_changes_nothing() {
    let svc = ansible_service(vec![]);
    let mut inv = Inventory::create_default();
    let t = Target::new("10.0.0.1", "host1");
    assert!(svc.ensure_in_inventory(&mut inv, &t));
    assert!(!svc.ensure_in_inventory(&mut inv, &t));
    // exactly one entry for the target's name
    let mut count = 0;
    for (_, child) in inv.all.children.iter() {
        for (name, _) in child.hosts.iter() {
            if name == "host1.lab.local" {
                count += 1;
            }
        }
    }
    assert_eq!(count, 1);
}

#[test]
fn distinct_targets_both_survive_serialized_adds() {
    let svc = ansible_service(vec![]);
    let mut inv = Inventory::create_default();
    let t1 = Target::new("10.0.0.1", "host1");
    let t2 = Target::new("10.0.0.2", "host2");
    svc.ensure_in_inventory(&mut inv, &t1);
    svc.ensure_in_inventory(&mut inv, &t2);
    assert!(inv.contains("host1.lab.local"));
    assert!(inv.contains("host2.lab.local"));
}

#[test]
fn default_inventory_has_one_empty_group() {
    let inv = Inventory::create_default();
    assert_eq!(inv.all.children.len(), 1);
    assert_eq!(inv.all.children[0].0, "cloud-init");
    assert!(inv.all.children[0].1.hosts.is_empty());
    assert!(!inv.contains("anything"));
}

#[test]
fn add_lands_in_default_group_and_leaves_others_alone() {
    let mut inv = Inventory {
        all: ordin::inventory::All {
            children: vec![
                (
                    String::from("static"),
                    ordin::inventory::Child {
                        hosts: vec![(String::from("db1.lab.local"), Some(String::from("meta")))],
                    },
                ),
                (String::from("cloud-init"), ordin::inventory::Child { hosts: vec![] }),
            ],
        },
    };
    inv.add("host1.lab.local");
    assert_eq!(inv.all.children.len(), 2);
    assert_eq!(inv.all.children[0].0, "static");
    assert_eq!(
        inv.all.children[0].1.hosts,
        vec![(String::from("db1.lab.local"), Some(String::from("meta")))]
    );
    assert_eq!(inv.all.children[1].0, "cloud-init");
    assert_eq!(
        inv.all.children[1].1.hosts,
        vec![(String::from("host1.lab.local"), None)]
    );
    // a second add of the same name is a no-op
    inv.add("host1.lab.local");
    assert_eq!(
        inv.all.children[1].1.hosts,
        vec![(String::from("host1.lab.local"), None)]
    );
}

#[test]
fn add_creates_default_group_when_absent() {
    let mut inv = Inventory { all: ordin::inventory::All { children: vec![] } };
    inv.add("host9.lab.local");
    assert!(inv.contains("host9.lab.local"));
    assert_eq!(inv.all.children.len(), 1);
    assert_eq!(inv.all.children[0].0, "cloud-init");
}

#[test]
fn run_fails_at_first_nonzero_exit_and_stops() {
    let svc = ansible_service(vec!["/p1.yml", "/p2.yml", "/p3.yml"]);
    let events = vec![
        PlaybookEvent::Ran { exit_ok: true },
        PlaybookEvent::Ran { exit_ok: false },
        PlaybookEvent::Ran { exit_ok: true },
    ];
    let (outcome, attempted) = svc.run_events(&events);
    assert!(matches!(outcome, Err(ordin::ansible::AnsibleError::AnsibleFailed)));
    assert_eq!(attempted, 2);
}

#[test]
fn missing_playbook_is_skipped_and_run_continues() {
    let svc = ansible_service(vec!["/p1.yml", "/p2.yml", "/p3.yml"]);
    let events = vec![
        PlaybookEvent::Ran { exit_ok: true },
        PlaybookEvent::Missing,
        PlaybookEvent::Ran { exit_ok: true },
    ];
    let (outcome, attempted) = svc.run_events(&events);
    assert!(outcome.is_ok());
    assert_eq!(attempted, 3);
}

#[test]
fn run_with_no_playbooks_succeeds() {
    let svc = ansible_service(vec![]);
    let (outcome, attempted) = svc.run_events(&vec![]);
    assert!(outcome.is_ok());
    assert_eq!(attempted, 0);
}

#[test]
fn construction_drops_absent_playbooks() {
    let mut config = test_config();
    config.ansible.playbooks = vec![
        String::from("/a.yml"),
        String::from("/b.yml"),
        String::from("/c.yml"),
    ];
    let present = vec![true, false, true];
    let svc = AnsibleService::new(&config, &present);
    let kept: Vec<&str> = svc.playbooks.iter().map(|p| p.0.as_str()).collect();
    assert_eq!(kept, vec!["/a.yml", "/c.yml"]);
    assert_eq!(svc.inventory.0, "/tmp/inventory.yml");
    assert_eq!(svc.domain, "lab.local");
}

#[test]
fn runner_invocation_selects_inventory_target_and_playbook() {
    let svc = ansible_service(vec!["/p1.yml"]);
    let t = Target::new("10.0.0.1", "host1");
    let args = svc.runner_args(&t, &svc.playbooks[0]);
    assert_eq!(
        args,
        vec!["-i", "/tmp/inventory.yml", "-l", "host1.lab.local", "/p1.yml"]
    );
}

#[test]
fn runner_binary_defaults_to_well_known_name() {
    let mut svc = ansible_service(vec![]);
    assert_eq!(svc.runner_binary(), "ansible-playbook");
    svc.binary = Some(String::from("/opt/bin/runner"));
    assert_eq!(svc.runner_binary(), "/opt/bin/runner");
}

#[test]
fn play_log_name_encodes_time_playbook_and_target() {
    let svc = ansible_service(vec!["/srv/plays/site.yml"]);
    let t = Target::new("10.0.0.1", "host1");
    let name = svc.play_log_name(1700000000, &svc.playbooks[0], &t);
    assert_eq!(name, "1700000000-ansible_playbook_site.yml_10.0.0.1-host1.log");
}

#[test]
fn play_log_content_labels_both_streams() {
    let content = play_log_content("all good\n", "a warning\n");
    assert_eq!(content, "STDOUT:\nall good\n\nSTDERR:\na warning\n");
}

#[test]
fn sender_address_loses_brackets_and_port() {
    assert_eq!(Sender::from_addr("[2001:db8::1]:8080").ip, "2001:db8::1");
    assert_eq!(Sender::from_addr("10.1.2.3:5678").ip, "10.1.2.3");
    assert_eq!(Sender::from_addr("10.1.2.3").ip, "");
}

#[test]
fn unit_names_carry_the_target() {
    assert_eq!(unit_name("host1", "10.0.0.1"), "phone-home-host1-10.0.0.1");
}

#[test]
fn provisioning_runs_only_after_dns_success() {
    assert!(provisioning_follows(&Ok(())));
    assert!(!provisioning_follows(&Err(DnsError::NsupdateFailed)));
}

#[test]
fn decimal_rendering_is_exact() {
    assert_eq!(u64_to_string(0), "0");
    assert_eq!(u64_to_string(300), "300");
    assert_eq!(u64_to_string(18446744073709551615), "18446744073709551615");
}

#[test]
fn service_errors_map_to_internal_server_error() {
    let e = ServiceError::Dns(DnsError::NsupdateFailed);
    assert_eq!(e.status_code(), 500);
    let e = ServiceError::Ansible(ordin::ansible::AnsibleError::AnsibleFailed);
    assert_eq!(e.status_code(), 500);
}

#[test]
fn defaults_are_blank_but_for_the_log_directory() {
    let c = Config::default();
    assert_eq!(c.global.domain, "");
    assert_eq!(c.dns.ttl, 0);
    assert!(c.ansible.playbooks.is_empty());
    assert!(!c.ansible.play_logs);
    assert_eq!(default_play_logdir(), "/var/log/ordin/");
}

#[test]
fn application_data_keeps_what_it_was_given() {
    let config = test_config();
    let data = ApplicationData::new(config, ansible_service(vec![]), dns_service());
    assert_eq!(data.dns.zone, "example.com.");
    assert_eq!(data.ansible.domain, "lab.local");
}

#[test]
fn opts_keep_their_fields() {
    let o = Opts::new(2, String::from("/etc/ordin/config.toml"));
    assert_eq!(o.verbose, 2);
    assert_eq!(o.config, "/etc/ordin/config.toml");
}

#[test]
fn ready_holds_its_value() {
    let r = Ready::new(7u32);
    assert_eq!(r.0, Some(7));
}

#[test]
fn string_comparison_helpers_agree_with_std() {
    assert!(str_eq("abc", "abc"));
    assert!(!str_eq("abc", "abd"));
    assert!(!str_eq("abc", "ab"));
}
