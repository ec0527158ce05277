use crate::addr::format_ipv6;
use crate::addr::ipv6_rendered;
use crate::addr::is_valid_ipv4;
use crate::addr::valid_ipv4;
use crate::config::Config;
use crate::numfmt::dec_rep;
use crate::numfmt::u64_to_string;
use crate::strutil::contains_char;
use crate::strutil::ends_with;
use crate::strutil::str_ends_with;
use crate::target::Target;
use vstd::prelude::*;

verus! {

/// Failure of the DNS registration step.
#[derive(Debug, Clone)]
pub enum DnsError {
    /// The update client could not be launched or spoken to.
    Io(String),
    /// The update client exited with a non-zero status.
    NsupdateFailed,
    /// The target's address literal could not be parsed.
    AddrParse,
}

/// Registers an address record for a target by handing a dynamic-update
/// transaction to an external update client.
#[derive(Debug, Clone)]
pub struct DnsService {
    pub server: String,
    pub zone: String,
    pub ttl: u64,
    pub domain: String,
}

/// The fully-qualified name of a target: hostname, a dot, the domain.
pub open spec fn fqdn_spec(hostname: Seq<char>, domain: Seq<char>) -> Seq<char> {
    hostname + seq!['.'] + domain
}

/// The zone-qualified record name: the FQDN as-is when it already ends with
/// the zone, otherwise the FQDN with a dot and the zone appended.
pub open spec fn record_name_spec(fqdn: Seq<char>, zone: Seq<char>) -> Seq<char> {
    if ends_with(fqdn, zone) {
        fqdn
    } else {
        fqdn + seq!['.'] + zone
    }
}

/// The address as it stands in the update transaction: the canonical
/// rendering of an IPv6 literal when the literal holds a colon, the
/// validated IPv4 literal unchanged otherwise; nothing when malformed.
pub open spec fn rendered_address(ip: Seq<char>) -> Option<Seq<char>> {
    if ip.contains(':') {
        ipv6_rendered(ip)
    } else if valid_ipv4(ip) {
        Some(ip)
    } else {
        None
    }
}

/// The record type matching the address literal's family.
pub open spec fn record_type_spec(ip: Seq<char>) -> Seq<char> {
    if ip.contains(':') {
        "AAAA"@
    } else {
        "A"@
    }
}

impl DnsService {
    pub fn new(config: &Config) -> (r: Self)
        ensures
            r.server@ == config.dns.server@,
            r.zone@ == config.dns.zone_name@,
            r.ttl == config.dns.ttl,
            r.domain@ == config.global.domain@,
    {
        DnsService {
            server: config.dns.server.clone(),
            zone: config.dns.zone_name.clone(),
            ttl: config.dns.ttl,
            domain: config.global.domain.clone(),
        }
    }

    /// The fully-qualified name this service registers for `target`.
    pub fn fmt_hostname(&self, target: &Target) -> (r: String)
        ensures
            r@ == fqdn_spec(target.hostname@, self.domain@),
    {
        proof {
            reveal_strlit(".");
        }
        let mut s = target.hostname.clone();
        s.append(".");
        s.append(self.domain.as_str());
        proof {
            assert(s@ =~= fqdn_spec(target.hostname@, self.domain@));
        }
        s
    }

    /// The zone-qualified record name for `target`.
    pub fn record_name(&self, target: &Target) -> (r: String)
        ensures
            r@ == record_name_spec(fqdn_spec(target.hostname@, self.domain@), self.zone@),
    {
        let fqdn = self.fmt_hostname(target);
        if str_ends_with(fqdn.as_str(), self.zone.as_str()) {
            fqdn
        } else {
            proof {
                reveal_strlit(".");
            }
            let mut s = fqdn;
            s.append(".");
            s.append(self.zone.as_str());
            proof {
                assert(s@ =~= fqdn_spec(target.hostname@, self.domain@) + seq!['.'] + self.zone@);
            }
            s
        }
    }

    /// The full dynamic-update transaction for `target`, line by line, as it
    /// is streamed to the update client; nothing for a malformed address.
    pub open spec fn transaction_spec(self, target: Target) -> Option<Seq<char>> {
        match rendered_address(target.ip@) {
            Some(a) => Some(
                "server "@ + self.server@ + "\n"@ + "zone "@ + self.zone@ + "\n"@ + "update add "@
                    + record_name_spec(fqdn_spec(target.hostname@, self.domain@), self.zone@)
                    + " "@ + dec_rep(self.ttl as nat) + " "@ + record_type_spec(target.ip@) + " "@
                    + a + "\n"@ + "send\nquit\n"@,
            ),
            None => None,
        }
    }

    /// Builds the update transaction: select server, select zone, add the
    /// record with TTL and rendered address, commit, terminate. Fails with
    /// `AddrParse` exactly on a malformed address literal.
    pub fn build_transaction(&self, target: &Target) -> (r: Result<String, DnsError>)
        ensures
            match r {
                Ok(t) => self.transaction_spec(*target) == Some(t@),
                Err(e) => self.transaction_spec(*target) is None && e == DnsError::AddrParse,
            },
    {
        let ipv6 = contains_char(target.ip.as_str(), ':');
        let addr: String = if ipv6 {
            match format_ipv6(target.ip.as_str()) {
                None => {
                    return Err(DnsError::AddrParse);
                },
                Some(a) => a,
            }
        } else {
            if !is_valid_ipv4(target.ip.as_str()) {
                return Err(DnsError::AddrParse);
            }
            target.ip.clone()
        };
        let rtype: &str = if ipv6 {
            "AAAA"
        } else {
            "A"
        };
        let record = self.record_name(target);
        let ttl_str = u64_to_string(self.ttl);
        let mut t = String::from_str("server ");
        t.append(self.server.as_str());
        t.append("\n");
        t.append("zone ");
        t.append(self.zone.as_str());
        t.append("\n");
        t.append("update add ");
        t.append(record.as_str());
        t.append(" ");
        t.append(ttl_str.as_str());
        t.append(" ");
        t.append(rtype);
        t.append(" ");
        t.append(addr.as_str());
        t.append("\n");
        t.append("send\nquit\n");
        proof {
            assert(t@ =~= "server "@ + self.server@ + "\n"@ + "zone "@ + self.zone@ + "\n"@
                + "update add "@ + record_name_spec(
                fqdn_spec(target.hostname@, self.domain@),
                self.zone@,
            ) + " "@ + dec_rep(self.ttl as nat) + " "@ + record_type_spec(target.ip@) + " "@
                + addr@ + "\n"@ + "send\nquit\n"@);
        }
        Ok(t)
    }

    /// The outcome of the registration once the external update client has
    /// exited: success exactly on a zero exit status.
    pub fn update_outcome(&self, exit_ok: bool) -> (r: Result<(), DnsError>)
        ensures
            r is Ok <==> exit_ok,
            !exit_ok ==> r == Err::<(), DnsError>(DnsError::NsupdateFailed),
    {
        if exit_ok {
            Ok(())
        } else {
            Err(DnsError::NsupdateFailed)
        }
    }
}

} // verus!
