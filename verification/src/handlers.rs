use crate::strutil::last_char_index_vec;
use crate::strutil::last_sep;
use crate::strutil::lemma_last_sep_bound;
use crate::strutil::str_chars;
use crate::strutil::string_of_chars;
use crate::strutil::vec_range;
use vstd::prelude::*;

verus! {

/// The empty acknowledgment sent as soon as a unit of work is scheduled,
/// carrying nothing about its eventual outcome.
#[derive(Debug, Clone)]
pub struct Empty;

/// One registration event's payload: the hostname the host claims.
#[derive(Debug, Clone)]
pub struct Request {
    pub hostname: String,
}

/// The characters of `s` without any square brackets.
pub open spec fn strip_brackets(s: Seq<char>) -> Seq<char>
    decreases s.len(),
{
    if s.len() == 0 {
        Seq::<char>::empty()
    } else if s.last() == '[' || s.last() == ']' {
        strip_brackets(s.drop_last())
    } else {
        strip_brackets(s.drop_last()).push(s.last())
    }
}

/// The address part of a peer-address string: brackets dropped, then
/// everything before the last colon (the port separator); empty when no
/// colon remains.
pub open spec fn sender_ip_spec(raw: Seq<char>) -> Seq<char> {
    let s = strip_brackets(raw);
    let j = last_sep(s, ':');
    if j < 0 {
        Seq::<char>::empty()
    } else {
        s.take(j)
    }
}

fn strip_brackets_exec(s: &str) -> (r: Vec<char>)
    ensures
        r@ == strip_brackets(s@),
{
    let chars = str_chars(s);
    let mut r: Vec<char> = Vec::new();
    let mut i: usize = 0;
    proof {
        assert(chars@.take(0) =~= Seq::<char>::empty());
    }
    while i < chars.len()
        invariant
            i <= chars@.len(),
            chars@ == s@,
            r@ == strip_brackets(s@.take(i as int)),
        decreases chars@.len() - i,
    {
        let ghost pre = s@.take(i as int);
        proof {
            assert(s@.take(i as int + 1) =~= pre.push(s@[i as int]));
            assert(pre.push(s@[i as int]).drop_last() =~= pre);
        }
        let c = chars[i];
        if c != '[' && c != ']' {
            r.push(c);
        }
        i = i + 1;
    }
    proof {
        assert(s@.take(s@.len() as int) =~= s@);
    }
    r
}

/// The name given to one unit of background work, from the target it is
/// for.
pub fn unit_name(hostname: &str, ip: &str) -> (r: String)
    ensures
        r@ == "phone-home-"@ + hostname@ + "-"@ + ip@,
{
    let mut s = String::from_str("phone-home-");
    s.append(hostname);
    s.append("-");
    s.append(ip);
    proof {
        assert(s@ =~= "phone-home-"@ + hostname@ + "-"@ + ip@);
    }
    s
}

/// The sender of one registration event, as the request boundary derives
/// it from connection metadata.
#[derive(Debug, Clone)]
pub struct Sender {
    /// The address the registration will use.
    pub ip: String,
}

impl Sender {
    /// Builds the sender from the peer-address string: strips enclosing
    /// brackets and the trailing port.
    pub fn from_addr(raw: &str) -> (r: Sender)
        ensures
            r.ip@ == sender_ip_spec(raw@),
    {
        let stripped = strip_brackets_exec(raw);
        match last_char_index_vec(&stripped, ':') {
            None => Sender { ip: String::new() },
            Some(j) => {
                proof {
                    lemma_last_sep_bound(stripped@, ':');
                }
                let part = vec_range(&stripped, 0, j);
                proof {
                    assert(part@ =~= strip_brackets(raw@).take(j as int));
                }
                Sender { ip: string_of_chars(&part) }
            },
        }
    }
}

} // verus!
