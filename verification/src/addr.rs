use crate::numfmt::group_val;
use crate::numfmt::group_val_exec;
use crate::numfmt::hex4;
use crate::numfmt::hex4_rep;
use crate::numfmt::hex_val;
use crate::numfmt::hex_val_exec;
use crate::numfmt::is_hex_digit;
use crate::numfmt::valid_group;
use crate::strutil::split_chars;
use crate::strutil::split_on;
use crate::strutil::str_chars;
use crate::strutil::vec_range;
use crate::strutil::views_of;
use vstd::prelude::*;

verus! {

/// Index of the first `::` in `s`, or -1 when there is none.
pub open spec fn find_dc(s: Seq<char>) -> int
    decreases s.len(),
{
    if s.len() < 2 {
        -1
    } else if s[0] == ':' && s[1] == ':' {
        0
    } else {
        let r = find_dc(s.skip(1));
        if r < 0 {
            -1
        } else {
            r + 1
        }
    }
}

proof fn lemma_find_dc_props(s: Seq<char>)
    ensures
        find_dc(s) >= 0 ==> find_dc(s) + 1 < s.len() && s[find_dc(s)] == ':' && s[find_dc(s)
            + 1] == ':',
    decreases s.len(),
{
    if s.len() >= 2 && !(s[0] == ':' && s[1] == ':') {
        lemma_find_dc_props(s.skip(1));
    }
}

fn find_double_colon(v: &Vec<char>) -> (r: Option<usize>)
    ensures
        match r {
            Some(d) => find_dc(v@) == d as int && d as int + 1 < v@.len() && v@[d as int] == ':'
                && v@[d as int + 1] == ':',
            None => find_dc(v@) == -1,
        },
{
    proof {
        lemma_find_dc_props(v@);
    }
    let n = v.len();
    if n < 2 {
        return None;
    }
    let mut i: usize = 0;
    proof {
        assert(v@.skip(0) =~= v@);
    }
    while i + 1 < n
        invariant
            i <= n - 1,
            n >= 2,
            n == v@.len(),
            find_dc(v@) == (if find_dc(v@.skip(i as int)) < 0 {
                -1
            } else {
                find_dc(v@.skip(i as int)) + i
            }),
        decreases n - i,
    {
        if v[i] == ':' && v[i + 1] == ':' {
            proof {
                assert(v@.skip(i as int)[0] == v@[i as int]);
                assert(v@.skip(i as int)[1] == v@[i as int + 1]);
                assert(find_dc(v@.skip(i as int)) == 0);
                lemma_find_dc_props(v@);
            }
            return Some(i);
        }
        proof {
            assert(v@.skip(i as int)[0] == v@[i as int]);
            assert(v@.skip(i as int)[1] == v@[i as int + 1]);
            assert(v@.skip(i as int).skip(1) =~= v@.skip(i as int + 1));
        }
        i = i + 1;
    }
    proof {
        assert(v@.skip(i as int).len() < 2);
    }
    None
}

pub open spec fn all_valid_groups(ts: Seq<Seq<char>>) -> bool {
    forall|i: int| 0 <= i < ts.len() ==> valid_group(#[trigger] ts[i])
}

pub open spec fn group_vals(ts: Seq<Seq<char>>) -> Seq<u16> {
    Seq::new(ts.len(), |i: int| (group_val(ts[i]) % 65536) as u16)
}

pub open spec fn zero_groups(n: nat) -> Seq<u16> {
    Seq::new(n, |i: int| 0u16)
}

/// The pieces of one side of a `::`: none at all for an empty side.
pub open spec fn side_tokens(s: Seq<char>) -> Seq<Seq<char>> {
    if s.len() == 0 {
        Seq::<Seq<char>>::empty()
    } else {
        split_on(s, ':')
    }
}

/// The two groups denoted by an embedded dotted-quad tail.
pub open spec fn v4_groups(t: Seq<char>) -> Seq<u16> {
    let ts = split_on(t, '.');
    seq![
        ((dec_val(ts[0]) * 256 + dec_val(ts[1])) % 65536) as u16,
        ((dec_val(ts[2]) * 256 + dec_val(ts[3])) % 65536) as u16,
    ]
}

/// The groups of the rightmost side of an address: hexadecimal groups,
/// optionally ending in an embedded dotted-quad worth two groups.
pub open spec fn tail_vals(ts: Seq<Seq<char>>) -> Option<Seq<u16>> {
    if all_valid_groups(ts) {
        Some(group_vals(ts))
    } else if ts.len() > 0 && all_valid_groups(ts.drop_last()) && valid_ipv4(ts.last()) {
        Some(group_vals(ts.drop_last()) + v4_groups(ts.last()))
    } else {
        None
    }
}

/// The eight groups denoted by an IPv6 literal: either eight colon-separated
/// groups (an embedded dotted-quad tail standing for the last two), or two
/// shorter sides of a single `::` with the gap standing for the missing
/// zero groups.
pub open spec fn parse_ipv6(s: Seq<char>) -> Option<Seq<u16>> {
    let d = find_dc(s);
    if d < 0 {
        match tail_vals(split_on(s, ':')) {
            Some(g) => if g.len() == 8 {
                Some(g)
            } else {
                None
            },
            None => None,
        }
    } else {
        let lt = side_tokens(s.take(d));
        let rt = side_tokens(s.skip(d + 2));
        if all_valid_groups(lt) {
            match tail_vals(rt) {
                Some(g) => if lt.len() + g.len() <= 7 {
                    Some(group_vals(lt) + zero_groups((8 - lt.len() - g.len()) as nat) + g)
                } else {
                    None
                },
                None => None,
            }
        } else {
            None
        }
    }
}

fn is_valid_group_exec(t: &Vec<char>) -> (r: bool)
    ensures
        r == valid_group(t@),
{
    if t.len() < 1 || t.len() > 4 {
        return false;
    }
    let mut i: usize = 0;
    while i < t.len()
        invariant
            i <= t@.len(),
            forall|j: int| 0 <= j < i ==> is_hex_digit(#[trigger] t@[j]),
        decreases t@.len() - i,
    {
        if hex_val_exec(t[i]) >= 16 {
            proof {
                assert(!is_hex_digit(t@[i as int]));
            }
            return false;
        }
        i = i + 1;
    }
    true
}

fn parse_groups(toks: &Vec<Vec<char>>) -> (r: Option<Vec<u16>>)
    ensures
        match r {
            Some(v) => all_valid_groups(views_of(toks@)) && v@ == group_vals(views_of(toks@)),
            None => !all_valid_groups(views_of(toks@)),
        },
{
    let mut v: Vec<u16> = Vec::new();
    let mut i: usize = 0;
    while i < toks.len()
        invariant
            i <= toks@.len(),
            v@.len() == i,
            forall|j: int| 0 <= j < i ==> valid_group(#[trigger] views_of(toks@)[j]),
            forall|j: int|
                0 <= j < i ==> (#[trigger] v@[j]) as nat == group_val(views_of(toks@)[j]),
        decreases toks@.len() - i,
    {
        proof {
            assert(views_of(toks@)[i as int] == toks@[i as int]@);
        }
        if !is_valid_group_exec(&toks[i]) {
            proof {
                assert(!valid_group(views_of(toks@)[i as int]));
            }
            return None;
        }
        let g = group_val_exec(&toks[i]);
        v.push(g);
        i = i + 1;
    }
    proof {
        assert forall|j: int| 0 <= j < toks@.len() implies v@[j] == group_vals(views_of(toks@))[j] by {
            crate::numfmt::lemma_group_val_bound(views_of(toks@)[j]);
        }
        assert(v@ =~= group_vals(views_of(toks@)));
    }
    Some(v)
}

/// Parses the groups of an address's rightmost side, an embedded
/// dotted-quad tail included.
fn parse_tail_groups(toks: &Vec<Vec<char>>) -> (r: Option<Vec<u16>>)
    ensures
        match r {
            Some(v) => tail_vals(views_of(toks@)) == Some(v@),
            None => tail_vals(views_of(toks@)) is None,
        },
{
    match parse_groups(toks) {
        Some(v) => Some(v),
        None => {
            let n = toks.len();
            if n == 0 {
                return None;
            }
            proof {
                assert(views_of(toks@).last() == toks@[n - 1]@);
            }
            let p = match parse_ipv4_chars(&toks[n - 1]) {
                Some(p) => p,
                None => {
                    return None;
                },
            };
            let mut v: Vec<u16> = Vec::new();
            let mut i: usize = 0;
            while i < n - 1
                invariant
                    i <= n - 1,
                    n == toks@.len(),
                    n >= 1,
                    v@.len() == i,
                    forall|j: int|
                        0 <= j < i ==> valid_group(#[trigger] views_of(toks@).drop_last()[j]),
                    forall|j: int|
                        0 <= j < i ==> (#[trigger] v@[j]) as nat == group_val(
                            views_of(toks@).drop_last()[j],
                        ),
                decreases n - 1 - i,
            {
                proof {
                    assert(views_of(toks@).drop_last()[i as int] == toks@[i as int]@);
                }
                if !is_valid_group_exec(&toks[i]) {
                    proof {
                        assert(!valid_group(views_of(toks@).drop_last()[i as int]));
                    }
                    return None;
                }
                let g = group_val_exec(&toks[i]);
                v.push(g);
                i = i + 1;
            }
            v.push(p.0);
            v.push(p.1);
            proof {
                let ts = views_of(toks@);
                assert forall|j: int|
                    0 <= j < ts.drop_last().len() implies v@[j] == group_vals(
                    ts.drop_last(),
                )[j] by {
                    crate::numfmt::lemma_group_val_bound(ts.drop_last()[j]);
                }
                assert(v@ =~= group_vals(ts.drop_last()) + v4_groups(ts.last()));
            }
            Some(v)
        },
    }
}

/// Parses an IPv6 literal into its eight groups.
pub fn parse_ipv6_addr(v: &Vec<char>) -> (r: Option<Vec<u16>>)
    ensures
        match r {
            Some(g) => parse_ipv6(v@) == Some(g@) && g@.len() == 8,
            None => parse_ipv6(v@) is None,
        },
{
    match find_double_colon(v) {
        None => {
            let toks = split_chars(v, ':');
            match parse_tail_groups(&toks) {
                None => None,
                Some(g) => {
                    if g.len() != 8 {
                        return None;
                    }
                    Some(g)
                },
            }
        },
        Some(d) => {
            let n = v.len();
            let ghost lt = side_tokens(v@.take(d as int));
            let ghost rt = side_tokens(v@.skip(d as int + 2));
            let lvals: Vec<u16> = if d == 0 {
                proof {
                    assert(v@.take(0).len() == 0);
                    assert(lt =~= Seq::<Seq<char>>::empty());
                    assert(group_vals(lt) =~= Seq::<u16>::empty());
                }
                Vec::new()
            } else {
                let left = vec_range(v, 0, d);
                proof {
                    assert(left@ =~= v@.take(d as int));
                }
                let ltoks = split_chars(&left, ':');
                match parse_groups(&ltoks) {
                    None => {
                        return None;
                    },
                    Some(g) => g,
                }
            };
            let rvals: Vec<u16> = if d + 2 == n {
                proof {
                    assert(v@.skip(d as int + 2).len() == 0);
                    assert(rt =~= Seq::<Seq<char>>::empty());
                    assert(group_vals(rt) =~= Seq::<u16>::empty());
                }
                Vec::new()
            } else {
                let right = vec_range(v, d + 2, n);
                proof {
                    assert(right@ =~= v@.skip(d as int + 2));
                }
                let rtoks = split_chars(&right, ':');
                match parse_tail_groups(&rtoks) {
                    None => {
                        return None;
                    },
                    Some(g) => g,
                }
            };
            if lvals.len() > 7 || rvals.len() > 7 - lvals.len() {
                return None;
            }
            let ghost gr = rvals@;
            proof {
                assert(lvals@ == group_vals(lt));
                assert(tail_vals(rt) == Some(gr));
            }
            let fill = 8 - lvals.len() - rvals.len();
            let mut out = lvals;
            proof {
                assert(zero_groups(0) =~= Seq::<u16>::empty());
                assert(out@ =~= group_vals(lt) + zero_groups(0));
            }
            let mut k: usize = 0;
            while k < fill
                invariant
                    k <= fill,
                    out@ == group_vals(lt) + zero_groups(k as nat),
                    fill == 8 - group_vals(lt).len() - gr.len(),
                decreases fill - k,
            {
                out.push(0u16);
                proof {
                    assert(out@ =~= group_vals(lt) + zero_groups(k as nat + 1));
                }
                k = k + 1;
            }
            proof {
                assert(gr.take(0) =~= Seq::<u16>::empty());
                assert(out@ =~= group_vals(lt) + zero_groups(fill as nat) + gr.take(0));
            }
            let mut k2: usize = 0;
            let rlen = rvals.len();
            while k2 < rlen
                invariant
                    k2 <= rlen,
                    rlen == gr.len(),
                    rvals@ == gr,
                    out@ == group_vals(lt) + zero_groups(fill as nat) + gr.take(k2 as int),
                    fill == 8 - group_vals(lt).len() - gr.len(),
                decreases rlen - k2,
            {
                out.push(rvals[k2]);
                proof {
                    assert(out@ =~= group_vals(lt) + zero_groups(fill as nat) + gr.take(
                        k2 as int + 1,
                    ));
                }
                k2 = k2 + 1;
            }
            proof {
                assert(gr.take(rlen as int) =~= gr);
            }
            Some(out)
        },
    }
}

/// Eight lowercase four-digit hexadecimal groups joined with colons: the
/// canonical rendering of an IPv6 address for the update transaction.
pub open spec fn ipv6_canonical(g: Seq<u16>) -> Seq<char> {
    hex4_rep(g[0]) + seq![':'] + hex4_rep(g[1]) + seq![':'] + hex4_rep(g[2]) + seq![':']
        + hex4_rep(g[3]) + seq![':'] + hex4_rep(g[4]) + seq![':'] + hex4_rep(g[5]) + seq![':']
        + hex4_rep(g[6]) + seq![':'] + hex4_rep(g[7])
}

pub fn render_ipv6(g: &Vec<u16>) -> (r: String)
    requires
        g@.len() == 8,
    ensures
        r@ == ipv6_canonical(g@),
{
    proof {
        reveal_strlit(":");
    }
    let mut s = hex4(g[0]);
    s.append(":");
    let p1 = hex4(g[1]);
    s.append(p1.as_str());
    s.append(":");
    let p2 = hex4(g[2]);
    s.append(p2.as_str());
    s.append(":");
    let p3 = hex4(g[3]);
    s.append(p3.as_str());
    s.append(":");
    let p4 = hex4(g[4]);
    s.append(p4.as_str());
    s.append(":");
    let p5 = hex4(g[5]);
    s.append(p5.as_str());
    s.append(":");
    let p6 = hex4(g[6]);
    s.append(p6.as_str());
    s.append(":");
    let p7 = hex4(g[7]);
    s.append(p7.as_str());
    proof {
        assert(s@ =~= ipv6_canonical(g@));
    }
    s
}

/// What the update transaction carries for an IPv6 literal: the canonical
/// rendering of its parsed groups, or nothing for a malformed literal.
pub open spec fn ipv6_rendered(s: Seq<char>) -> Option<Seq<char>> {
    match parse_ipv6(s) {
        Some(g) => Some(ipv6_canonical(g)),
        None => None,
    }
}

/// Parses and canonically re-renders an IPv6 literal.
pub fn format_ipv6(s: &str) -> (r: Option<String>)
    ensures
        match r {
            Some(t) => ipv6_rendered(s@) == Some(t@),
            None => ipv6_rendered(s@) is None,
        },
{
    let chars = str_chars(s);
    match parse_ipv6_addr(&chars) {
        None => None,
        Some(g) => Some(render_ipv6(&g)),
    }
}

pub open spec fn is_dec_digit(c: char) -> bool {
    hex_val(c) < 10
}

/// The value of a sequence of decimal digits, most significant first.
pub open spec fn dec_val(t: Seq<char>) -> nat
    decreases t.len(),
{
    if t.len() == 0 {
        0
    } else {
        dec_val(t.drop_last()) * 10 + hex_val(t.last())
    }
}

/// One dotted-quad part: one to three decimal digits, no surplus leading
/// zero, value at most 255.
pub open spec fn valid_octet(t: Seq<char>) -> bool {
    1 <= t.len() <= 3 && (forall|i: int| 0 <= i < t.len() ==> is_dec_digit(#[trigger] t[i]))
        && dec_val(t) <= 255 && (t.len() > 1 ==> t[0] != '0')
}

/// A well-formed IPv4 literal: four valid dotted-quad parts.
pub open spec fn valid_ipv4(s: Seq<char>) -> bool {
    let ts = split_on(s, '.');
    ts.len() == 4 && (forall|i: int| 0 <= i < ts.len() ==> valid_octet(#[trigger] ts[i]))
}

proof fn lemma_dec_val_bound(t: Seq<char>)
    requires
        t.len() <= 3,
        forall|i: int| 0 <= i < t.len() ==> is_dec_digit(#[trigger] t[i]),
    ensures
        dec_val(t) < 1000,
    decreases t.len(),
{
    if t.len() > 0 {
        lemma_dec_val_bound_small(t.drop_last());
    }
}

proof fn lemma_dec_val_bound_small(t: Seq<char>)
    requires
        t.len() <= 2,
        forall|i: int| 0 <= i < t.len() ==> is_dec_digit(#[trigger] t[i]),
    ensures
        dec_val(t) < 100,
    decreases t.len(),
{
    if t.len() > 0 {
        lemma_dec_val_bound_one(t.drop_last());
    }
}

proof fn lemma_dec_val_bound_one(t: Seq<char>)
    requires
        t.len() <= 1,
        forall|i: int| 0 <= i < t.len() ==> is_dec_digit(#[trigger] t[i]),
    ensures
        dec_val(t) < 10,
{
    if t.len() > 0 {
        assert(is_dec_digit(t[0]));
        assert(t.last() == t[0]);
        assert(dec_val(t.drop_last()) == 0);
    }
}

fn octet_val_exec(t: &Vec<char>) -> (r: Option<u8>)
    ensures
        match r {
            Some(v) => valid_octet(t@) && v as nat == dec_val(t@),
            None => !valid_octet(t@),
        },
{
    if t.len() < 1 || t.len() > 3 {
        return None;
    }
    if t.len() > 1 && t[0] == '0' {
        return None;
    }
    let mut val: u32 = 0;
    let mut i: usize = 0;
    proof {
        assert(t@.take(0) =~= Seq::<char>::empty());
    }
    while i < t.len()
        invariant
            i <= t@.len(),
            1 <= t@.len() <= 3,
            forall|j: int| 0 <= j < i ==> is_dec_digit(#[trigger] t@[j]),
            val as nat == dec_val(t@.take(i as int)),
            val < 1000,
        decreases t@.len() - i,
    {
        let ghost pre = t@.take(i as int);
        let d = hex_val_exec(t[i]);
        if d >= 10 {
            proof {
                assert(!is_dec_digit(t@[i as int]));
            }
            return None;
        }
        proof {
            let nxt = t@.take(i as int + 1);
            assert(nxt.drop_last() =~= pre);
            assert(nxt.last() == t@[i as int]);
            assert forall|j: int| 0 <= j < nxt.len() implies is_dec_digit(#[trigger] nxt[j]) by {
                assert(nxt[j] == t@[j]);
            }
            lemma_dec_val_bound(nxt);
        }
        val = val * 10 + (d as u32);
        i = i + 1;
    }
    proof {
        assert(t@.take(t@.len() as int) =~= t@);
    }
    if val <= 255 {
        Some(val as u8)
    } else {
        None
    }
}

/// Parses a dotted-quad literal into its upper and lower sixteen-bit halves.
fn parse_ipv4_chars(t: &Vec<char>) -> (r: Option<(u16, u16)>)
    ensures
        match r {
            Some(p) => valid_ipv4(t@) && v4_groups(t@) == seq![p.0, p.1],
            None => !valid_ipv4(t@),
        },
{
    let toks = split_chars(t, '.');
    if toks.len() != 4 {
        return None;
    }
    proof {
        assert(views_of(toks@)[0] == toks@[0]@);
        assert(views_of(toks@)[1] == toks@[1]@);
        assert(views_of(toks@)[2] == toks@[2]@);
        assert(views_of(toks@)[3] == toks@[3]@);
    }
    let o0 = match octet_val_exec(&toks[0]) {
        Some(v) => v,
        None => {
            return None;
        },
    };
    let o1 = match octet_val_exec(&toks[1]) {
        Some(v) => v,
        None => {
            return None;
        },
    };
    let o2 = match octet_val_exec(&toks[2]) {
        Some(v) => v,
        None => {
            return None;
        },
    };
    let o3 = match octet_val_exec(&toks[3]) {
        Some(v) => v,
        None => {
            return None;
        },
    };
    let hi: u16 = (o0 as u16) * 256 + (o1 as u16);
    let lo: u16 = (o2 as u16) * 256 + (o3 as u16);
    proof {
        let ts = split_on(t@, '.');
        assert forall|i: int| 0 <= i < ts.len() implies valid_octet(#[trigger] ts[i]) by {
            assert(ts[i] == views_of(toks@)[i]);
            if i == 0 {
            } else if i == 1 {
            } else if i == 2 {
            } else {
                assert(i == 3);
            }
        }
        assert(v4_groups(t@) =~= seq![hi, lo]);
    }
    Some((hi, lo))
}

/// Checks that `s` is a well-formed IPv4 literal, fit to embed in an update
/// transaction unmodified.
pub fn is_valid_ipv4(s: &str) -> (r: bool)
    ensures
        r == valid_ipv4(s@),
{
    let chars = str_chars(s);
    match parse_ipv4_chars(&chars) {
        Some(_) => true,
        None => false,
    }
}

} // verus!
