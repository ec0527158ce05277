use vstd::prelude::*;

verus! {

/// The characters of `s`, one per element, in order.
pub fn str_chars(s: &str) -> (r: Vec<char>)
    ensures
        r@ == s@,
{
    let n = s.unicode_len();
    let mut r: Vec<char> = Vec::new();
    let mut i: usize = 0;
    while i < n
        invariant
            i <= n,
            n == s@.len(),
            r@ == s@.take(i as int),
        decreases n - i,
    {
        r.push(s.get_char(i));
        proof {
            assert(r@ =~= s@.take(i as int + 1));
        }
        i = i + 1;
    }
    proof {
        assert(s@.take(n as int) =~= s@);
    }
    r
}

/// `suffix` stands at the end of `s`.
pub open spec fn ends_with(s: Seq<char>, suffix: Seq<char>) -> bool {
    suffix.len() <= s.len() && s.skip(s.len() - suffix.len()) == suffix
}

pub fn str_ends_with(s: &str, suffix: &str) -> (r: bool)
    ensures
        r == ends_with(s@, suffix@),
{
    let n = s.unicode_len();
    let m = suffix.unicode_len();
    if m > n {
        return false;
    }
    let off = n - m;
    let ghost tail = s@.skip(off as int);
    proof {
        assert(tail.len() == m);
    }
    let mut i: usize = 0;
    while i < m
        invariant
            i <= m,
            m <= n,
            off == n - m,
            n == s@.len(),
            m == suffix@.len(),
            tail == s@.skip(off as int),
            forall|j: int| 0 <= j < i ==> tail[j] == suffix@[j],
        decreases m - i,
    {
        let cs = s.get_char(off + i);
        let ct = suffix.get_char(i);
        if cs != ct {
            proof {
                assert(tail[i as int] == s@[off + i]);
                assert(tail[i as int] != suffix@[i as int]);
            }
            return false;
        }
        proof {
            assert(tail[i as int] == s@[off + i]);
        }
        i = i + 1;
    }
    proof {
        assert(tail =~= suffix@);
    }
    true
}

pub fn str_eq(a: &str, b: &str) -> (r: bool)
    ensures
        r == (a@ == b@),
{
    let n = a.unicode_len();
    let m = b.unicode_len();
    if n != m {
        return false;
    }
    let mut i: usize = 0;
    while i < n
        invariant
            i <= n,
            n == a@.len(),
            n == b@.len(),
            forall|j: int| 0 <= j < i ==> a@[j] == b@[j],
        decreases n - i,
    {
        if a.get_char(i) != b.get_char(i) {
            proof {
                assert(a@[i as int] != b@[i as int]);
            }
            return false;
        }
        i = i + 1;
    }
    proof {
        assert(a@ =~= b@);
    }
    true
}

pub fn contains_char(s: &str, c: char) -> (r: bool)
    ensures
        r == s@.contains(c),
{
    let n = s.unicode_len();
    let mut i: usize = 0;
    while i < n
        invariant
            i <= n,
            n == s@.len(),
            forall|j: int| 0 <= j < i ==> s@[j] != c,
        decreases n - i,
    {
        if s.get_char(i) == c {
            proof {
                assert(s@[i as int] == c);
            }
            return true;
        }
        i = i + 1;
    }
    proof {
        assert(!s@.contains(c));
    }
    false
}

/// Index of the last occurrence of `sep` in `s`, or -1 when there is none.
pub open spec fn last_sep(s: Seq<char>, sep: char) -> int
    decreases s.len(),
{
    if s.len() == 0 {
        -1
    } else if s.last() == sep {
        s.len() - 1
    } else {
        last_sep(s.drop_last(), sep)
    }
}

pub proof fn lemma_last_sep_bound(s: Seq<char>, sep: char)
    ensures
        -1 <= last_sep(s, sep) < s.len(),
        last_sep(s, sep) >= 0 ==> s[last_sep(s, sep)] == sep,
        forall|j: int| last_sep(s, sep) < j < s.len() ==> s[j] != sep,
    decreases s.len(),
{
    if s.len() > 0 && s.last() != sep {
        lemma_last_sep_bound(s.drop_last(), sep);
        assert forall|j: int| last_sep(s, sep) < j < s.len() - 1 implies s[j] != sep by {
            assert(s.drop_last()[j] == s[j]);
            assert(s.drop_last()[j] != sep);
        }
    }
}

/// Position of the last occurrence of `sep` in `s`.
pub fn last_char_index(s: &str, sep: char) -> (r: Option<usize>)
    ensures
        match r {
            Some(j) => last_sep(s@, sep) == j as int,
            None => last_sep(s@, sep) == -1,
        },
{
    let n = s.unicode_len();
    let mut i: usize = 0;
    let mut found: Option<usize> = None;
    proof {
        assert(s@.take(0) =~= Seq::<char>::empty());
    }
    while i < n
        invariant
            i <= n,
            n == s@.len(),
            match found {
                Some(j) => last_sep(s@.take(i as int), sep) == j as int && j < i,
                None => last_sep(s@.take(i as int), sep) == -1,
            },
        decreases n - i,
    {
        let ghost pre = s@.take(i as int);
        let c = s.get_char(i);
        proof {
            assert(s@.take(i as int + 1) =~= pre.push(s@[i as int]));
            assert(pre.push(s@[i as int]).drop_last() =~= pre);
        }
        if c == sep {
            found = Some(i);
        }
        i = i + 1;
    }
    proof {
        assert(s@.take(n as int) =~= s@);
    }
    found
}

/// Position of the last occurrence of `sep` among the characters of `v`.
pub fn last_char_index_vec(v: &Vec<char>, sep: char) -> (r: Option<usize>)
    ensures
        match r {
            Some(j) => last_sep(v@, sep) == j as int,
            None => last_sep(v@, sep) == -1,
        },
{
    let n = v.len();
    let mut i: usize = 0;
    let mut found: Option<usize> = None;
    proof {
        assert(v@.take(0) =~= Seq::<char>::empty());
    }
    while i < n
        invariant
            i <= n,
            n == v@.len(),
            match found {
                Some(j) => last_sep(v@.take(i as int), sep) == j as int && j < i,
                None => last_sep(v@.take(i as int), sep) == -1,
            },
        decreases n - i,
    {
        let ghost pre = v@.take(i as int);
        proof {
            assert(v@.take(i as int + 1) =~= pre.push(v@[i as int]));
            assert(pre.push(v@[i as int]).drop_last() =~= pre);
        }
        if v[i] == sep {
            found = Some(i);
        }
        i = i + 1;
    }
    proof {
        assert(v@.take(n as int) =~= v@);
    }
    found
}

/// Relies on std's FromIterator for String: collecting characters yields
/// the string of exactly those characters in order.
#[verifier::external_body]
pub(crate) fn string_of_chars(v: &Vec<char>) -> (r: String)
    ensures
        r@ == v@,
{
    v.iter().collect()
}

/// The pieces of `s` between occurrences of `sep`, empty pieces kept:
/// splitting `a:b` on ':' gives `[a, b]`; splitting `:` gives two empties.
pub open spec fn split_on(s: Seq<char>, sep: char) -> Seq<Seq<char>>
    decreases s.len(),
    via split_on_decreases
{
    let j = last_sep(s, sep);
    if j < 0 {
        seq![s]
    } else {
        split_on(s.take(j), sep).push(s.skip(j + 1))
    }
}

#[via_fn]
proof fn split_on_decreases(s: Seq<char>, sep: char) {
    lemma_last_sep_bound(s, sep);
}

/// Appending a separator ends the split with a fresh empty piece.
pub proof fn lemma_split_on_push_sep(s: Seq<char>, sep: char)
    ensures
        split_on(s.push(sep), sep) == split_on(s, sep).push(Seq::<char>::empty()),
{
    let t = s.push(sep);
    assert(t.last() == sep);
    assert(t.drop_last() =~= s);
    assert(last_sep(t, sep) == s.len());
    assert(t.take(s.len() as int) =~= s);
    assert(t.skip(s.len() as int + 1) =~= Seq::<char>::empty());
}

/// Appending any other character extends the split's last piece.
pub proof fn lemma_split_on_push_other(s: Seq<char>, c: char, sep: char)
    requires
        c != sep,
    ensures
        split_on(s.push(c), sep) == split_on(s, sep).drop_last().push(
            split_on(s, sep).last().push(c),
        ),
{
    let t = s.push(c);
    assert(t.drop_last() =~= s);
    let j = last_sep(s, sep);
    lemma_last_sep_bound(s, sep);
    assert(last_sep(t, sep) == j);
    if j < 0 {
        assert(split_on(t, sep) =~= seq![t]);
        assert(split_on(s, sep) == seq![s]);
        assert(split_on(s, sep).drop_last().push(split_on(s, sep).last().push(c)) =~= seq![
            s.push(c),
        ]);
    } else {
        assert(t.take(j) =~= s.take(j));
        assert(t.skip(j + 1) =~= s.skip(j + 1).push(c));
        let base = split_on(s.take(j), sep);
        assert(split_on(t, sep) == base.push(s.skip(j + 1).push(c)));
        assert(split_on(s, sep) == base.push(s.skip(j + 1)));
        assert(split_on(s, sep).drop_last() =~= base);
        assert(split_on(s, sep).last() == s.skip(j + 1));
    }
}

/// The views of a vector of character vectors.
pub open spec fn views_of(v: Seq<Vec<char>>) -> Seq<Seq<char>> {
    v.map_values(|t: Vec<char>| t@)
}

pub fn split_chars(v: &Vec<char>, sep: char) -> (r: Vec<Vec<char>>)
    ensures
        views_of(r@) == split_on(v@, sep),
        r@.len() >= 1,
{
    let mut toks: Vec<Vec<char>> = Vec::new();
    let mut cur: Vec<char> = Vec::new();
    let mut i: usize = 0;
    proof {
        assert(v@.take(0) =~= Seq::<char>::empty());
        assert(views_of(toks@).push(cur@) =~= split_on(v@.take(0), sep));
    }
    while i < v.len()
        invariant
            i <= v@.len(),
            views_of(toks@).push(cur@) == split_on(v@.take(i as int), sep),
        decreases v@.len() - i,
    {
        let ghost pre = v@.take(i as int);
        proof {
            assert(v@.take(i as int + 1) =~= pre.push(v@[i as int]));
        }
        let c = v[i];
        if c == sep {
            proof {
                lemma_split_on_push_sep(pre, sep);
            }
            toks.push(cur);
            cur = Vec::new();
            proof {
                assert(views_of(toks@).push(cur@) =~= split_on(pre, sep).push(
                    Seq::<char>::empty(),
                ));
            }
        } else {
            proof {
                lemma_split_on_push_other(pre, c, sep);
            }
            let ghost old_toks = views_of(toks@);
            let ghost old_cur = cur@;
            cur.push(c);
            proof {
                assert(split_on(pre, sep).drop_last() =~= old_toks);
                assert(split_on(pre, sep).last() == old_cur);
                assert(views_of(toks@).push(cur@) =~= split_on(pre, sep).drop_last().push(
                    split_on(pre, sep).last().push(c),
                ));
            }
        }
        i = i + 1;
    }
    proof {
        assert(v@.take(v@.len() as int) =~= v@);
    }
    let ghost final_toks = views_of(toks@);
    toks.push(cur);
    proof {
        assert(views_of(toks@) =~= final_toks.push(cur@));
    }
    toks
}

/// The elements of `v` between positions `a` and `b`.
pub fn vec_range(v: &Vec<char>, a: usize, b: usize) -> (r: Vec<char>)
    requires
        a <= b <= v@.len(),
    ensures
        r@ == v@.subrange(a as int, b as int),
{
    let mut r: Vec<char> = Vec::new();
    let mut i: usize = a;
    proof {
        assert(r@ =~= v@.subrange(a as int, a as int));
    }
    while i < b
        invariant
            a <= i <= b <= v@.len(),
            r@ == v@.subrange(a as int, i as int),
        decreases b - i,
    {
        r.push(v[i]);
        proof {
            assert(r@ =~= v@.subrange(a as int, i as int + 1));
        }
        i = i + 1;
    }
    r
}

} // verus!
