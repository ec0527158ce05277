use vstd::prelude::*;

verus! {

/// The character for one decimal digit.
pub open spec fn dec_digit(d: nat) -> char {
    if d == 0 {
        '0'
    } else if d == 1 {
        '1'
    } else if d == 2 {
        '2'
    } else if d == 3 {
        '3'
    } else if d == 4 {
        '4'
    } else if d == 5 {
        '5'
    } else if d == 6 {
        '6'
    } else if d == 7 {
        '7'
    } else if d == 8 {
        '8'
    } else {
        '9'
    }
}

/// The decimal representation of `n`, most significant digit first,
/// without leading zeros (a single zero for `n == 0`).
pub open spec fn dec_rep(n: nat) -> Seq<char>
    decreases n,
{
    if n < 10 {
        seq![dec_digit(n)]
    } else {
        dec_rep(n / 10).push(dec_digit(n % 10))
    }
}

fn dec_digit_str(d: u64) -> (r: &'static str)
    requires
        d < 10,
    ensures
        r@ == seq![dec_digit(d as nat)],
{
    proof {
        reveal_strlit("0");
        reveal_strlit("1");
        reveal_strlit("2");
        reveal_strlit("3");
        reveal_strlit("4");
        reveal_strlit("5");
        reveal_strlit("6");
        reveal_strlit("7");
        reveal_strlit("8");
        reveal_strlit("9");
    }
    let r: &'static str = if d == 0 {
        "0"
    } else if d == 1 {
        "1"
    } else if d == 2 {
        "2"
    } else if d == 3 {
        "3"
    } else if d == 4 {
        "4"
    } else if d == 5 {
        "5"
    } else if d == 6 {
        "6"
    } else if d == 7 {
        "7"
    } else if d == 8 {
        "8"
    } else {
        "9"
    };
    proof {
        assert(r@ =~= seq![dec_digit(d as nat)]);
    }
    r
}

/// Renders `n` in decimal.
pub fn u64_to_string(n: u64) -> (r: String)
    ensures
        r@ == dec_rep(n as nat),
    decreases n,
{
    if n < 10 {
        String::from_str(dec_digit_str(n))
    } else {
        proof {
            assert(n / 10 < n) by (nonlinear_arith)
                requires
                    n >= 10,
            ;
        }
        let mut s = u64_to_string(n / 10);
        s.append(dec_digit_str(n % 10));
        proof {
            assert(dec_rep((n / 10) as nat) + seq![dec_digit((n % 10) as nat)] =~= dec_rep(
                (n / 10) as nat,
            ).push(dec_digit((n % 10) as nat)));
            assert((n as nat) / 10 == (n / 10) as nat);
            assert((n as nat) % 10 == (n % 10) as nat);
        }
        s
    }
}

/// The character for one hexadecimal digit, lowercase.
pub open spec fn hex_digit(d: nat) -> char {
    if d < 10 {
        dec_digit(d)
    } else if d == 10 {
        'a'
    } else if d == 11 {
        'b'
    } else if d == 12 {
        'c'
    } else if d == 13 {
        'd'
    } else if d == 14 {
        'e'
    } else {
        'f'
    }
}

/// The value of one hexadecimal digit character, 16 for a non-digit.
pub open spec fn hex_val(c: char) -> nat {
    if c == '0' {
        0
    } else if c == '1' {
        1
    } else if c == '2' {
        2
    } else if c == '3' {
        3
    } else if c == '4' {
        4
    } else if c == '5' {
        5
    } else if c == '6' {
        6
    } else if c == '7' {
        7
    } else if c == '8' {
        8
    } else if c == '9' {
        9
    } else if c == 'a' || c == 'A' {
        10
    } else if c == 'b' || c == 'B' {
        11
    } else if c == 'c' || c == 'C' {
        12
    } else if c == 'd' || c == 'D' {
        13
    } else if c == 'e' || c == 'E' {
        14
    } else if c == 'f' || c == 'F' {
        15
    } else {
        16
    }
}

pub open spec fn is_hex_digit(c: char) -> bool {
    hex_val(c) < 16
}

pub fn hex_val_exec(c: char) -> (r: u8)
    ensures
        r as nat == hex_val(c),
{
    if c == '0' {
        0
    } else if c == '1' {
        1
    } else if c == '2' {
        2
    } else if c == '3' {
        3
    } else if c == '4' {
        4
    } else if c == '5' {
        5
    } else if c == '6' {
        6
    } else if c == '7' {
        7
    } else if c == '8' {
        8
    } else if c == '9' {
        9
    } else if c == 'a' || c == 'A' {
        10
    } else if c == 'b' || c == 'B' {
        11
    } else if c == 'c' || c == 'C' {
        12
    } else if c == 'd' || c == 'D' {
        13
    } else if c == 'e' || c == 'E' {
        14
    } else if c == 'f' || c == 'F' {
        15
    } else {
        16
    }
}

fn hex_digit_str(d: u16) -> (r: &'static str)
    requires
        d < 16,
    ensures
        r@ == seq![hex_digit(d as nat)],
{
    if d < 10 {
        dec_digit_str(d as u64)
    } else {
        proof {
            reveal_strlit("a");
            reveal_strlit("b");
            reveal_strlit("c");
            reveal_strlit("d");
            reveal_strlit("e");
            reveal_strlit("f");
        }
        let r: &'static str = if d == 10 {
            "a"
        } else if d == 11 {
            "b"
        } else if d == 12 {
            "c"
        } else if d == 13 {
            "d"
        } else if d == 14 {
            "e"
        } else {
            "f"
        };
        proof {
            assert(r@ =~= seq![hex_digit(d as nat)]);
        }
        r
    }
}

/// `x` as exactly four lowercase hexadecimal digits, zero-padded.
pub open spec fn hex4_rep(x: u16) -> Seq<char> {
    seq![
        hex_digit((x as nat) / 4096 % 16),
        hex_digit((x as nat) / 256 % 16),
        hex_digit((x as nat) / 16 % 16),
        hex_digit((x as nat) % 16),
    ]
}

pub fn hex4(x: u16) -> (r: String)
    ensures
        r@ == hex4_rep(x),
{
    let mut s = String::from_str(hex_digit_str(x / 4096 % 16));
    s.append(hex_digit_str(x / 256 % 16));
    s.append(hex_digit_str(x / 16 % 16));
    s.append(hex_digit_str(x % 16));
    proof {
        assert(s@ =~= hex4_rep(x));
    }
    s
}

/// The value of a sequence of hexadecimal digits, most significant first.
pub open spec fn group_val(t: Seq<char>) -> nat
    decreases t.len(),
{
    if t.len() == 0 {
        0
    } else {
        group_val(t.drop_last()) * 16 + hex_val(t.last())
    }
}

/// A hexadecimal group of an address: one to four hex digits.
pub open spec fn valid_group(t: Seq<char>) -> bool {
    1 <= t.len() <= 4 && forall|i: int| 0 <= i < t.len() ==> is_hex_digit(#[trigger] t[i])
}

pub proof fn lemma_group_val_bound(t: Seq<char>)
    requires
        t.len() <= 4,
        forall|i: int| 0 <= i < t.len() ==> is_hex_digit(#[trigger] t[i]),
    ensures
        group_val(t) < 65536,
    decreases t.len(),
{
    if t.len() > 0 {
        lemma_group_val_small(t.drop_last());
    }
}

/// A group of at most three digits stays below 4096, and so on downward.
proof fn lemma_group_val_small(t: Seq<char>)
    requires
        t.len() <= 3,
        forall|i: int| 0 <= i < t.len() ==> is_hex_digit(#[trigger] t[i]),
    ensures
        group_val(t) < 4096,
    decreases t.len(),
{
    if t.len() > 0 {
        lemma_group_val_smaller(t.drop_last());
    }
}

proof fn lemma_group_val_smaller(t: Seq<char>)
    requires
        t.len() <= 2,
        forall|i: int| 0 <= i < t.len() ==> is_hex_digit(#[trigger] t[i]),
    ensures
        group_val(t) < 256,
    decreases t.len(),
{
    if t.len() > 0 {
        lemma_group_val_one(t.drop_last());
    }
}

proof fn lemma_group_val_one(t: Seq<char>)
    requires
        t.len() <= 1,
        forall|i: int| 0 <= i < t.len() ==> is_hex_digit(#[trigger] t[i]),
    ensures
        group_val(t) < 16,
{
    if t.len() > 0 {
        assert(is_hex_digit(t[0]));
        assert(t.last() == t[0]);
        assert(group_val(t.drop_last()) == 0);
    }
}

/// The value of a group of hexadecimal digit characters.
pub fn group_val_exec(t: &Vec<char>) -> (r: u16)
    requires
        valid_group(t@),
    ensures
        r as nat == group_val(t@),
{
    proof {
        lemma_group_val_bound(t@);
    }
    let mut r: u32 = 0;
    let mut i: usize = 0;
    proof {
        assert(t@.take(0) =~= Seq::<char>::empty());
    }
    while i < t.len()
        invariant
            i <= t@.len(),
            valid_group(t@),
            r as nat == group_val(t@.take(i as int)),
            r < 65536,
        decreases t@.len() - i,
    {
        let ghost pre = t@.take(i as int);
        let d = hex_val_exec(t[i]);
        proof {
            assert(is_hex_digit(t@[i as int]));
            let nxt = t@.take(i as int + 1);
            assert(nxt.drop_last() =~= pre);
            assert(nxt.last() == t@[i as int]);
            lemma_group_val_bound(nxt);
            assert(t@.take(t@.len() as int) =~= t@);
            assert(group_val(nxt) == group_val(pre) * 16 + hex_val(t@[i as int]));
        }
        r = r * 16 + (d as u32);
        i = i + 1;
    }
    proof {
        assert(t@.take(t@.len() as int) =~= t@);
    }
    r as u16
}

} // verus!
