//! Text helpers for the display: decimal rendering of integers, fixed-width
//! truncation and padding, and lexicographic comparison of strings.

use vstd::prelude::*;
use vstd::string::StrSliceExecFns;
use vstd::string::StringExecFns;

verus! {

/// The character for one decimal digit.
pub open spec fn digit_char(d: nat) -> char {
    if d == 0 {
        '0'
    } else if d == 1 {
        '1'
    } else if d == 2 {
        '2'
    } else if d == 3 {
        '3'
    } else if d == 4 {
        '4'
    } else if d == 5 {
        '5'
    } else if d == 6 {
        '6'
    } else if d == 7 {
        '7'
    } else if d == 8 {
        '8'
    } else {
        '9'
    }
}

/// The decimal digits of `n`, most significant first.
pub open spec fn dec_digits(n: nat) -> Seq<char>
    decreases n,
{
    if n < 10 {
        seq![digit_char(n)]
    } else {
        dec_digits(n / 10) + seq![digit_char(n % 10)]
    }
}

/// Decimal rendering of an integer, with a leading `-` when negative.
pub open spec fn int_str(n: int) -> Seq<char> {
    if n < 0 {
        seq!['-'] + dec_digits((-n) as nat)
    } else {
        dec_digits(n as nat)
    }
}

/// A run of `n` spaces.
pub open spec fn spaces(n: nat) -> Seq<char> {
    Seq::new(n, |i: int| ' ')
}

fn digit_str(d: u64) -> (r: &'static str)
    requires
        d < 10,
    ensures
        r@ == seq![digit_char(d as nat)],
{
    proof {
        reveal_strlit("0");
        reveal_strlit("1");
        reveal_strlit("2");
        reveal_strlit("3");
        reveal_strlit("4");
        reveal_strlit("5");
        reveal_strlit("6");
        reveal_strlit("7");
        reveal_strlit("8");
        reveal_strlit("9");
    }
    let r: &'static str = if d == 0 {
        "0"
    } else if d == 1 {
        "1"
    } else if d == 2 {
        "2"
    } else if d == 3 {
        "3"
    } else if d == 4 {
        "4"
    } else if d == 5 {
        "5"
    } else if d == 6 {
        "6"
    } else if d == 7 {
        "7"
    } else if d == 8 {
        "8"
    } else {
        "9"
    };
    proof {
        assert(r@ =~= seq![digit_char(d as nat)]);
    }
    r
}

fn push_dec_digits(s: &mut String, m: u64)
    ensures
        final(s)@ == old(s)@ + dec_digits(m as nat),
    decreases m,
{
    if m < 10 {
        s.append(digit_str(m));
    } else {
        proof {
            assert(m / 10 < m) by (nonlinear_arith)
                requires
                    m >= 10,
            ;
        }
        let q = m / 10;
        push_dec_digits(s, q);
        s.append(digit_str(m % 10));
        proof {
            assert(s@ =~= old(s)@ + dec_digits(m as nat));
        }
    }
}

/// Decimal rendering of a signed integer, as `to_string` prints it.
pub fn i64_to_string(n: i64) -> (r: String)
    requires
        i64::MIN < n,
    ensures
        r@ == int_str(n as int),
{
    let mut s = String::new();
    if n < 0 {
        s.append("-");
        push_dec_digits(&mut s, (-n) as u64);
        proof {
            reveal_strlit("-");
            assert(s@ =~= int_str(n as int));
        }
    } else {
        push_dec_digits(&mut s, n as u64);
        proof {
            assert(s@ =~= int_str(n as int));
        }
    }
    s
}

/// The first `n` characters of `s`, or all of `s` when it is shorter.
pub open spec fn take_up_to(s: Seq<char>, n: int) -> Seq<char> {
    if s.len() <= n {
        s
    } else {
        s.take(n)
    }
}

pub fn take_chars(s: &str, n: usize) -> (r: String)
    ensures
        r@ == take_up_to(s@, n as int),
{
    let len = s.unicode_len();
    let k = if n < len {
        n
    } else {
        len
    };
    let sub = s.substring_char(0, k);
    proof {
        assert(sub@ =~= take_up_to(s@, n as int));
    }
    sub.to_owned()
}

/// A route label: the route reference truncated to four characters and
/// right-padded with spaces to exactly four.
pub open spec fn label_of(s: Seq<char>) -> Seq<char> {
    if s.len() >= 4 {
        s.take(4)
    } else {
        s + spaces((4 - s.len()) as nat)
    }
}

pub proof fn lemma_label_len(s: Seq<char>)
    ensures
        label_of(s).len() == 4,
{
}

pub fn pad_label(line_ref: &str) -> (r: String)
    ensures
        r@ == label_of(line_ref@),
        r@.len() == 4,
{
    proof {
        reveal_strlit(" ");
        reveal_strlit("  ");
        reveal_strlit("   ");
        reveal_strlit("    ");
    }
    let len = line_ref.unicode_len();
    if len >= 4 {
        let sub = line_ref.substring_char(0, 4);
        let r = sub.to_owned();
        proof {
            assert(r@ =~= label_of(line_ref@));
        }
        r
    } else {
        let mut r = line_ref.to_owned();
        if len == 0 {
            r.append("    ");
        } else if len == 1 {
            r.append("   ");
        } else if len == 2 {
            r.append("  ");
        } else {
            r.append(" ");
        }
        proof {
            assert(r@ =~= label_of(line_ref@));
        }
        r
    }
}

/// An arrival-time cell: the text truncated to two characters and
/// right-justified with spaces to exactly two.
pub open spec fn right_pad2(s: Seq<char>) -> Seq<char> {
    let t = take_up_to(s, 2);
    if t.len() >= 2 {
        t
    } else {
        spaces((2 - t.len()) as nat) + t
    }
}

pub fn pad_tta(s: &str) -> (r: String)
    ensures
        r@ == right_pad2(s@),
        r@.len() == 2,
{
    proof {
        reveal_strlit(" ");
        reveal_strlit("  ");
    }
    let len = s.unicode_len();
    if len >= 2 {
        let r = take_chars(s, 2);
        proof {
            assert(r@ =~= right_pad2(s@));
        }
        r
    } else if len == 1 {
        let mut r: String = " ".to_owned();
        r.append(s);
        proof {
            assert(r@ =~= right_pad2(s@));
        }
        r
    } else {
        let r: String = "  ".to_owned();
        proof {
            assert(r@ =~= right_pad2(s@));
        }
        r
    }
}

/// Strict lexicographic order on character sequences.
pub open spec fn lex_lt(a: Seq<char>, b: Seq<char>) -> bool
    decreases a.len(),
{
    if b.len() == 0 {
        false
    } else if a.len() == 0 {
        true
    } else if a[0] != b[0] {
        (a[0] as u32) < (b[0] as u32)
    } else {
        lex_lt(a.skip(1), b.skip(1))
    }
}

pub open spec fn lex_le(a: Seq<char>, b: Seq<char>) -> bool {
    lex_lt(a, b) || a == b
}

proof fn lemma_char_cast_injective(c1: char, c2: char)
    requires
        c1 as u32 == c2 as u32,
    ensures
        c1 == c2,
{
}

pub proof fn lemma_lex_connected(a: Seq<char>, b: Seq<char>)
    ensures
        !lex_lt(a, b) && !lex_lt(b, a) ==> a == b,
    decreases a.len(),
{
    if !lex_lt(a, b) && !lex_lt(b, a) {
        if a.len() == 0 && b.len() == 0 {
            assert(a =~= b);
        } else if a.len() > 0 && b.len() > 0 {
            if a[0] != b[0] {
                if (a[0] as u32) == (b[0] as u32) {
                    lemma_char_cast_injective(a[0], b[0]);
                }
                assert(false);
            }
            assert(a[0] == b[0]);
            lemma_lex_connected(a.skip(1), b.skip(1));
            assert(a.skip(1) == b.skip(1));
            assert(a =~= seq![a[0]] + a.skip(1));
            assert(b =~= seq![b[0]] + b.skip(1));
            assert(a == b);
        }
    }
}

pub proof fn lemma_lex_trans(a: Seq<char>, b: Seq<char>, c: Seq<char>)
    ensures
        lex_lt(a, b) && lex_lt(b, c) ==> lex_lt(a, c),
    decreases a.len(),
{
    if a.len() > 0 && b.len() > 0 && c.len() > 0 {
        lemma_lex_trans(a.skip(1), b.skip(1), c.skip(1));
    }
}

pub fn str_lt(a: &str, b: &str) -> (r: bool)
    ensures
        r == lex_lt(a@, b@),
{
    let alen = a.unicode_len();
    let blen = b.unicode_len();
    let mut i: usize = 0;
    proof {
        assert(a@.skip(0) =~= a@);
        assert(b@.skip(0) =~= b@);
    }
    loop
        invariant
            i <= alen,
            i <= blen,
            alen == a@.len(),
            blen == b@.len(),
            lex_lt(a@, b@) == lex_lt(a@.skip(i as int), b@.skip(i as int)),
        decreases alen - i,
    {
        if i >= blen {
            return false;
        }
        if i >= alen {
            return true;
        }
        let ca = a.get_char(i);
        let cb = b.get_char(i);
        if ca != cb {
            return (ca as u32) < (cb as u32);
        }
        proof {
            assert(a@.skip(i as int).skip(1) =~= a@.skip(i + 1));
            assert(b@.skip(i as int).skip(1) =~= b@.skip(i + 1));
        }
        i = i + 1;
    }
}

} // verus!
