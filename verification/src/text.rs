use vstd::prelude::*;
use vstd::string::StrSliceExecFns;
use vstd::string::StringExecFns;

verus! {

/// The characters of `s`, in order.
pub fn chars_of(s: &str) -> (v: Vec<char>)
    ensures
        v@ == s@,
{
    let mut v: Vec<char> = Vec::new();
    for c in it: s.chars()
        invariant
            v@ == it.seq().take(it.index() as int),
            it.seq() == s@,
    {
        v.push(c);
    }
    v
}

/// The character that stands for a digit.
pub open spec fn digit_char(d: nat) -> char
    recommends
        d < 10,
{
    if d == 0 {
        '0'
    } else if d == 1 {
        '1'
    } else if d == 2 {
        '2'
    } else if d == 3 {
        '3'
    } else if d == 4 {
        '4'
    } else if d == 5 {
        '5'
    } else if d == 6 {
        '6'
    } else if d == 7 {
        '7'
    } else if d == 8 {
        '8'
    } else {
        '9'
    }
}

/// A natural number in decimal, without leading zeros.
pub open spec fn spec_decimal(n: nat) -> Seq<char>
    decreases n,
{
    if n < 10 {
        seq![digit_char(n)]
    } else {
        spec_decimal(n / 10).push(digit_char(n % 10))
    }
}

/// An integer in decimal, with a minus sign where it is negative.
pub open spec fn spec_decimal_int(n: int) -> Seq<char> {
    if n < 0 {
        seq!['-'] + spec_decimal((-n) as nat)
    } else {
        spec_decimal(n as nat)
    }
}

fn digit_str(d: u64) -> (s: &'static str)
    requires
        d < 10,
    ensures
        s@ == seq![digit_char(d as nat)],
{
    proof {
        reveal_strlit("0");
        reveal_strlit("1");
        reveal_strlit("2");
        reveal_strlit("3");
        reveal_strlit("4");
        reveal_strlit("5");
        reveal_strlit("6");
        reveal_strlit("7");
        reveal_strlit("8");
        reveal_strlit("9");
    }
    let s = if d == 0 {
        "0"
    } else if d == 1 {
        "1"
    } else if d == 2 {
        "2"
    } else if d == 3 {
        "3"
    } else if d == 4 {
        "4"
    } else if d == 5 {
        "5"
    } else if d == 6 {
        "6"
    } else if d == 7 {
        "7"
    } else if d == 8 {
        "8"
    } else {
        "9"
    };
    assert(s@ =~= seq![digit_char(d as nat)]);
    s
}

/// Renders `n` in decimal.
pub fn decimal_u64(n: u64) -> (s: String)
    ensures
        s@ == spec_decimal(n as nat),
    decreases n,
{
    if n < 10 {
        String::from_str(digit_str(n))
    } else {
        let mut s = decimal_u64(n / 10);
        s.append(digit_str(n % 10));
        assert(s@ =~= spec_decimal(n as nat));
        s
    }
}

/// Renders `n` in decimal, with a minus sign where it is negative.
pub fn decimal_i64(n: i64) -> (s: String)
    ensures
        s@ == spec_decimal_int(n as int),
{
    if n >= 0 {
        decimal_u64(n as u64)
    } else {
        let magnitude: u64 = if n == i64::MIN {
            9223372036854775808u64
        } else {
            (-n) as u64
        };
        let mut s = String::from_str("-");
        let digits = decimal_u64(magnitude);
        s.append(digits.as_str());
        proof {
            reveal_strlit("-");
            assert(s@ =~= spec_decimal_int(n as int));
        }
        s
    }
}

/// `text` without the occurrences of `pattern`, found from the left and
/// without overlap. An empty pattern removes nothing.
pub open spec fn spec_remove_all(text: Seq<char>, pattern: Seq<char>) -> Seq<char>
    decreases text.len(),
{
    if pattern.len() == 0 || text.len() < pattern.len() {
        text
    } else if text.subrange(0, pattern.len() as int) == pattern {
        spec_remove_all(text.skip(pattern.len() as int), pattern)
    } else {
        seq![text[0]] + spec_remove_all(text.skip(1), pattern)
    }
}

/// Whether `pattern` stands in `text` at position `at`.
fn occurs_at(text: &Vec<char>, pattern: &Vec<char>, at: usize) -> (r: bool)
    requires
        at + pattern.len() <= text.len(),
    ensures
        r == (text@.subrange(at as int, at + pattern.len()) == pattern@),
{
    let mut k: usize = 0;
    while k < pattern.len()
        invariant
            k <= pattern.len(),
            at + pattern.len() <= text.len(),
            forall|j: int| 0 <= j < k ==> text[at + j] == pattern[j],
        decreases pattern.len() - k,
    {
        if text[at + k] != pattern[k] {
            proof {
                assert(text@.subrange(at as int, at + pattern.len())[k as int] != pattern@[k as int]);
            }
            return false;
        }
        k += 1;
    }
    proof {
        assert(text@.subrange(at as int, at + pattern.len()) =~= pattern@);
    }
    true
}

/// Removes the occurrences of `pattern` from `text`.
pub fn remove_all(text: &str, pattern: &str) -> (s: String)
    ensures
        s@ == spec_remove_all(text@, pattern@),
{
    let t = chars_of(text);
    let p = chars_of(pattern);
    let n = t.len();
    let m = p.len();
    if m == 0 || n < m {
        return String::from_str(text);
    }
    let mut out = String::new();
    let mut start: usize = 0;
    let mut i: usize = 0;
    proof {
        assert(text@.skip(0) =~= text@);
        assert(text@.subrange(0, 0) =~= Seq::<char>::empty());
    }
    while i <= n - m
        invariant
            t@ == text@,
            p@ == pattern@,
            n == t.len(),
            m == p.len(),
            0 < m <= n,
            start <= i <= n,
            spec_remove_all(text@, pattern@) == out@ + text@.subrange(start as int, i as int)
                + spec_remove_all(text@.skip(i as int), pattern@),
        decreases n - i,
    {
        let ghost rest = text@.skip(i as int);
        proof {
            assert(rest.subrange(0, m as int) =~= text@.subrange(i as int, i + m));
        }
        if occurs_at(&t, &p, i) {
            let piece = text.substring_char(start, i);
            out.append(piece);
            i += m;
            start = i;
            proof {
                assert(rest.skip(m as int) =~= text@.skip(i as int));
                assert(text@.subrange(start as int, i as int) =~= Seq::<char>::empty());
            }
        } else {
            proof {
                assert(rest.skip(1) =~= text@.skip(i + 1));
                assert(text@.subrange(start as int, i + 1) =~= text@.subrange(
                    start as int,
                    i as int,
                ) + seq![rest[0]]);
            }
            i += 1;
        }
    }
    let tail = text.substring_char(start, n);
    out.append(tail);
    proof {
        let rest = text@.skip(i as int);
        assert(spec_remove_all(rest, pattern@) == rest);
        assert(text@.subrange(start as int, n as int) =~= text@.subrange(start as int, i as int)
            + rest);
    }
    out
}

} // verus!
