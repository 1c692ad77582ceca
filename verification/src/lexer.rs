use vstd::prelude::*;

verus! {

/// The position of the first `c` in `s`, the length of `s` where it has none.
pub open spec fn find_char(s: Seq<char>, c: char) -> int
    decreases s.len(),
{
    if s.len() == 0 {
        0
    } else if s[0] == c {
        0
    } else {
        1 + find_char(s.skip(1), c)
    }
}

/// The pieces of `s` between the occurrences of `c`. A text without `c` is
/// one piece; two occurrences side by side have an empty piece between
/// them.
pub open spec fn spec_split(s: Seq<char>, c: char) -> Seq<Seq<char>>
    decreases s.len(),
{
    let i = find_char(s, c);
    if 0 <= i < s.len() {
        seq![s.take(i)] + spec_split(s.skip(i + 1), c)
    } else {
        seq![s]
    }
}

/// The digit that a character stands for.
pub open spec fn digit_of(c: char) -> Option<nat> {
    if c == '0' {
        Some(0)
    } else if c == '1' {
        Some(1)
    } else if c == '2' {
        Some(2)
    } else if c == '3' {
        Some(3)
    } else if c == '4' {
        Some(4)
    } else if c == '5' {
        Some(5)
    } else if c == '6' {
        Some(6)
    } else if c == '7' {
        Some(7)
    } else if c == '8' {
        Some(8)
    } else if c == '9' {
        Some(9)
    } else {
        None
    }
}

/// Every character of `s` is a digit.
pub open spec fn all_digits(s: Seq<char>) -> bool {
    forall|i: int| 0 <= i < s.len() ==> digit_of(#[trigger] s[i]) is Some
}

/// The number that the digits of `s` write in decimal.
pub open spec fn digits_value(s: Seq<char>) -> nat
    decreases s.len(),
{
    if s.len() == 0 {
        0
    } else {
        10 * digits_value(s.drop_last()) + digit_of(s.last()).unwrap_or(0)
    }
}

/// The integer that `s` writes: an optional sign, then one digit or more.
pub open spec fn parse_int(s: Seq<char>) -> Option<int> {
    if s.len() == 0 {
        None
    } else {
        let signed = s[0] == '-' || s[0] == '+';
        let body = if signed {
            s.skip(1)
        } else {
            s
        };
        if body.len() == 0 || !all_digits(body) {
            None
        } else if s[0] == '-' {
            Some(-(digits_value(body) as int))
        } else {
            Some(digits_value(body) as int)
        }
    }
}

/// The 64-bit integer that `s` writes, if it writes one.
pub open spec fn parse_i64(s: Seq<char>) -> Option<i64> {
    match parse_int(s) {
        Some(n) => if i64::MIN <= n <= i64::MAX {
            Some(n as i64)
        } else {
            None
        },
        None => None,
    }
}

/// The 32-bit integer that `s` writes, if it writes one.
pub open spec fn parse_i32(s: Seq<char>) -> Option<i32> {
    match parse_int(s) {
        Some(n) => if i32::MIN <= n <= i32::MAX {
            Some(n as i32)
        } else {
            None
        },
        None => None,
    }
}

/// What `find_char` finds: no `c` stands before the position, and the
/// position holds `c` unless it is the end.
pub proof fn lemma_find_char(s: Seq<char>, c: char)
    ensures
        0 <= find_char(s, c) <= s.len(),
        forall|j: int| 0 <= j < find_char(s, c) ==> s[j] != c,
        find_char(s, c) < s.len() ==> s[find_char(s, c)] == c,
    decreases s.len(),
{
    if s.len() > 0 && s[0] != c {
        lemma_find_char(s.skip(1), c);
        assert forall|j: int| 0 <= j < find_char(s, c) implies s[j] != c by {
            if j > 0 {
                assert(s.skip(1)[j - 1] == s[j]);
            }
        }
    }
}

/// A position that no `c` stands before, and that holds `c` or is the end,
/// is the one that `find_char` finds.
pub proof fn lemma_find_char_is(s: Seq<char>, c: char, n: int)
    requires
        0 <= n <= s.len(),
        forall|j: int| 0 <= j < n ==> s[j] != c,
        n < s.len() ==> s[n] == c,
    ensures
        find_char(s, c) == n,
{
    lemma_find_char(s, c);
    let f = find_char(s, c);
    if f < n {
        assert(s[f] == c);
    } else if n < f {
        assert(s[n] != c);
    }
}

/// The first position at or after `start` where `v` holds `c`, the length of
/// `v` where there is none.
pub fn find_from(v: &Vec<char>, c: char, start: usize) -> (i: usize)
    requires
        start <= v.len(),
    ensures
        start <= i <= v.len(),
        i - start == find_char(v@.skip(start as int), c),
{
    let mut i = start;
    while i < v.len() && v[i] != c
        invariant
            start <= i <= v.len(),
            forall|j: int| start <= j < i ==> v[j] != c,
        decreases v.len() - i,
    {
        i += 1;
    }
    proof {
        let rest = v@.skip(start as int);
        assert forall|j: int| 0 <= j < i - start implies rest[j] != c by {
            assert(rest[j] == v[start + j]);
        }
        lemma_find_char_is(rest, c, i - start);
    }
    i
}

/// The texts that `ranges` cut out of `s`.
pub open spec fn pieces_of(s: Seq<char>, ranges: Seq<(usize, usize)>) -> Seq<Seq<char>> {
    Seq::new(ranges.len(), |k: int| s.subrange(ranges[k].0 as int, ranges[k].1 as int))
}

/// Cuts `v` at each `c`: the pieces, each as the range that it takes up.
pub fn split_ranges(v: &Vec<char>, c: char) -> (r: Vec<(usize, usize)>)
    ensures
        r.len() >= 1,
        forall|k: int| 0 <= k < r.len() ==> (#[trigger] r[k]).0 <= r[k].1 <= v.len(),
        pieces_of(v@, r@) == spec_split(v@, c),
{
    let mut out: Vec<(usize, usize)> = Vec::new();
    let mut start: usize = 0;
    proof {
        assert(v@.skip(0) =~= v@);
        assert(pieces_of(v@, out@) =~= Seq::<Seq<char>>::empty());
    }
    loop
        invariant_except_break
            start <= v.len(),
            spec_split(v@, c) == pieces_of(v@, out@) + spec_split(v@.skip(start as int), c),
        invariant
            forall|k: int| 0 <= k < out.len() ==> (#[trigger] out[k]).0 <= out[k].1 <= v.len(),
        ensures
            out.len() >= 1,
            pieces_of(v@, out@) == spec_split(v@, c),
        decreases v.len() - start,
    {
        let ghost before = pieces_of(v@, out@);
        let ghost rest = v@.skip(start as int);
        let i = find_from(v, c, start);
        out.push((start, i));
        proof {
            assert(rest.take(i - start) =~= v@.subrange(start as int, i as int));
            assert(pieces_of(v@, out@) =~= before + seq![v@.subrange(start as int, i as int)]);
        }
        if i == v.len() {
            proof {
                assert(rest =~= v@.subrange(start as int, i as int));
                assert(spec_split(rest, c) == seq![rest]);
            }
            break;
        }
        proof {
            assert(rest.skip(i - start + 1) =~= v@.skip(i + 1));
            assert(spec_split(rest, c) == seq![rest.take(i - start)] + spec_split(
                rest.skip(i - start + 1),
                c,
            ));
            assert(before + (seq![rest.take(i - start)] + spec_split(v@.skip(i + 1), c)) =~= (
            before + seq![rest.take(i - start)]) + spec_split(v@.skip(i + 1), c));
        }
        start = i + 1;
    }
    out
}

/// The digit that `c` stands for.
fn digit(c: char) -> (d: Option<u8>)
    ensures
        match d {
            Some(n) => digit_of(c) == Some(n as nat) && n < 10,
            None => digit_of(c) is None,
        },
{
    if c == '0' {
        Some(0)
    } else if c == '1' {
        Some(1)
    } else if c == '2' {
        Some(2)
    } else if c == '3' {
        Some(3)
    } else if c == '4' {
        Some(4)
    } else if c == '5' {
        Some(5)
    } else if c == '6' {
        Some(6)
    } else if c == '7' {
        Some(7)
    } else if c == '8' {
        Some(8)
    } else if c == '9' {
        Some(9)
    } else {
        None
    }
}

/// Digits written after a number do not make it smaller.
proof fn lemma_digits_value_grows(s: Seq<char>, k: int)
    requires
        0 <= k <= s.len(),
    ensures
        digits_value(s.take(k)) <= digits_value(s),
    decreases s.len() - k,
{
    if k == s.len() {
        assert(s.take(k) =~= s);
    } else {
        lemma_digits_value_grows(s.drop_last(), k);
        assert(s.drop_last().take(k) =~= s.take(k));
    }
}

/// Reads the 64-bit integer that the range `from..to` of `v` writes.
pub fn read_i64(v: &Vec<char>, from: usize, to: usize) -> (r: Option<i64>)
    requires
        from <= to <= v.len(),
    ensures
        r == parse_i64(v@.subrange(from as int, to as int)),
{
    let ghost s = v@.subrange(from as int, to as int);
    if from == to {
        return None;
    }
    let negative = v[from] == '-';
    let signed = negative || v[from] == '+';
    let first = if signed {
        from + 1
    } else {
        from
    };
    let ghost body = if signed {
        s.skip(1)
    } else {
        s
    };
    proof {
        assert(s[0] == v[from as int]);
        assert(body =~= v@.subrange(first as int, to as int));
    }
    if first == to {
        return None;
    }
    let limit: u128 = 9223372036854775808u128;
    let mut acc: u128 = 0;
    let mut i = first;
    proof {
        assert(body.take(0) =~= Seq::<char>::empty());
    }
    while i < to
        invariant
            first <= i <= to <= v.len(),
            from < to,
            s == v@.subrange(from as int, to as int),
            signed == (s[0] == '-' || s[0] == '+'),
            body == if signed {
                s.skip(1)
            } else {
                s
            },
            body.len() > 0,
            body == v@.subrange(first as int, to as int),
            limit == 9223372036854775808u128,
            acc <= limit,
            acc == digits_value(body.take(i - first)),
            all_digits(body.take(i - first)),
        decreases to - i,
    {
        let d = match digit(v[i]) {
            Some(d) => d,
            None => {
                proof {
                    assert(body[i - first] == v[i as int]);
                    assert(!all_digits(body));
                }
                return None;
            },
        };
        let ghost shorter = body.take(i - first);
        let ghost longer = body.take(i - first + 1);
        proof {
            assert(body[i - first] == v[i as int]);
            assert(longer.drop_last() =~= shorter);
            assert(longer.last() == v[i as int]);
            assert forall|j: int| 0 <= j < longer.len() implies digit_of(
                #[trigger] longer[j],
            ) is Some by {
                if j < shorter.len() {
                    assert(longer[j] == shorter[j]);
                }
            }
        }
        let next = acc * 10 + d as u128;
        if next > limit {
            proof {
                lemma_digits_value_grows(body, i - first + 1);
                if all_digits(body) {
                    assert(digits_value(body) > i64::MAX + 1);
                }
            }
            return None;
        }
        acc = next;
        i += 1;
    }
    proof {
        assert(body.take(to - first) =~= body);
    }
    if negative {
        if acc == limit {
            Some(i64::MIN)
        } else {
            Some(-(acc as i64))
        }
    } else {
        if acc == limit {
            None
        } else {
            Some(acc as i64)
        }
    }
}

/// Reads the 32-bit integer that the range `from..to` of `v` writes.
pub fn read_i32(v: &Vec<char>, from: usize, to: usize) -> (r: Option<i32>)
    requires
        from <= to <= v.len(),
    ensures
        r == parse_i32(v@.subrange(from as int, to as int)),
{
    let ghost s = v@.subrange(from as int, to as int);
    match read_i64(v, from, to) {
        Some(n) => {
            if n < -2147483648i64 || n > 2147483647i64 {
                None
            } else {
                Some(n as i32)
            }
        },
        None => {
            proof {
                if parse_int(s) is Some {
                    let n = parse_int(s)->0;
                    assert(!(i64::MIN <= n <= i64::MAX));
                }
            }
            None
        },
    }
}

} // verus!
