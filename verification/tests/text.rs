use twitter2telegram::lexer::find_from;
use twitter2telegram::lexer::read_i32;
use twitter2telegram::lexer::read_i64;
use twitter2telegram::lexer::split_ranges;
use twitter2telegram::text::chars_of;
use twitter2telegram::text::decimal_i64;
use twitter2telegram::text::decimal_u64;
use twitter2telegram::text::remove_all;

fn tx_pieces(s: &str, c: char) -> Vec<String> {
    let v: Vec<char> = s.chars().collect();
    split_ranges(&v, c).into_iter().map(|(a, b)| v[a..b].iter().collect()).collect()
}

#[test]
fn chars_of_a_text() {
    assert_eq!(chars_of(""), Vec::<char>::new());
    assert_eq!(chars_of("aé☃😀"), vec!['a', 'é', '☃', '😀']);
}

#[test]
fn decimal_of_unsigned() {
    assert_eq!(decimal_u64(0), "0");
    assert_eq!(decimal_u64(7), "7");
    assert_eq!(decimal_u64(10), "10");
    assert_eq!(decimal_u64(1234567890), "1234567890");
    assert_eq!(decimal_u64(u64::MAX), "18446744073709551615");
    for n in [1u64, 9, 11, 99, 100, 101, 999, 1000, 65535, 4294967296] {
        assert_eq!(decimal_u64(n), n.to_string());
    }
}

#[test]
fn decimal_of_signed() {
    assert_eq!(decimal_i64(0), "0");
    assert_eq!(decimal_i64(-1), "-1");
    assert_eq!(decimal_i64(42), "42");
    assert_eq!(decimal_i64(i64::MAX), "9223372036854775807");
    assert_eq!(decimal_i64(i64::MIN), "-9223372036854775808");
    assert_eq!(decimal_i64(i64::MIN + 1), "-9223372036854775807");
    for n in [-10i64, -9, -100, 10, 1_000_000, -1_000_000] {
        assert_eq!(decimal_i64(n), n.to_string());
    }
}

#[test]
fn remove_all_cuts_from_the_left() {
    assert_eq!(remove_all("abcabc", "bc"), "aa");
    assert_eq!(remove_all("aaa", "aa"), "a");
    assert_eq!(remove_all("aaaa", "aa"), "");
    assert_eq!(remove_all("ababa", "aba"), "ba");
    assert_eq!(remove_all("abc", "abc"), "");
    assert_eq!(remove_all("abc", "abcd"), "abc");
    assert_eq!(remove_all("abc", "x"), "abc");
    assert_eq!(remove_all("abc", ""), "abc");
    assert_eq!(remove_all("", "x"), "");
    assert_eq!(remove_all("", ""), "");
    assert_eq!(remove_all("xax", "x"), "a");
    assert_eq!(remove_all("é☃é☃é", "☃"), "ééé");
    assert_eq!(remove_all("a https://t.co/b https://t.co", "https://t.co"), "a /b ");
    assert_eq!(remove_all("abab", "ab"), "");
    assert_eq!(remove_all("aabb", "ab"), "ab");
}

#[test]
fn remove_all_agrees_with_replace() {
    let texts = ["", "a", "aa", "aba", "abab", "aabbaabb", "xyz", "ababab", "bbbb", "a b a b"];
    let patterns = ["a", "b", "ab", "ba", "aa", "bb", "abab", " ", "xyz"];
    for t in texts {
        for p in patterns {
            assert_eq!(remove_all(t, p), t.replace(p, ""));
        }
    }
}

#[test]
fn find_from_a_position() {
    let v: Vec<char> = "a b  c".chars().collect();
    assert_eq!(find_from(&v, ' ', 0), 1);
    assert_eq!(find_from(&v, ' ', 1), 1);
    assert_eq!(find_from(&v, ' ', 2), 3);
    assert_eq!(find_from(&v, ' ', 5), 6);
    assert_eq!(find_from(&v, ' ', 6), 6);
    assert_eq!(find_from(&v, 'z', 0), 6);
    assert_eq!(find_from(&Vec::new(), 'z', 0), 0);
}

#[test]
fn split_at_each_separator() {
    assert_eq!(tx_pieces("", ' '), vec![""]);
    assert_eq!(tx_pieces("a", ' '), vec!["a"]);
    assert_eq!(tx_pieces("a b", ' '), vec!["a", "b"]);
    assert_eq!(tx_pieces("a  b", ' '), vec!["a", "", "b"]);
    assert_eq!(tx_pieces(" a ", ' '), vec!["", "a", ""]);
    assert_eq!(tx_pieces(" ", ' '), vec!["", ""]);
    assert_eq!(tx_pieces("/x@y@z", '@'), vec!["/x", "y", "z"]);
    for s in ["", " ", "a b c", "  ", "ab  cd ", "é ☃"] {
        let want: Vec<String> = s.split(' ').map(|p| p.to_string()).collect();
        assert_eq!(tx_pieces(s, ' '), want);
    }
}

#[test]
fn read_integers_from_a_range() {
    let v: Vec<char> = "x-12y+3z".chars().collect();
    assert_eq!(read_i64(&v, 1, 4), Some(-12));
    assert_eq!(read_i64(&v, 2, 4), Some(12));
    assert_eq!(read_i64(&v, 5, 7), Some(3));
    assert_eq!(read_i64(&v, 6, 7), Some(3));
    assert_eq!(read_i64(&v, 0, 4), None);
    assert_eq!(read_i64(&v, 1, 5), None);
    assert_eq!(read_i64(&v, 1, 2), None);
    assert_eq!(read_i64(&v, 3, 3), None);
    assert_eq!(read_i32(&v, 1, 4), Some(-12));
    assert_eq!(read_i32(&v, 0, 1), None);
    for s in ["0", "-0", "+5", "2147483647", "2147483648", "-2147483648", "-2147483649", "", "a"] {
        let w: Vec<char> = s.chars().collect();
        assert_eq!(read_i64(&w, 0, w.len()), s.parse::<i64>().ok());
        assert_eq!(read_i32(&w, 0, w.len()), s.parse::<i32>().ok());
    }
}
