use wf_recorder::text::{chars_of, decimal_chars, parse_i32_in, split_lines, split_words, trim_bounds};

fn parse(s: &str) -> Option<i32> {
    let v = chars_of(s);
    parse_i32_in(&v, 0, v.len())
}

fn words(s: &str) -> Vec<String> {
    let v = chars_of(s);
    split_words(&v, 0, v.len()).into_iter().map(|w| w.into_iter().collect()).collect()
}

#[test]
fn integers_parse_as_std_does() {
    for s in ["0", "42", "-17", "+8", "2147483647", "-2147483648", "007", "", "+", "-", "1 ", " 1", "2147483648", "-2147483649", "1_000", "--1", "+-1", "99999999999999999999"] {
        assert_eq!(parse(s), s.parse::<i32>().ok(), "parsing {s:?}");
    }
}

#[test]
fn decimal_numerals() {
    for n in [0u64, 7, 10, 99, 100, 4294967295, u64::MAX] {
        let s: String = decimal_chars(n).into_iter().collect();
        assert_eq!(s, n.to_string());
    }
}

#[test]
fn words_split_as_split_whitespace() {
    for s in ["", "   ", "a", " a  b\tc\n", "Dell Inc.\u{a0}U2720Q", "x\u{3000}y"] {
        let expected: Vec<String> = s.split_whitespace().map(str::to_string).collect();
        assert_eq!(words(s), expected, "splitting {s:?}");
    }
}

#[test]
fn trimming_as_trim() {
    for s in ["", "  ", " a ", "\u{2028}b c\u{205f}", "x"] {
        let v = chars_of(s);
        let (a, b) = trim_bounds(&v, 0, v.len());
        let t: String = v[a..b].iter().collect();
        assert_eq!(t, s.trim());
    }
}

#[test]
fn lines_as_str_lines() {
    for s in ["", "a", "a\n", "\n", "a\r\nb", "a\n\nb\n", "a\r", "x\ry\n"] {
        let got: Vec<String> = split_lines(s).into_iter().map(|l| l.into_iter().collect()).collect();
        let expected: Vec<String> = s.lines().map(str::to_string).collect();
        assert_eq!(got, expected, "lines of {s:?}");
    }
}

#[test]
fn decimal_numerals_read_back() {
    for n in [0u64, 5, 10, 2024, 2147483647] {
        let v = decimal_chars(n);
        assert_eq!(parse_i32_in(&v, 0, v.len()), Some(n as i32));
    }
}
