use unrvl::text::{parse_count, split_lines, split_on, trimmed};

fn strings(pieces: Vec<Vec<u8>>) -> Vec<String> {
    pieces.into_iter().map(|p| String::from_utf8(p).unwrap()).collect()
}

#[test]
fn lines_match_str_lines() {
    for s in ["", "\n", "a", "a\n", "a\n\nb", "a\r\nb\r\n", "a\r", "x\r\r\ny", "\n\n"] {
        let expected: Vec<String> = s.lines().map(|l| l.to_string()).collect();
        assert_eq!(strings(split_lines(s.as_bytes())), expected, "{s:?}");
    }
}

#[test]
fn split_matches_str_split() {
    for s in ["", ",", "a,b", "a,,b,", "ties,4,1.5"] {
        let expected: Vec<String> = s.split(',').map(|l| l.to_string()).collect();
        assert_eq!(strings(split_on(s.as_bytes(), b',')), expected, "{s:?}");
    }
}

#[test]
fn trim_matches_str_trim() {
    for s in ["", "   ", " a ", "\t1.5\r", "x y", "\u{b}z\u{c}"] {
        assert_eq!(String::from_utf8(trimmed(s.as_bytes())).unwrap(), s.trim(), "{s:?}");
    }
}

#[test]
fn counts_match_usize_from_str() {
    for s in ["0", "42", "+7", "", "+", "-1", "1 ", "12a", "18446744073709551615", "18446744073709551616", "007"] {
        let expected = s.parse::<usize>().ok();
        assert_eq!(parse_count(s.as_bytes()), expected, "{s:?}");
    }
}
