use tetra_asterisk::lines::split_lines;
use tetra_asterisk::text::{ascii_lowercase, ascii_uppercase, push_decimal, trim_str};

#[test]
fn trim_matches_std() {
    for s in ["", "  ", " a b ", "\u{a0}x\u{2003}", "\r\nx\t", "\u{200b}y", "é "] {
        assert_eq!(trim_str(s), s.trim());
    }
}

#[test]
fn ascii_case_matches_std() {
    for s in ["", "Hello, World", "ÄbC-z@[`{", "PcMu"] {
        assert_eq!(ascii_lowercase(s), s.to_ascii_lowercase());
        assert_eq!(ascii_uppercase(s), s.to_ascii_uppercase());
    }
}

#[test]
fn decimal_matches_display() {
    for n in [0u64, 7, 10, 5060, 30100, u64::MAX] {
        let mut s = String::from("x=");
        push_decimal(&mut s, n);
        assert_eq!(s, format!("x={}", n));
    }
}

#[test]
fn split_lines_matches_std() {
    for s in ["", "\n", "a", "a\n", "a\r\n", "a\r", "a\n\nb", "\r\n\r\n", "x\r\ry\n", "a\rb\n"] {
        let v: Vec<char> = s.chars().collect();
        let got: Vec<String> = split_lines(&v).into_iter().map(|l| l.into_iter().collect()).collect();
        let want: Vec<String> = s.lines().map(|l| l.to_string()).collect();
        assert_eq!(got, want, "input {:?}", s);
    }
}
