use pathsight::text::{chars_of, dec_string, lines_of, parse_u32, split_chars, trim_chars, words_of};

fn strs(v: Vec<Vec<char>>) -> Vec<String> {
    v.into_iter().map(|w| w.into_iter().collect()).collect()
}

#[test]
fn words_like_split_whitespace() {
    let s = chars_of("  a\tb \u{a0}c\u{3000}d  ");
    assert_eq!(strs(words_of(&s)), vec!["a", "b", "c", "d"]);
    assert!(words_of(&chars_of("   ")).is_empty());
}

#[test]
fn lines_like_str_lines() {
    for t in ["", "\n", "a\nb", "a\nb\n", "a\r\nb\r\n", "a\rb", "x\r", "\n\n", "a\n\nb"] {
        let got = strs(lines_of(&chars_of(t)));
        let want: Vec<String> = t.lines().map(|l| l.to_string()).collect();
        assert_eq!(got, want, "lines of {:?}", t);
    }
}

#[test]
fn split_like_str_split() {
    for t in ["", ",", "a,b", "a,,b,", ",a"] {
        let got = strs(split_chars(&chars_of(t), ','));
        let want: Vec<String> = t.split(',').map(|l| l.to_string()).collect();
        assert_eq!(got, want, "split of {:?}", t);
    }
}

#[test]
fn trim_like_str_trim() {
    for t in ["", "  ", " a b ", "\u{2003}x\u{85}", "x"] {
        let got: String = trim_chars(&chars_of(t)).into_iter().collect();
        assert_eq!(got, t.trim());
    }
}

#[test]
fn parse_u32_like_std() {
    for t in ["0", "+5", "007", "4294967295", "4294967296", "", "+", "-1", "1a", " 1", "99999999999"] {
        assert_eq!(parse_u32(&chars_of(t)), t.parse::<u32>().ok(), "parse of {:?}", t);
    }
}

#[test]
fn dec_like_display() {
    for n in [0u64, 7, 10, 99, 100, 4294967295, u64::MAX] {
        assert_eq!(dec_string(n), n.to_string());
    }
}
