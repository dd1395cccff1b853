use raw::text::{chars_of, lines_exec, split_exec, string_of, trim_exec, words_exec};

fn texts(v: Vec<Vec<char>>) -> Vec<String> {
    v.into_iter().map(|x| x.into_iter().collect()).collect()
}

#[test]
fn lines_match_std() {
    for s in ["", "a", "a\n", "a\nb", "a\r\nb\r\n", "\n\n", "a\r", "x\ry\n"] {
        let expected: Vec<String> = s.lines().map(|l| l.to_string()).collect();
        assert_eq!(texts(lines_exec(&chars_of(s))), expected, "{:?}", s);
    }
}

#[test]
fn split_matches_std() {
    for s in ["", "a|b", "|", "a||b|"] {
        let expected: Vec<String> = s.split('|').map(|l| l.to_string()).collect();
        assert_eq!(texts(split_exec(&chars_of(s), '|')), expected, "{:?}", s);
    }
}

#[test]
fn words_and_trim_match_std() {
    for s in ["", "  a b\t c\n", "\u{a0}x\u{3000}y ", "abc"] {
        let expected: Vec<String> = s.split_whitespace().map(|l| l.to_string()).collect();
        assert_eq!(texts(words_exec(&chars_of(s))), expected, "{:?}", s);
        let t: String = trim_exec(&chars_of(s)).into_iter().collect();
        assert_eq!(t, s.trim());
    }
}

#[test]
fn strings_round_trip() {
    assert_eq!(string_of(&chars_of("héllo")), "héllo");
}
