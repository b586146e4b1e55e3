use solar_sonar::text::{parse_i32, parse_u32, split_on_char, trim_whitespace, split_whitespace, chars_of};
use solar_sonar::ansi::pad_right;
use solar_sonar::voice::{abbreviate, fortune, fortune_text, FORTUNES};
use solar_sonar::paths::expand_path;

fn s(v: &[char]) -> String {
    v.iter().collect()
}

#[test]
fn split_on_comma_keeps_empty_pieces() {
    assert_eq!(split_on_char("a,,b", ','), vec!["a".to_string(), "".to_string(), "b".to_string()]);
    assert_eq!(split_on_char("", ','), vec!["".to_string()]);
    assert_eq!(split_on_char("x,", ','), vec!["x".to_string(), "".to_string()]);
}

#[test]
fn split_then_join_gives_back_the_text() {
    for text in ["alpha,beta,gamma", ",lead", "trail,", "", "none", ",,"] {
        let pieces = split_on_char(text, ',');
        assert_eq!(pieces.join(","), text);
    }
}

#[test]
fn words_and_trimming() {
    let cs = chars_of("  UALX-3  nv \u{3000}clr ");
    let ws: Vec<String> = split_whitespace(&cs).iter().map(|w| s(w)).collect();
    assert_eq!(ws, vec!["UALX-3", "nv", "clr"]);
    assert_eq!(s(&trim_whitespace(&chars_of("\t hello \n"))), "hello");
}

#[test]
fn parses_digits() {
    assert_eq!(parse_u32(&chars_of("12345678")), Some(12345678));
    assert_eq!(parse_u32(&chars_of("4294967296")), None);
    assert_eq!(parse_u32(&chars_of("")), None);
    assert_eq!(parse_u32(&chars_of("12a")), None);
    assert_eq!(parse_i32(&chars_of("2026")), Some(2026));
}

#[test]
fn pads_to_width() {
    assert_eq!(pad_right("abc", 5), "abc  ");
    assert_eq!(pad_right("abcdef", 3), "abcdef");
    assert_eq!(pad_right("", 2), "  ");
    assert_eq!(pad_right("System", 37).chars().count(), 37);
}

#[test]
fn spells_system_names() {
    assert_eq!(abbreviate("1DQ1-A"), "1 D Q 1 Tac A.");
    assert_eq!(abbreviate(""), ".");
    assert_eq!(abbreviate("ab"), "A B.");
}

#[test]
fn fortune_is_one_of_the_list() {
    let all: Vec<&str> = (0..FORTUNES).map(fortune_text).collect();
    assert_eq!(all.len(), 4);
    assert_eq!(all[1], "All their ice are belong to us.");
    for _ in 0..8 {
        assert!(all.contains(&fortune()));
    }
}

#[test]
fn plain_paths_are_not_expanded() {
    assert_eq!(expand_path("/var/log/eve").unwrap(), "/var/log/eve");
    assert_eq!(expand_path("relative/dir").unwrap(), "relative/dir");
}
