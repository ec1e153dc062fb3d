use dfm_scanner::map::StrMap;
use dfm_scanner::text::{chars_of, lines_chars, split_chars, string_of, trim_chars};

fn lines(s: &str) -> Vec<String> {
    lines_chars(&chars_of(s)).iter().map(|l| string_of(l)).collect()
}

#[test]
fn lines_follow_str_lines() {
    for s in ["", "a", "a\n", "a\r\nb", "a\n\nb\n", "\n", "a\rb\r", "x\r\n\r\n", "a\n\r"] {
        let expected: Vec<String> = s.lines().map(|l| l.to_string()).collect();
        assert_eq!(lines(s), expected, "{:?}", s);
    }
}

#[test]
fn trim_follows_str_trim() {
    for s in ["", "  a b  ", "\t\u{3000}x\u{a0}", "\u{2028}", "no"] {
        assert_eq!(string_of(&trim_chars(&chars_of(s))), s.trim());
    }
}

#[test]
fn split_follows_str_split() {
    for s in ["", "a,b", ",", "a,,b,"] {
        let got: Vec<String> = split_chars(&chars_of(s), ',').iter().map(|p| string_of(p)).collect();
        let expected: Vec<String> = s.split(',').map(|p| p.to_string()).collect();
        assert_eq!(got, expected);
    }
}

#[test]
fn map_insert_get_extend() {
    let mut m: StrMap<i32> = StrMap::new();
    m.insert("a".to_string(), 1);
    m.insert("b".to_string(), 2);
    m.insert("a".to_string(), 3);
    assert_eq!(m.get("a"), Some(&3));
    assert_eq!(m.len(), 2);
    assert_eq!(m.keys(), vec!["a".to_string(), "b".to_string()]);
    let mut other: StrMap<i32> = StrMap::new();
    other.insert("c".to_string(), 4);
    other.insert("b".to_string(), 5);
    m.extend(other);
    assert_eq!(m.keys(), vec!["a".to_string(), "b".to_string(), "c".to_string()]);
    assert_eq!(m.get("b"), Some(&5));
    assert_eq!(m.get("c"), Some(&4));
    assert!(!m.contains_key("z"));
}
