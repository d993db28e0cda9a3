use rustfox::lines::{join_from, lines_of};
use rustfox::string_map::StringMap;
use rustfox::text::{contains_str, decimal_string, eq_ci, replace_char_vec, str_eq, trim_str};

#[test]
fn trimming_and_comparisons() {
    assert_eq!(trim_str("  a b \t\n"), "a b");
    assert_eq!(trim_str("   "), "");
    assert_eq!(trim_str("\u{3000}中\u{3000}"), "中");
    assert!(eq_ci("Content-Type", "content-TYPE"));
    assert!(!eq_ci("Content-Type", "content-typ"));
    assert!(str_eq("x", "x"));
    assert!(!str_eq("x", "X"));
    assert!(contains_str("name or service not known", "service"));
    assert!(contains_str("abc", ""));
    assert!(!contains_str("ab", "abc"));
}

#[test]
fn numbers_and_replacements() {
    assert_eq!(decimal_string(0), "0");
    assert_eq!(decimal_string(18446744073709551615), "18446744073709551615");
    let v: Vec<char> = "a/b/c".chars().collect();
    let r: String = replace_char_vec(&v, '/', '_').into_iter().collect();
    assert_eq!(r, "a_b_c");
}

#[test]
fn lines_split_and_join() {
    let v: Vec<char> = "a\r\nb\n\nc\n".chars().collect();
    let ls = lines_of(&v);
    let got: Vec<String> = ls.iter().map(|l| l.iter().collect()).collect();
    assert_eq!(got, vec!["a", "b", "", "c"]);
    assert_eq!(join_from(&ls, 1), "b\n\nc");
    assert_eq!(join_from(&ls, 4), "");
    assert!(lines_of(&Vec::new()).is_empty());
}

#[test]
fn string_map_insert_get_remove() {
    let mut m = StringMap::new();
    m.insert("a".into(), "1".into());
    m.insert("b".into(), "2".into());
    m.insert("a".into(), "3".into());
    assert_eq!(m.len(), 2);
    assert_eq!(m.get("a").as_deref(), Some("3"));
    assert!(m.contains_key("b"));
    m.remove("a");
    assert!(!m.contains_key("a"));
    assert_eq!(m.len(), 1);
    let copy = m.copy();
    assert_eq!(copy.get("b").as_deref(), Some("2"));
    let pairs = vec![("k".to_string(), "1".to_string()), ("k".to_string(), "2".to_string())];
    let from = StringMap::from_pairs(&pairs);
    assert_eq!(from.len(), 1);
    assert_eq!(from.get("k").as_deref(), Some("2"));
    assert_eq!(from.pairs().len(), 1);
}
