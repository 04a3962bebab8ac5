use line_backup_native::order::{sort_keyed, sort_strings, text_less};
use line_backup_native::text::{join_on, split_on, to_lower_ascii, trimmed};

fn chars(v: &str) -> Vec<char> {
    v.chars().collect()
}

#[test]
fn texts_order_by_code_point_with_prefixes_first() {
    assert!(text_less(&chars("Line"), &chars("Linea")));
    assert!(text_less(&chars("Z"), &chars("a")));
    assert!(!text_less(&chars("a"), &chars("a")));
    assert!(text_less(&chars("é"), &chars("字")));
    let sorted = sort_strings(&vec!["b".to_string(), "B".to_string(), "a".to_string(), "b".to_string()]);
    assert_eq!(sorted, vec!["B".to_string(), "a".to_string(), "b".to_string(), "b".to_string()]);
    let keyed = sort_keyed(vec![("y".to_string(), 1), ("x".to_string(), 2)]);
    assert_eq!(keyed, vec![("x".to_string(), 2), ("y".to_string(), 1)]);
}

#[test]
fn split_join_trim_and_lowercase() {
    let parts = split_on(&chars("a//b"), '/');
    assert_eq!(parts, vec![chars("a"), chars(""), chars("b")]);
    assert_eq!(join_on(&parts, '/'), chars("a//b"));
    assert_eq!(trimmed(&chars("\u{3000} x y \n")), chars("x y"));
    assert_eq!(to_lower_ascii(&chars("ÄBc")), chars("Äbc"));
}
