use readf::{readf, readf1, try_readf, AmbiguousTemplate};

fn owned(v: &[&str]) -> Vec<String> {
    v.iter().map(|s| s.to_string()).collect()
}

#[test]
fn t_readf1() {
    assert_eq!(readf1("hello, {}", "hello, person"), Some("person".into()));
    assert_eq!(readf1("hello, {}!", "hello, person!"), Some("person".into()));
    assert_eq!(readf1("Hello, {}", "hello, person"), None);
    assert_eq!(readf1("Hello, {}!", "hello, person"), None);
    assert_eq!(readf1("hello!", "hello!"), Some("".into()));
    assert_eq!(readf1("Hello!", "hello!"), None);
    assert_eq!(readf1("{}", "person"), Some("person".into()));
}

#[test]
fn t_readf() {
    assert_eq!(readf("hello, {} and {}", "hello, person 1 and person 2"), Some(vec!["person 1".into(), "person 2".into()]));
    assert_eq!(readf("hello, {} and {}!", "hello, person 1 and person 2!"), Some(vec!["person 1".into(), "person 2".into()]));
    assert_eq!(readf("hello, {} and {}", "hello, person"), None);
    assert_eq!(readf("hello, {} and {}!", "hello, person!"), None);
    assert_eq!(readf("Hello, {} and {}", "hello, person 1 and person 2"), None);
    assert_eq!(readf("Hello, {} and {}!", "hello, person 1 and person 2!"), None);
    assert_eq!(readf("hello!", "hello!"), Some(vec![]));
    assert_eq!(readf("Hello!", "hello!"), None);
    assert_eq!(readf("{}, {}", "person 1, person 2"), Some(vec!["person 1".into(), "person 2".into()]));
}

#[test]
fn single_placeholder_in_sentence() {
    assert_eq!(readf("Hello, {}!", "Hello, world!"), Some(owned(&["world"])));
}

#[test]
fn second_capture_runs_to_final_segment() {
    assert_eq!(
        readf("I hope {} are {}!", "I hope you are doing well!"),
        Some(owned(&["you", "doing well"]))
    );
}

#[test]
fn different_literal_text_fails() {
    assert_eq!(readf("Goodbye, {}!", "Hello, world!"), None);
}

#[test]
fn first_capture_of_template_without_placeholder_is_empty() {
    assert_eq!(readf1("hello!", "hello!"), Some(String::new()));
}

#[test]
fn leading_placeholder() {
    assert_eq!(readf("{}, {}", "person 1, person 2"), Some(owned(&["person 1", "person 2"])));
}

#[test]
fn template_without_placeholder_needs_equality() {
    assert_eq!(readf("abc", "abc"), Some(vec![]));
    assert_eq!(readf("abc", "abcd"), None);
    assert_eq!(readf("abc", "ab"), None);
    assert_eq!(readf("", ""), Some(vec![]));
    assert_eq!(readf("", "x"), None);
    assert_eq!(readf("{x}", "{x}"), Some(vec![]));
}

#[test]
fn capture_count_equals_placeholder_count() {
    let caps = readf("{}-{}-{}", "1-2-3").unwrap();
    assert_eq!(caps.len(), 3);
    assert_eq!(caps, owned(&["1", "2", "3"]));
}

#[test]
fn captures_rebuild_candidate() {
    let s = "<a|b|c>";
    let caps = readf("<{}|{}>", s).unwrap();
    assert_eq!(caps, owned(&["a", "b|c"]));
    assert_eq!(format!("<{}|{}>", caps[0], caps[1]), s);
}

#[test]
fn capture_stops_at_leftmost_occurrence() {
    assert_eq!(
        readf("{} and {}", "cats and dogs and birds"),
        Some(owned(&["cats", "dogs and birds"]))
    );
    assert_eq!(readf("x{}y{}z", "xayby z"), Some(owned(&["a", "by "])));
}

#[test]
fn adjacent_placeholders_are_rejected() {
    assert_eq!(try_readf("{}{}", "anything"), Err(AmbiguousTemplate));
    assert_eq!(try_readf("a{}{}b", ""), Err(AmbiguousTemplate));
    assert_eq!(try_readf("a{}{}b", "a{}{}b"), Err(AmbiguousTemplate));
}

#[test]
fn unambiguous_template_is_matched() {
    assert_eq!(try_readf("{}, {}", "person 1, person 2"), Ok(Some(owned(&["person 1", "person 2"]))));
    assert_eq!(try_readf("hello!", "hello!"), Ok(Some(vec![])));
    assert_eq!(try_readf("Goodbye, {}!", "Hello, world!"), Ok(None));
    assert_eq!(try_readf("{} {}", "a b"), Ok(Some(owned(&["a", "b"]))));
}

#[test]
fn short_candidate_fails_without_panic() {
    assert_eq!(readf("abc{}xyz", "abcxy"), None);
    assert_eq!(readf("{}xyz", "xy"), None);
    assert_eq!(readf("abc{}", "ab"), None);
    assert_eq!(readf("a{}b{}c", "a"), None);
}

#[test]
fn missing_middle_segment_fails() {
    assert_eq!(readf("{} and {}", "cats or dogs"), None);
}

#[test]
fn final_segment_must_end_candidate() {
    assert_eq!(readf("a{}b", "axbc"), None);
    assert_eq!(readf("a{}b", "axbb"), Some(owned(&["xb"])));
}

#[test]
fn empty_captures() {
    assert_eq!(readf("{}", ""), Some(owned(&[""])));
    assert_eq!(readf("a{}b", "ab"), Some(owned(&[""])));
    assert_eq!(readf("a{}b{}", "ab"), Some(owned(&["", ""])));
}

#[test]
fn multibyte_characters() {
    assert_eq!(readf("héllo {}!", "héllo wörld!"), Some(owned(&["wörld"])));
    assert_eq!(readf("{}→{}", "α→β"), Some(owned(&["α", "β"])));
    assert_eq!(readf1("é{}", "e1"), None);
}

#[test]
fn first_capture_drops_the_rest() {
    assert_eq!(readf1("{} and {}", "a and b"), Some("a".to_string()));
    assert_eq!(readf1("Goodbye, {}!", "Hello, world!"), None);
}
