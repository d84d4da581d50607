use file_finder::exclusion::{exclusion_texts, ExclusionError, ExclusionSet};

#[test]
fn splits_and_drops_empty_items() {
    assert_eq!(exclusion_texts("a,,b,"), vec!["a".to_string(), "b".to_string()]);
    assert_eq!(exclusion_texts(""), Vec::<String>::new());
    assert_eq!(exclusion_texts(",,,"), Vec::<String>::new());
    assert_eq!(exclusion_texts("target"), vec!["target".to_string()]);
}

#[test]
fn empty_set_excludes_nothing() {
    assert!(!ExclusionSet::empty().excludes("root/b"));
    assert!(!ExclusionSet::parse("").unwrap().excludes("root/b"));
}

#[test]
fn any_rule_excludes() {
    let set = ExclusionSet::parse("target,\\.git$").unwrap();
    assert!(set.excludes("root/target"));
    assert!(set.excludes("root/x/.git"));
    assert!(!set.excludes("root/src"));
    assert!(!set.excludes("root/.github"));
}

#[test]
fn invalid_rule_is_reported() {
    let r = ExclusionSet::parse("ok,(unclosed");
    assert_eq!(r.err(), Some(ExclusionError { rule: "(unclosed".to_string() }));
}

#[test]
fn first_refused_rule_is_named() {
    let r = ExclusionSet::parse("ok,(bad,,[worse");
    assert_eq!(r.err(), Some(ExclusionError { rule: "(bad".to_string() }));
}

#[test]
fn all_valid_rules_parse() {
    assert!(ExclusionSet::parse("a,b+,c$,^d").is_ok());
}
