#[test]
fn test_exact_match() {
    assert!(anycms_event::topic::matches("user.created", "user.created"));
    assert!(!anycms_event::topic::matches("user.created", "user.deleted"));
}

#[test]
fn test_single_wildcard() {
    assert!(anycms_event::topic::matches("user.*", "user.created"));
    assert!(anycms_event::topic::matches("user.*", "user.deleted"));
    assert!(!anycms_event::topic::matches("user.*", "user.foo.bar"));
    assert!(anycms_event::topic::matches("*.created", "user.created"));
    assert!(!anycms_event::topic::matches("*.created", "user.deleted"));
}

#[test]
fn test_double_wildcard() {
    assert!(anycms_event::topic::matches("user.**", "user.created"));
    assert!(anycms_event::topic::matches("user.**", "user.foo.bar"));
    assert!(anycms_event::topic::matches("**", "anything.at.all"));
    assert!(anycms_event::topic::matches("*.**", "user.foo.bar"));
    assert!(anycms_event::topic::matches("user.**", "user"));
}

#[test]
fn test_empty_patterns() {
    assert!(anycms_event::topic::matches("", ""));
    assert!(!anycms_event::topic::matches("", "something"));
    assert!(!anycms_event::topic::matches("something", ""));
}

#[test]
fn test_multiple_wildcards() {
    assert!(anycms_event::topic::matches("*.created.*", "user.created.today"));
    assert!(!anycms_event::topic::matches("*.created.*", "user.created"));
    assert!(anycms_event::topic::matches("*.*.*", "a.b.c"));
    assert!(!anycms_event::topic::matches("*.*.*", "a.b"));
}

#[test]
fn every_name_matches_itself() {
    for name in ["a", "user.created", "a.b.c.d", "", "x..y"] {
        assert!(anycms_event::topic::matches(name, name));
    }
}

#[test]
fn double_star_matches_everything() {
    for name in ["a", "user.created", "a.b.c.d", "", "x..y"] {
        assert!(anycms_event::topic::matches("**", name));
    }
}

#[test]
fn single_stars_keep_the_segment_count() {
    assert!(anycms_event::topic::matches("*.*", "a.b"));
    assert!(!anycms_event::topic::matches("*.*", "a"));
    assert!(!anycms_event::topic::matches("*.*", "a.b.c"));
}

#[test]
fn double_star_in_the_middle() {
    assert!(anycms_event::topic::matches("a.**.z", "a.z"));
    assert!(anycms_event::topic::matches("a.**.z", "a.b.c.z"));
    assert!(!anycms_event::topic::matches("a.**.z", "a.b.c"));
}

#[test]
fn split_segments_splits_on_dots() {
    let parts = anycms_event::topic::split_segments("a.bc..d");
    let expected: Vec<Vec<char>> = vec![vec!['a'], vec!['b', 'c'], vec![], vec!['d']];
    assert_eq!(parts, expected);
}

#[test]
fn double_star_suffix_matches_the_prefix_and_below() {
    assert!(anycms_event::topic::matches("user.*", "user.created"));
    assert!(anycms_event::topic::matches("user.*.**", "user.created"));
    assert!(anycms_event::topic::matches("user.*.**", "user.created.v2.extra"));
    assert!(!anycms_event::topic::matches("user.*.**", "order.created"));
    assert!(anycms_event::topic::matches("user.**", "user"));
}
