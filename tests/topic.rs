use camserver::topic::TopicMatcher;

#[test]
fn plus_matches_exactly_one_segment() {
    let m = TopicMatcher::compile("home/cams/+/stat");
    assert!(m.matches("home/cams/frontdoor/stat"));
    assert!(m.matches("home/cams/cam_2/stat"));
    assert!(!m.matches("home/cams/frontdoor/extra/stat"));
    assert!(!m.matches("home/cams//stat"));
}

#[test]
fn plus_rejects_characters_outside_its_alphabet() {
    let m = TopicMatcher::compile("home/+/x");
    assert!(!m.matches("home/a-b/x"));
    assert!(!m.matches("home/a.b/x"));
    assert!(m.matches("home/AbZ09_/x"));
}

#[test]
fn hash_matches_the_remainder() {
    let m = TopicMatcher::compile("home/#");
    assert!(m.matches("home/a"));
    assert!(m.matches("home/a/b/c"));
    assert!(!m.matches("home"));
    assert!(m.matches("home/"));
    assert!(!m.matches("office/a"));
    assert!(!m.matches("home/a-b"));
}

#[test]
fn literal_segments_require_exact_match() {
    let m = TopicMatcher::compile("home/cams");
    assert!(m.matches("home/cams"));
    assert!(!m.matches("home/cam"));
    assert!(!m.matches("home/cams/x"));
    assert!(!m.matches("Home/cams"));
}

#[test]
fn pattern_characters_are_taken_literally() {
    let m = TopicMatcher::compile("a.b/c*");
    assert!(m.matches("a.b/c*"));
    assert!(!m.matches("axb/c"));
    assert!(!m.matches("a.b/cc"));
}

#[test]
fn plus_inside_a_segment_is_literal() {
    let m = TopicMatcher::compile("a+/b");
    assert!(m.matches("a+/b"));
    assert!(!m.matches("ax/b"));
}
