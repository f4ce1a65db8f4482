use tqsm::GraphemeCursor;
use tqsm::to_title_case;
use tqsm::engine::resolve_boundaries;
use tqsm::lang::Language;
use unicode_segmentation::UnicodeSegmentation;

#[test]
fn cursor_respects_combining_marks() {
    // "e" followed by a combining acute accent forms one grapheme cluster.
    let text = "e\u{301}x";
    let c = GraphemeCursor::new(text);
    assert_eq!(c.next_grapheme(0), Some(2));
    assert_eq!(c.next_grapheme(2), None);
    assert_eq!(c.prev_grapheme(2), Some(0));
    assert_eq!(c.prev_grapheme(0), None);
}

#[test]
fn cursor_on_ascii_text() {
    let c = GraphemeCursor::new("abc");
    assert_eq!(c.next_grapheme(0), Some(1));
    assert_eq!(c.next_grapheme(1), Some(2));
    assert_eq!(c.next_grapheme(2), None);
    assert_eq!(c.prev_grapheme(1), Some(0));
}

#[test]
fn title_case_uppercases_the_first_cluster() {
    assert_eq!(to_title_case("über"), "Über");
    assert_eq!(to_title_case("januar"), "Januar");
    assert_eq!(to_title_case(""), "");
}

#[test]
fn boundaries_are_increasing_and_aligned() {
    let text = "One. Two. A\u{301} la fin. Three.";
    let bounds = resolve_boundaries(&Language::En, text);
    assert_eq!(bounds[0], 0);
    for w in bounds.windows(2) {
        assert!(w[0] < w[1]);
    }
    let mut starts = Vec::new();
    let mut off = 0usize;
    for g in text.graphemes(false) {
        starts.push(off);
        off += g.chars().count();
    }
    for b in bounds.iter().skip(1) {
        assert!(starts.contains(b), "boundary {b} is not a grapheme start");
    }
}
