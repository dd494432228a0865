use wat::text::{choose_face_for_char, FaceChoice};
use wat::text::{collect_fallbacks, face_candidates, fallback_names, resolve_face};
use wat::text::{collapse_whitespace, generic_candidates, segment_words, GlyphBitmap};

#[test]
fn word_segmentation() {
    assert_eq!(
        segment_words("hello world"),
        vec![("hello", false), (" ", true), ("world", false)]
    );
    assert_eq!(
        segment_words("a  b"),
        vec![("a", false), ("  ", true), ("b", false)]
    );
    assert_eq!(
        segment_words("a\nb"),
        vec![("a", false), ("\n", true), ("b", false)]
    );
    assert_eq!(segment_words(""), Vec::<(&str, bool)>::new());
    assert_eq!(segment_words(" "), vec![(" ", true)]);
}

#[test]
fn newlines_split_from_surrounding_spaces() {
    let segments = segment_words("a \n b");
    assert!(segments.contains(&("\n", true)));
    assert_eq!(segments.first(), Some(&("a", false)));
    assert_eq!(segments.last(), Some(&("b", false)));
}

#[test]
fn whitespace_collapsing() {
    assert_eq!(collapse_whitespace("a   b"), "a b");
    assert_eq!(collapse_whitespace("a\n\tb"), "a b");
    assert_eq!(collapse_whitespace(""), "");
    // Edge whitespace collapses but survives; trimming is layout's call.
    assert_eq!(collapse_whitespace("  leading"), " leading");
    assert_eq!(collapse_whitespace("trailing  "), "trailing ");
}

#[test]
fn consecutive_newlines_are_separate_segments() {
    assert_eq!(
        segment_words("a\n\nb"),
        vec![("a", false), ("\n", true), ("\n", true), ("b", false)]
    );
    assert_eq!(
        segment_words("a \n b"),
        vec![("a", false), (" ", true), ("\n", true), (" ", true), ("b", false)]
    );
}

#[test]
fn unicode_white_space_counts() {
    assert_eq!(
        segment_words("x\u{a0}y"),
        vec![("x", false), ("\u{a0}", true), ("y", false)]
    );
    assert_eq!(collapse_whitespace("é\u{2003}\u{3000}ü"), "é ü");
}

#[test]
fn collapsing_twice_is_collapsing_once() {
    for text in ["a   b", " \t x \n", "", "   "] {
        let once = collapse_whitespace(text);
        assert_eq!(collapse_whitespace(&once), once);
    }
}

#[test]
fn generic_families_map_to_candidates() {
    let sans = generic_candidates("Sans-Serif").expect("generic");
    assert_eq!(sans[0], "Inter");
    assert_eq!(sans.len(), 10);
    assert_eq!(generic_candidates("monospace").expect("generic")[0], "SF Mono");
    assert_eq!(generic_candidates("serif").expect("generic").len(), 6);
    assert_eq!(generic_candidates("fantasy"), generic_candidates("sans-serif"));
    assert!(generic_candidates("Helvetica").is_none());
}

#[test]
fn empty_glyphs_have_no_area() {
    assert!(GlyphBitmap::empty().is_empty());
    let glyph = GlyphBitmap { width: 2, height: 1, left: 0, top: -3, coverage: vec![0, 255] };
    assert!(!glyph.is_empty());
}

#[test]
fn a_request_tries_its_families_then_sans_serif() {
    let families = vec!["Fira Code".to_string(), "monospace".to_string()];
    let names = face_candidates(&families);
    assert_eq!(names[0], "Fira Code");
    assert_eq!(names[1], "SF Mono");
    assert_eq!(names[8], "FreeMono");
    assert_eq!(names[9], "Inter");
    assert_eq!(names.len(), 1 + 8 + 10);
    assert_eq!(face_candidates(&Vec::new()).len(), 10);
}

#[test]
fn the_first_face_found_wins_else_the_first_fallback() {
    assert_eq!(resolve_face(&vec![None, Some(7), Some(3)], &vec![1]), Some(7));
    assert_eq!(resolve_face(&vec![None, None], &vec![4, 5]), Some(4));
    assert_eq!(resolve_face(&vec![], &vec![]), None);
}

#[test]
fn fallbacks_are_collected_once_each() {
    let names = fallback_names();
    assert_eq!(names.len(), 10 + 6 + 8);
    assert_eq!(names[10], "Georgia");
    assert_eq!(collect_fallbacks(&vec![Some(2), None, Some(2), Some(5)], Some(9)), vec![2, 5, 9]);
    assert_eq!(collect_fallbacks(&vec![Some(2), Some(5)], Some(5)), vec![2, 5]);
    assert_eq!(collect_fallbacks(&vec![None], None), Vec::<u64>::new());
}

#[test]
fn the_primary_face_draws_what_it_can_and_fallbacks_cover_the_rest() {
    assert_eq!(choose_face_for_char('a', Some(true), &vec![true]), Some(FaceChoice::Primary));
    assert_eq!(choose_face_for_char('猫', Some(false), &vec![false, true]), Some(FaceChoice::Fallback(1)));
    assert_eq!(choose_face_for_char(' ', Some(false), &vec![true]), Some(FaceChoice::Primary));
    assert_eq!(choose_face_for_char('\0', Some(false), &vec![true]), Some(FaceChoice::Primary));
    assert_eq!(choose_face_for_char('猫', Some(false), &vec![false]), Some(FaceChoice::Primary));
    assert_eq!(choose_face_for_char('猫', None, &vec![false, true]), Some(FaceChoice::Fallback(1)));
    assert_eq!(choose_face_for_char('猫', None, &vec![]), None);
}

#[test]
fn each_whitespace_run_becomes_one_space() {
    assert_eq!(collapse_whitespace("x \t\n y\u{3000}\u{3000}z "), "x y z ");
    assert_eq!(collapse_whitespace("nowhitespace"), "nowhitespace");
}
