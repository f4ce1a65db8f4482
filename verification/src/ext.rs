//! Trusted boundary to the outside crates and to the parts of std that vstd
//! leaves unspecified. Every verified statement about segmentation is relative
//! to the named results declared here.
use vstd::prelude::*;
use unicode_segmentation::UnicodeSegmentation;

verus! {

/// The grapheme-cluster decomposition of a character sequence.
pub uninterp spec fn clusters_of(s: Seq<char>) -> Seq<Seq<char>>;

/// The first word-bounded segment of a character sequence.
pub uninterp spec fn first_word_of(s: Seq<char>) -> Seq<char>;

/// The lowercase form of a character sequence.
pub uninterp spec fn lower_of(s: Seq<char>) -> Seq<char>;

/// The uppercase form of a character sequence.
pub uninterp spec fn upper_of(s: Seq<char>) -> Seq<char>;

/// Whether a character has the Unicode White_Space property.
pub uninterp spec fn white_space(c: char) -> bool;

/// The byte spans found when a regex pattern is run over a text.
pub uninterp spec fn regex_spans(pat: Seq<char>, text: Seq<char>) -> Seq<(usize, usize)>;

/// Whether a regex pattern matches somewhere in a text.
pub uninterp spec fn regex_found(pat: Seq<char>, text: Seq<char>) -> bool;

/// The byte spans found when a backtracking regex pattern is run over a text.
pub uninterp spec fn fancy_spans(pat: Seq<char>, text: Seq<char>) -> Seq<(usize, usize)>;

/// Relies on unicode_segmentation's `str::graphemes`: the grapheme clusters
/// partition the string, in order, into nonempty pieces.
#[verifier::external_body]
pub(crate) fn grapheme_clusters(text: &str) -> (r: Vec<String>)
    ensures
        r.deep_view() == clusters_of(text@),
        r.deep_view().flatten() == text@,
        forall|i: int| 0 <= i < r.deep_view().len() ==> (#[trigger] r.deep_view()[i]).len() > 0,
{
    text.graphemes(false).map(|g| g.to_string()).collect()
}

/// Relies on unicode_segmentation's `str::split_word_bounds`: the first
/// word-bounded segment is a nonempty prefix of the text, present exactly when
/// the text is nonempty.
#[verifier::external_body]
pub(crate) fn first_word_segment(text: &str) -> (r: Option<String>)
    ensures
        (r is None) == (text@.len() == 0),
        r matches Some(w) ==> w@ == first_word_of(text@),
        r matches Some(w) ==> 0 < w@.len() <= text@.len(),
        r matches Some(w) ==> w@ == text@.take(w@.len() as int),
{
    text.split_word_bounds().next().map(|w| w.to_string())
}

/// Relies on `str::to_lowercase`: the result depends on the characters alone,
/// and an empty string stays empty.
#[verifier::external_body]
pub(crate) fn lower_str(text: &str) -> (r: String)
    ensures
        r@ == lower_of(text@),
        text@.len() == 0 ==> r@.len() == 0,
{
    text.to_lowercase()
}

/// Relies on `str::to_uppercase`: the result depends on the characters alone,
/// and an empty string stays empty.
#[verifier::external_body]
pub(crate) fn upper_str(text: &str) -> (r: String)
    ensures
        r@ == upper_of(text@),
        text@.len() == 0 ==> r@.len() == 0,
{
    text.to_uppercase()
}

/// Relies on `char::is_whitespace`: true exactly for characters with the
/// Unicode White_Space property; space, tab and newline have it.
pub assume_specification[ char::is_whitespace ](c: char) -> (r: bool)
    ensures
        r == white_space(c),
        c == ' ' ==> r,
        c == '\t' ==> r,
        c == '\n' ==> r,
;

/// Relies on regex's `Regex::new` and `Regex::find_iter`: the successive
/// non-overlapping match spans, as byte offsets into the text; an invalid
/// pattern yields no spans.
#[verifier::external_body]
pub(crate) fn regex_find_spans(pat: &str, text: &str) -> (r: Vec<(usize, usize)>)
    ensures
        r@ == regex_spans(pat@, text@),
{
    match regex::Regex::new(pat) {
        Ok(re) => re.find_iter(text).map(|m| (m.start(), m.end())).collect(),
        Err(_) => Vec::new(),
    }
}

/// Relies on regex's `Regex::new` and `Regex::is_match`: whether the pattern
/// matches anywhere in the text; an invalid pattern matches nothing.
#[verifier::external_body]
pub(crate) fn regex_is_match(pat: &str, text: &str) -> (r: bool)
    ensures
        r == regex_found(pat@, text@),
{
    match regex::Regex::new(pat) {
        Ok(re) => re.is_match(text),
        Err(_) => false,
    }
}

/// Relies on fancy_regex's `Regex::new` and `Regex::find_iter`: the successive
/// non-overlapping match spans, as byte offsets into the text; an invalid
/// pattern, or a match attempt that errors, yields no further spans.
#[verifier::external_body]
pub(crate) fn fancy_find_spans(pat: &str, text: &str) -> (r: Vec<(usize, usize)>)
    ensures
        r@ == fancy_spans(pat@, text@),
{
    match fancy_regex::Regex::new(pat) {
        Ok(re) => re.find_iter(text).flatten().map(|m| (m.start(), m.end())).collect(),
        Err(_) => Vec::new(),
    }
}

} // verus!
