//! Language-aware sentence segmentation.
//!
//! The library splits raw text into sentences, applying per-language rules so
//! that abbreviations, quoted or parenthetical material, e-mail addresses,
//! bracketed citation markers and idiomatic exclamations do not cause
//! spurious splits. A language is chosen by its identifier, with a fallback
//! table answering for identifiers that are not registered directly.
use vstd::prelude::*;

pub mod chars;
pub mod cursor;
pub mod engine;
pub mod ext;
pub mod lang;
pub mod registry;
pub mod scan;

pub use cursor::GraphemeCursor;
pub use lang::Language;
pub use lang::to_title_case;
pub use registry::get_language;

use vstd::string::StringExecFns;
use crate::engine::segment_with;
use crate::engine::spec_assemble;
use crate::engine::spec_boundaries;
use crate::engine::spec_bounds;
use crate::engine::spec_matches_from;
use crate::engine::spec_para_sentences;
use crate::engine::spec_segment_text;
use crate::engine::spec_slices;
use crate::registry::RESOLVE_FUEL;
use crate::registry::spec_resolve;
use crate::scan::first_sep_from;
use crate::scan::spec_paragraphs;
use crate::scan::spec_trim_spaces;

verus! {

/// The failure of `segment`: the requested language identifier could not be
/// resolved, directly or through the fallback table.
#[derive(Debug)]
pub struct SegmentError {
    pub code: String,
}

impl SegmentError {
    /// A readable account of the failure, carrying the unresolved identifier.
    pub fn message(&self) -> (r: String)
        ensures
            r@ == "Language `"@ + self.code@ + "` is not supported"@,
    {
        let mut m = String::from_str("Language `");
        m.append(self.code.as_str());
        m.append("` is not supported");
        m
    }
}

/// Split `text` into sentences under the rules of the language that
/// `lang_code` resolves to; fails with the unresolved identifier when neither
/// the registry nor the fallback table answers for it.
pub fn segment(lang_code: &str, text: &str) -> (r: Result<Vec<String>, SegmentError>)
    ensures
        (spec_resolve(lang_code@, RESOLVE_FUEL as nat) matches Some(l) ==> (r matches Ok(v)
            && v.deep_view() == spec_segment_text(l, text@))),
        spec_resolve(lang_code@, RESOLVE_FUEL as nat) is None ==> (r matches Err(e) && e.code@
            == lang_code@),
{
    match get_language(lang_code) {
        Some(l) => Ok(segment_with(&l, text)),
        None => Err(SegmentError { code: String::from_str(lang_code) }),
    }
}

/// Empty text yields an empty sentence sequence, for every language.
pub proof fn lemma_segment_empty_text(l: Language)
    ensures
        spec_segment_text(l, Seq::<char>::empty()) == Seq::<Seq<char>>::empty(),
{
    let s = Seq::<char>::empty();
    assert(first_sep_from(s, 0) == 0);
    assert(spec_paragraphs(s) =~= seq![s.subrange(0, 0)]);
    let p = s.subrange(0, 0);
    assert(p =~= Seq::<char>::empty());
    assert(spec_matches_from(l, p, 0) =~= Seq::<(int, int)>::empty());
    let cls = ext::clusters_of(p);
    let off = cursor::spec_starts_u(cls);
    assert(spec_bounds(l, p, off, cls, engine::spec_skip_ranges(p), spec_matches_from(l, p, 0), 0, 0)
        =~= Seq::<int>::empty());
    assert(spec_boundaries(l, p) =~= seq![0int]);
    let bl = spec_boundaries(l, p);
    assert(spec_trim_spaces(p.subrange(0, 0)) =~= Seq::<char>::empty());
    assert(spec_slices(p, bl, 1) =~= Seq::<Seq<char>>::empty());
    assert(spec_slices(p, bl, 0) =~= Seq::<Seq<char>>::empty());
    assert(spec_para_sentences(l, p) =~= Seq::<Seq<char>>::empty());
    assert(spec_assemble(l, spec_paragraphs(s), 1, false) =~= Seq::<Seq<char>>::empty());
    assert(spec_assemble(l, spec_paragraphs(s), 0, false) =~= Seq::<Seq<char>>::empty());
}

} // verus!
