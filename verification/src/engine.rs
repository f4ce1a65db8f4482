//! The boundary-resolution engine: terminator scanning, candidate
//! disambiguation, skip-range suppression, boundary alignment, and sentence
//! slicing.
use vstd::prelude::*;
use vstd::string::StrSliceExecFns;
use vstd::string::StringExecFns;
use crate::chars::byte_at;
use crate::chars::byte_starts;
use crate::cursor::GraphemeCursor;
use crate::cursor::lemma_spec_next_member;
use crate::cursor::lemma_spec_next_none;
use crate::cursor::off_contains;
use crate::cursor::offsets_wf;
use crate::cursor::spec_next;
use crate::cursor::spec_starts_u;
use crate::ext::clusters_of;
use crate::ext::fancy_find_spans;
use crate::ext::fancy_spans;
use crate::ext::grapheme_clusters;
use crate::ext::regex_find_spans;
use crate::ext::regex_spans;
use crate::lang::Language;
use crate::lang::is_abbreviation;
use crate::lang::is_exclamation_word;
use crate::lang::is_punctuation_between_quotes;
use crate::lang::is_terminator;
use crate::lang::continue_in_next_word;
use crate::lang::spec_cnw;
use crate::lang::spec_is_abbreviation;
use crate::lang::spec_is_exclamation_word;
use crate::lang::spec_is_terminator;
use crate::lang::spec_punct_between_quotes;
use crate::scan::numref_len;
use crate::scan::spec_numref_len;
use crate::scan::spec_paragraphs;
use crate::scan::spec_trim_spaces;
use crate::scan::split_paragraphs;
use crate::scan::trim_spaces;

verus! {

/// The quoted-span pattern: each configured opening glyph matched
/// non-greedily to its closing glyph, newlines allowed inside.
pub open spec fn quote_pattern() -> Seq<char> {
    "\"(\\n|.)*?\"|'(\\n|.)*?'|“(\\n|.)*?”|‘(\\n|.)*?’|«(\\n|.)*?»|‹(\\n|.)*?›|„(\\n|.)*?“|「(\\n|.)*?」|『(\\n|.)*?』|《(\\n|.)*?》|〈(\\n|.)*?〉"@
}

fn quote_pattern_str() -> (r: &'static str)
    ensures
        r@ == quote_pattern(),
{
    "\"(\\n|.)*?\"|'(\\n|.)*?'|“(\\n|.)*?”|‘(\\n|.)*?’|«(\\n|.)*?»|‹(\\n|.)*?›|„(\\n|.)*?“|「(\\n|.)*?」|『(\\n|.)*?』|《(\\n|.)*?》|〈(\\n|.)*?〉"
}

/// The e-mail address pattern, with a 2–7 character top-level segment.
pub open spec fn email_pattern() -> Seq<char> {
    "[A-Za-z0-9._%+-]+@[A-Za-z0-9.-]+\\.[A-Z|a-z]{2,7}"@
}

fn email_pattern_str() -> (r: &'static str)
    ensures
        r@ == email_pattern(),
{
    "[A-Za-z0-9._%+-]+@[A-Za-z0-9.-]+\\.[A-Z|a-z]{2,7}"
}

/// The parenthetical pattern: a bracket of one of several families matched
/// non-greedily to a closer, with a backslash-escaped opener treated as an
/// ordinary character.
pub open spec fn paren_pattern() -> Seq<char> {
    "([\\(（<{\\[])(?:\\\\\\1|.)*?[\\)\\]}）]"@
}

fn paren_pattern_str() -> (r: &'static str)
    ensures
        r@ == paren_pattern(),
{
    "([\\(（<{\\[])(?:\\\\\\1|.)*?[\\)\\]}）]"
}

/// The skip ranges of a paragraph, as byte spans: quoted spans, e-mail
/// addresses and parenthetical spans, in that order, unmerged.
pub open spec fn spec_skip_ranges(s: Seq<char>) -> Seq<(usize, usize)> {
    regex_spans(quote_pattern(), s) + regex_spans(email_pattern(), s) + fancy_spans(
        paren_pattern(),
        s,
    )
}

pub fn get_skippable_ranges(text: &str) -> (r: Vec<(usize, usize)>)
    ensures
        r@ == spec_skip_ranges(text@),
{
    let mut r = regex_find_spans(quote_pattern_str(), text);
    let mut e = regex_find_spans(email_pattern_str(), text);
    let mut p = fancy_find_spans(paren_pattern_str(), text);
    r.append(&mut e);
    r.append(&mut p);
    proof {
        assert(r@ =~= spec_skip_ranges(text@));
    }
    r
}

/// The end of the run of terminator characters of `l` that starts at `i`.
pub open spec fn term_run_end(l: Language, s: Seq<char>, i: int) -> int
    decreases s.len() - i when 0 <= i <= s.len()
{
    if i >= s.len() || !spec_is_terminator(l, s[i]) {
        i
    } else {
        term_run_end(l, s, i + 1)
    }
}

proof fn lemma_term_run_bounds(l: Language, s: Seq<char>, i: int)
    requires
        0 <= i <= s.len(),
    ensures
        i <= term_run_end(l, s, i) <= s.len(),
    decreases s.len() - i,
{
    if !(i >= s.len() || !spec_is_terminator(l, s[i])) {
        lemma_term_run_bounds(l, s, i + 1);
    }
}

proof fn lemma_term_run_at(l: Language, s: Seq<char>, i: int, j: int)
    requires
        0 <= i <= j <= s.len(),
        forall|k: int| i <= k < j ==> spec_is_terminator(l, s[k]),
        j < s.len() ==> !spec_is_terminator(l, s[j]),
    ensures
        term_run_end(l, s, i) == j,
    decreases j - i,
{
    if i < j {
        lemma_term_run_at(l, s, i + 1, j);
    }
}

/// The non-overlapping maximal terminator runs of `s` from position `i` on,
/// in scan order.
pub open spec fn spec_matches_from(l: Language, s: Seq<char>, i: int) -> Seq<(int, int)>
    decreases s.len() - i when 0 <= i <= s.len() via spec_matches_from_decreases
{
    if i >= s.len() {
        Seq::empty()
    } else if !spec_is_terminator(l, s[i]) {
        spec_matches_from(l, s, i + 1)
    } else {
        let e = term_run_end(l, s, i + 1);
        seq![(i, e)] + spec_matches_from(l, s, e)
    }
}

#[via_fn]
proof fn spec_matches_from_decreases(l: Language, s: Seq<char>, i: int) {
    if 0 <= i && i < s.len() {
        lemma_term_run_bounds(l, s, i + 1);
    }
}

/// A span list of machine integers, read as mathematical pairs.
pub open spec fn spans_int(v: Seq<(usize, usize)>) -> Seq<(int, int)> {
    v.map_values(|p: (usize, usize)| (p.0 as int, p.1 as int))
}

/// An optional offset, read as a mathematical integer.
pub open spec fn opt_int(o: Option<usize>) -> Option<int> {
    match o {
        Some(x) => Some(x as int),
        None => None,
    }
}

pub fn find_matches(l: &Language, text: &str) -> (r: Vec<(usize, usize)>)
    ensures
        spans_int(r@) == spec_matches_from(*l, text@, 0),
        forall|k: int| 0 <= k < r@.len() ==> (#[trigger] r@[k]).0 < r@[k].1 <= text@.len(),
{
    let n = text.unicode_len();
    let mut r: Vec<(usize, usize)> = Vec::new();
    let mut i: usize = 0;
    proof {
        assert(spans_int(r@) =~= Seq::<(int, int)>::empty());
    }
    loop
        invariant
            0 <= i <= n,
            n == text@.len(),
            spec_matches_from(*l, text@, 0) == spans_int(r@) + spec_matches_from(
                *l,
                text@,
                i as int,
            ),
            forall|k: int| 0 <= k < r@.len() ==> (#[trigger] r@[k]).0 < r@[k].1 <= text@.len(),
        ensures
            spec_matches_from(*l, text@, 0) == spans_int(r@),
            forall|k: int| 0 <= k < r@.len() ==> (#[trigger] r@[k]).0 < r@[k].1 <= text@.len(),
        decreases n - i,
    {
        if i >= n {
            break;
        }
        let c = text.get_char(i);
        if !is_terminator(l, c) {
            i = i + 1;
        } else {
            let mut e: usize = i + 1;
            loop
                invariant
                    i + 1 <= e <= n,
                    n == text@.len(),
                    forall|k: int| i + 1 <= k < e ==> spec_is_terminator(*l, text@[k]),
                ensures
                    i + 1 <= e <= n,
                    forall|k: int| i + 1 <= k < e ==> spec_is_terminator(*l, text@[k]),
                    e < n ==> !spec_is_terminator(*l, text@[e as int]),
                decreases n - e,
            {
                if e >= n {
                    break;
                }
                if !is_terminator(l, text.get_char(e)) {
                    break;
                }
                e = e + 1;
            }
            proof {
                lemma_term_run_at(*l, text@, i + 1, e as int);
            }
            let ghost sv0 = spans_int(r@);
            r.push((i, e));
            proof {
                assert(spans_int(r@) =~= sv0.push((i as int, e as int)));
                assert(spans_int(r@) + spec_matches_from(*l, text@, e as int) =~= sv0 + (seq![
                    (i as int, e as int),
                ] + spec_matches_from(*l, text@, e as int)));
            }
            i = e;
        }
    }
    r
}

/// The candidate boundary derived from one terminator match `(ms, me)`:
/// forced past adjacent bracketed references, or suppressed by the
/// continuation, abbreviation and exclamation rules, or accepted at the match
/// end.
pub open spec fn spec_find_boundary(
    l: Language,
    s: Seq<char>,
    off: Seq<usize>,
    cls: Seq<Seq<char>>,
    ms: int,
    me: int,
) -> Option<(int, bool)> {
    match spec_next(off, ms) {
        None => None,
        Some(no) => {
            let tail = s.skip(no as int);
            let nr = spec_numref_len(tail, 0);
            if nr > 0 {
                match spec_next(off, me + nr) {
                    Some(b) => Some((b as int, true)),
                    None => None,
                }
            } else if spec_cnw(l, tail) {
                None
            } else if !off_contains(off, ms) {
                None
            } else {
                let ci = choose|ci: int| 0 <= ci < off.len() && off[ci] == ms;
                if spec_is_abbreviation(l, s.take(ms), cls[ci]) {
                    None
                } else if spec_is_exclamation_word(l, s.take(ms)) {
                    None
                } else {
                    Some((me, false))
                }
            }
        },
    }
}

/// Check an accepted boundary against the skip ranges, in order, stopping at
/// the first range that strictly contains it: snapped to the range end when
/// the next grapheme reaches it and the language ends sentences before a
/// closing quote, discarded otherwise.
pub open spec fn spec_apply_ranges(
    l: Language,
    s: Seq<char>,
    off: Seq<usize>,
    ranges: Seq<(usize, usize)>,
    k: int,
    b: int,
) -> Option<int>
    decreases ranges.len() - k when 0 <= k <= ranges.len()
{
    if k >= ranges.len() {
        Some(b)
    } else {
        let qs = ranges[k].0 as int;
        let qe = ranges[k].1 as int;
        if qs < byte_at(s, b) && byte_at(s, b) < qe {
            let ng = match spec_next(off, b) {
                Some(x) => x as int,
                None => b,
            };
            if byte_at(s, ng) == qe && spec_punct_between_quotes(l) {
                Some(ng)
            } else {
                None
            }
        } else {
            spec_apply_ranges(l, s, off, ranges, k + 1, b)
        }
    }
}

/// Align a boundary to the grapheme offset index: kept when recorded, else
/// moved to the next recorded offset, else discarded.
pub open spec fn spec_align(off: Seq<usize>, b: int) -> Option<int> {
    if off_contains(off, b) {
        Some(b)
    } else {
        match spec_next(off, b) {
            Some(x) => Some(x as int),
            None => None,
        }
    }
}

/// The resolved boundary of one match, if it survives: forced boundaries
/// bypass the skip ranges; accepted ones are checked against them and then
/// aligned.
pub open spec fn spec_candidate(
    l: Language,
    s: Seq<char>,
    off: Seq<usize>,
    cls: Seq<Seq<char>>,
    ranges: Seq<(usize, usize)>,
    ms: int,
    me: int,
) -> Option<int> {
    match spec_find_boundary(l, s, off, cls, ms, me) {
        None => None,
        Some((b, forced)) => if forced {
            Some(b)
        } else {
            match spec_apply_ranges(l, s, off, ranges, 0, b) {
                None => None,
                Some(b2) => spec_align(off, b2),
            }
        },
    }
}

fn apply_ranges(
    l: &Language,
    p: &str,
    cursor: &GraphemeCursor,
    bst: &Vec<usize>,
    ranges: &Vec<(usize, usize)>,
    b: usize,
) -> (r: Option<usize>)
    requires
        b <= p@.len(),
        bst@.len() == p@.len() + 1,
        forall|i: int| 0 <= i <= p@.len() ==> bst@[i] == byte_at(p@, i),
        offsets_wf(cursor@, p@.len() as int),
    ensures
        opt_int(r) == spec_apply_ranges(*l, p@, cursor@, ranges@, 0, b as int),
        r matches Some(x) ==> (x == b || off_contains(cursor@, x as int)),
{
    let bb = bst[b];
    let ng: usize = match cursor.next_grapheme(b) {
        Some(x) => x,
        None => b,
    };
    proof {
        lemma_spec_next_member(cursor@, b as int);
        if off_contains(cursor@, ng as int) {
            let i = choose|i: int| 0 <= i < cursor@.len() && cursor@[i] == ng as int;
            assert(cursor@[i] < p@.len());
        }
    }
    let ngb = bst[ng];
    let pbq = is_punctuation_between_quotes(l);
    let m = ranges.len();
    let mut k: usize = 0;
    loop
        invariant
            0 <= k <= m,
            m == ranges@.len(),
            spec_apply_ranges(*l, p@, cursor@, ranges@, 0, b as int) == spec_apply_ranges(
                *l,
                p@,
                cursor@,
                ranges@,
                k as int,
                b as int,
            ),
            bb == byte_at(p@, b as int),
            ngb == byte_at(p@, ng as int),
            ng as int == (match spec_next(cursor@, b as int) {
                Some(x) => x as int,
                None => b as int,
            }),
            ng == b || off_contains(cursor@, ng as int),
            pbq == spec_punct_between_quotes(*l),
        ensures
            k <= m,
            m == ranges@.len(),
            k < m ==> ((#[trigger] ranges@[k as int]).0 < bb && bb < ranges@[k as int].1),
            spec_apply_ranges(*l, p@, cursor@, ranges@, 0, b as int) == spec_apply_ranges(
                *l,
                p@,
                cursor@,
                ranges@,
                k as int,
                b as int,
            ),
            bb == byte_at(p@, b as int),
            ngb == byte_at(p@, ng as int),
            ng as int == (match spec_next(cursor@, b as int) {
                Some(x) => x as int,
                None => b as int,
            }),
            ng == b || off_contains(cursor@, ng as int),
            pbq == spec_punct_between_quotes(*l),
        decreases m - k,
    {
        if k >= m {
            break;
        }
        let (qs, qe) = ranges[k];
        if qs < bb && bb < qe {
            break;
        }
        k = k + 1;
    }
    if k >= m {
        return Some(b);
    }
    let (qs, qe) = ranges[k];
    if ngb == qe && pbq {
        Some(ng)
    } else {
        None
    }
}

/// Resolve one terminator match to a boundary, or discard it.
fn candidate(
    l: &Language,
    p: &str,
    cursor: &GraphemeCursor,
    cls: &Vec<String>,
    bst: &Vec<usize>,
    ranges: &Vec<(usize, usize)>,
    ms: usize,
    me: usize,
) -> (r: Option<usize>)
    requires
        ms < me <= p@.len(),
        cursor@ == spec_starts_u(clusters_of(p@)),
        offsets_wf(cursor@, p@.len() as int),
        cls.deep_view() == clusters_of(p@),
        bst@.len() == p@.len() + 1,
        forall|i: int| 0 <= i <= p@.len() ==> bst@[i] == byte_at(p@, i),
        ranges@ == spec_skip_ranges(p@),
    ensures
        opt_int(r) == spec_candidate(
            *l,
            p@,
            cursor@,
            cls.deep_view(),
            ranges@,
            ms as int,
            me as int,
        ),
        r matches Some(b) ==> off_contains(cursor@, b as int),
{
    let n = p.unicode_len();
    let no: usize = match cursor.next_grapheme(ms) {
        Some(x) => x,
        None => {
            return None;
        },
    };
    proof {
        lemma_spec_next_member(cursor@, ms as int);
        let i = choose|i: int| 0 <= i < cursor@.len() && cursor@[i] == no as int;
        assert(cursor@[i] < p@.len());
    }
    let tail = p.substring_char(no, n);
    proof {
        assert(tail@ =~= p@.skip(no as int));
    }
    let nr = numref_len(tail);
    if nr > 0 {
        let target: usize = match me.checked_add(nr) {
            Some(t) => t,
            None => {
                proof {
                    assert forall|k: int| 0 <= k < cursor@.len() implies (#[trigger] cursor@[k])
                        <= me + nr by {
                        assert(cursor@[k] < p@.len());
                    }
                    lemma_spec_next_none(cursor@, me + nr);
                }
                return None;
            },
        };
        let b = cursor.next_grapheme(target);
        proof {
            lemma_spec_next_member(cursor@, target as int);
        }
        return b;
    }
    if continue_in_next_word(l, tail) {
        return None;
    }
    let ci: usize = match cursor.index_of(ms) {
        Some(x) => x,
        None => {
            proof {
                assert(!off_contains(cursor@, ms as int)) by {
                    if off_contains(cursor@, ms as int) {
                        let i = choose|i: int|
                            0 <= i < cursor@.len() && cursor@[i] == ms as int;
                        assert(cursor@.contains(cursor@[i]));
                        assert(cursor@.contains(ms));
                    }
                }
            }
            return None;
        },
    };
    proof {
        assert(off_contains(cursor@, ms as int)) by {
            assert(cursor@[ci as int] == ms);
        }
        let cj = choose|cj: int| 0 <= cj < cursor@.len() && cursor@[cj] == ms as int;
        assert(cj == ci as int) by {
            if cj < ci as int {
                assert(cursor@[cj] < cursor@[ci as int]);
            } else if cj > ci as int {
                assert(cursor@[ci as int] < cursor@[cj]);
            }
        }
        assert(cls.deep_view().len() == cursor@.len());
        assert(cls.deep_view()[ci as int] == cls@[ci as int]@);
    }
    let sep: &str = cls[ci].as_str();
    let head = p.substring_char(0, ms);
    proof {
        assert(head@ =~= p@.take(ms as int));
    }
    if is_abbreviation(l, head, sep) {
        return None;
    }
    if is_exclamation_word(l, head) {
        return None;
    }
    let b1: usize = match apply_ranges(l, p, cursor, bst, ranges, me) {
        Some(x) => x,
        None => {
            return None;
        },
    };
    if cursor.is_recorded(b1) {
        proof {
            assert(off_contains(cursor@, b1 as int)) by {
                let i = choose|i: int| 0 <= i < cursor@.len() && cursor@[i] == b1;
                assert(cursor@[i] == b1 as int);
            }
        }
        Some(b1)
    } else {
        proof {
            assert(!off_contains(cursor@, b1 as int)) by {
                if off_contains(cursor@, b1 as int) {
                    let i = choose|i: int| 0 <= i < cursor@.len() && cursor@[i] == b1 as int;
                    assert(cursor@.contains(cursor@[i]));
                }
            }
            lemma_spec_next_member(cursor@, b1 as int);
        }
        cursor.next_grapheme(b1)
    }
}

/// The surviving boundaries of the matches from index `k` on, each kept only
/// when strictly beyond the previous one.
pub open spec fn spec_bounds(
    l: Language,
    s: Seq<char>,
    off: Seq<usize>,
    cls: Seq<Seq<char>>,
    ranges: Seq<(usize, usize)>,
    ms: Seq<(int, int)>,
    k: int,
    last: int,
) -> Seq<int>
    decreases ms.len() - k when 0 <= k <= ms.len()
{
    if k >= ms.len() {
        Seq::empty()
    } else {
        match spec_candidate(l, s, off, cls, ranges, ms[k].0, ms[k].1) {
            Some(b) => if b > last {
                seq![b] + spec_bounds(l, s, off, cls, ranges, ms, k + 1, b)
            } else {
                spec_bounds(l, s, off, cls, ranges, ms, k + 1, last)
            },
            None => spec_bounds(l, s, off, cls, ranges, ms, k + 1, last),
        }
    }
}

/// The resolved boundary list of a paragraph, beginning with offset zero.
pub open spec fn spec_boundaries(l: Language, s: Seq<char>) -> Seq<int> {
    let cls = clusters_of(s);
    let off = spec_starts_u(cls);
    seq![0int] + spec_bounds(l, s, off, cls, spec_skip_ranges(s), spec_matches_from(l, s, 0), 0, 0)
}

/// Resolve the boundaries of one paragraph. The returned list begins with 0,
/// is strictly increasing, and every later entry is a member of the
/// paragraph's grapheme offset index.
pub fn resolve_boundaries(l: &Language, p: &str) -> (r: Vec<usize>)
    ensures
        r@.map_values(|x: usize| x as int) == spec_boundaries(*l, p@),
        r@.len() >= 1 && r@[0] == 0,
        forall|i: int, j: int| 0 <= i < j < r@.len() ==> r@[i] < r@[j],
        forall|i: int| 1 <= i < r@.len() ==> off_contains(
            spec_starts_u(clusters_of(p@)),
            (#[trigger] r@[i]) as int,
        ),
        forall|i: int| 0 <= i < r@.len() ==> (#[trigger] r@[i]) <= p@.len(),
        p@.len() > 0 ==> off_contains(spec_starts_u(clusters_of(p@)), 0),
{
    let cursor = GraphemeCursor::new(p);
    let cls = grapheme_clusters(p);
    let bst = byte_starts(p);
    let ranges = get_skippable_ranges(p);
    let matches = find_matches(l, p);
    let mut bounds: Vec<usize> = Vec::new();
    bounds.push(0);
    let mut last: usize = 0;
    let mut k: usize = 0;
    let m = matches.len();
    proof {
        assert(bounds@.map_values(|x: usize| x as int) =~= seq![0int]);
    }
    loop
        invariant
            0 <= k <= m,
            m == matches@.len(),
            cursor@ == spec_starts_u(clusters_of(p@)),
            offsets_wf(cursor@, p@.len() as int),
            cls.deep_view() == clusters_of(p@),
            bst@.len() == p@.len() + 1,
            forall|i: int| 0 <= i <= p@.len() ==> bst@[i] == byte_at(p@, i),
            ranges@ == spec_skip_ranges(p@),
            spans_int(matches@) == spec_matches_from(*l, p@, 0),
            forall|t: int| 0 <= t < matches@.len() ==> (#[trigger] matches@[t]).0 < matches@[t].1
                <= p@.len(),
            bounds@.len() >= 1,
            bounds@[0] == 0,
            last == bounds@.last(),
            forall|i: int, j: int| 0 <= i < j < bounds@.len() ==> bounds@[i] < bounds@[j],
            forall|i: int| 1 <= i < bounds@.len() ==> off_contains(
                cursor@,
                (#[trigger] bounds@[i]) as int,
            ),
            forall|i: int| 0 <= i < bounds@.len() ==> (#[trigger] bounds@[i]) <= p@.len(),
            bounds@.map_values(|x: usize| x as int) + spec_bounds(
                *l,
                p@,
                cursor@,
                cls.deep_view(),
                ranges@,
                spans_int(matches@),
                k as int,
                last as int,
            ) == spec_boundaries(*l, p@),
        ensures
            bounds@.map_values(|x: usize| x as int) == spec_boundaries(*l, p@),
            bounds@.len() >= 1,
            bounds@[0] == 0,
            forall|i: int, j: int| 0 <= i < j < bounds@.len() ==> bounds@[i] < bounds@[j],
            forall|i: int| 1 <= i < bounds@.len() ==> off_contains(
                cursor@,
                (#[trigger] bounds@[i]) as int,
            ),
            forall|i: int| 0 <= i < bounds@.len() ==> (#[trigger] bounds@[i]) <= p@.len(),
        decreases m - k,
    {
        if k >= m {
            break;
        }
        let (ms, me) = matches[k];
        proof {
            assert(spans_int(matches@)[k as int] == (ms as int, me as int));
        }
        let c = candidate(l, p, &cursor, &cls, &bst, &ranges, ms, me);
        match c {
            Some(b) => {
                if b > last {
                    proof {
                        let i = choose|i: int|
                            0 <= i < cursor@.len() && cursor@[i] == b as int;
                        assert(cursor@[i] < p@.len());
                        assert(bounds@.map_values(|x: usize| x as int).push(b as int) =~= bounds@
                            .push(b).map_values(|x: usize| x as int));
                        assert(bounds@.map_values(|x: usize| x as int).push(b as int)
                            + spec_bounds(
                            *l,
                            p@,
                            cursor@,
                            cls.deep_view(),
                            ranges@,
                            spans_int(matches@),
                            k + 1,
                            b as int,
                        ) =~= bounds@.map_values(|x: usize| x as int) + (seq![b as int]
                            + spec_bounds(
                            *l,
                            p@,
                            cursor@,
                            cls.deep_view(),
                            ranges@,
                            spans_int(matches@),
                            k + 1,
                            b as int,
                        )));
                    }
                    bounds.push(b);
                    last = b;
                }
            },
            None => {},
        }
        k = k + 1;
    }
    bounds
}

/// The sentences sliced from `s` between consecutive boundaries and the
/// paragraph end, trimmed of plain spaces, empty results dropped.
pub open spec fn spec_slices(s: Seq<char>, blist: Seq<int>, k: int) -> Seq<Seq<char>>
    decreases blist.len() - k when 0 <= k <= blist.len()
{
    if k >= blist.len() {
        Seq::empty()
    } else {
        let lo = blist[k];
        let hi = if k + 1 < blist.len() {
            blist[k + 1]
        } else {
            s.len() as int
        };
        let t = spec_trim_spaces(s.subrange(lo, hi));
        let rest = spec_slices(s, blist, k + 1);
        if t.len() == 0 {
            rest
        } else {
            seq![t] + rest
        }
    }
}

fn slice_sentences(p: &str, bounds: &Vec<usize>) -> (r: Vec<String>)
    requires
        bounds@.len() >= 1,
        forall|i: int, j: int| 0 <= i < j < bounds@.len() ==> bounds@[i] < bounds@[j],
        forall|i: int| 0 <= i < bounds@.len() ==> (#[trigger] bounds@[i]) <= p@.len(),
    ensures
        r.deep_view() == spec_slices(p@, bounds@.map_values(|x: usize| x as int), 0),
{
    let ghost bl = bounds@.map_values(|x: usize| x as int);
    let n = p.unicode_len();
    let m = bounds.len();
    let mut r: Vec<String> = Vec::new();
    let mut k: usize = 0;
    loop
        invariant
            0 <= k <= m,
            m == bounds@.len(),
            m >= 1,
            n == p@.len(),
            bl == bounds@.map_values(|x: usize| x as int),
            forall|i: int, j: int| 0 <= i < j < bounds@.len() ==> bounds@[i] < bounds@[j],
            forall|i: int| 0 <= i < bounds@.len() ==> (#[trigger] bounds@[i]) <= p@.len(),
            r.deep_view() + spec_slices(p@, bl, k as int) == spec_slices(p@, bl, 0),
        ensures
            r.deep_view() == spec_slices(p@, bl, 0),
        decreases m - k,
    {
        if k >= m {
            break;
        }
        let lo = bounds[k];
        let hi = if k + 1 < m {
            bounds[k + 1]
        } else {
            n
        };
        proof {
            if k + 1 < m {
                assert(bounds@[k as int] < bounds@[k + 1]);
            }
        }
        let piece = p.substring_char(lo, hi);
        proof {
            assert(piece@ =~= p@.subrange(lo as int, hi as int));
        }
        let t = trim_spaces(piece);
        let ghost dv0 = r.deep_view();
        if t.unicode_len() > 0 {
            r.push(String::from_str(t));
            proof {
                assert(r.deep_view() =~= dv0.push(t@));
                assert(dv0.push(t@) + spec_slices(p@, bl, k + 1) =~= dv0 + (seq![t@]
                    + spec_slices(p@, bl, k + 1)));
            }
        }
        k = k + 1;
    }
    r
}

/// The sentences of one paragraph.
pub open spec fn spec_para_sentences(l: Language, s: Seq<char>) -> Seq<Seq<char>> {
    spec_slices(s, spec_boundaries(l, s), 0)
}

pub fn paragraph_sentences(l: &Language, p: &str) -> (r: Vec<String>)
    ensures
        r.deep_view() == spec_para_sentences(*l, p@),
{
    let bounds = resolve_boundaries(l, p);
    let r = slice_sentences(p, &bounds);
    proof {
        assert(bounds@.map_values(|x: usize| x as int) == spec_boundaries(*l, p@));
    }
    r
}

/// The flattened output: each paragraph's sentences in order, with a literal
/// two-newline marker standing between paragraphs once output has begun.
pub open spec fn spec_assemble(l: Language, paras: Seq<Seq<char>>, k: int, have: bool) -> Seq<
    Seq<char>,
>
    decreases paras.len() - k when 0 <= k <= paras.len()
{
    if k >= paras.len() {
        Seq::empty()
    } else {
        let ss = spec_para_sentences(l, paras[k]);
        if have {
            seq!["\n\n"@] + ss + spec_assemble(l, paras, k + 1, true)
        } else {
            ss + spec_assemble(l, paras, k + 1, ss.len() > 0)
        }
    }
}

/// The sentences of a whole text under the rules of `l`.
pub open spec fn spec_segment_text(l: Language, s: Seq<char>) -> Seq<Seq<char>> {
    spec_assemble(l, spec_paragraphs(s), 0, false)
}

/// Split `text` into sentences under the rules of `l`.
pub fn segment_with(l: &Language, text: &str) -> (r: Vec<String>)
    ensures
        r.deep_view() == spec_segment_text(*l, text@),
{
    let paras = split_paragraphs(text);
    let ghost pdv = paras.deep_view();
    let mut out: Vec<String> = Vec::new();
    let mut k: usize = 0;
    let m = paras.len();
    loop
        invariant
            0 <= k <= m,
            m == paras@.len(),
            pdv == paras.deep_view(),
            pdv == spec_paragraphs(text@),
            out.deep_view() + spec_assemble(*l, pdv, k as int, out@.len() > 0)
                == spec_segment_text(*l, text@),
        ensures
            out.deep_view() == spec_segment_text(*l, text@),
        decreases m - k,
    {
        if k >= m {
            break;
        }
        let ghost have0 = out@.len() > 0;
        let ghost dv0 = out.deep_view();
        if out.len() > 0 {
            out.push(String::from_str("\n\n"));
            proof {
                assert(out.deep_view() =~= dv0.push("\n\n"@));
            }
        }
        let mut ss = paragraph_sentences(l, paras[k].as_str());
        proof {
            assert(paras@[k as int]@ == pdv[k as int]);
        }
        let ghost dv1 = out.deep_view();
        let ghost ssdv = ss.deep_view();
        out.append(&mut ss);
        proof {
            assert(out.deep_view() =~= dv1 + ssdv);
            if have0 {
                assert(out.deep_view() =~= dv0 + (seq!["\n\n"@] + ssdv));
                assert(dv0 + (seq!["\n\n"@] + ssdv) + spec_assemble(*l, pdv, k + 1, true) =~= dv0
                    + (seq!["\n\n"@] + ssdv + spec_assemble(*l, pdv, k + 1, true)));
                assert(out@.len() > 0);
            } else {
                assert(dv0 =~= Seq::<Seq<char>>::empty());
                assert(out.deep_view() =~= ssdv);
                assert(ssdv + spec_assemble(*l, pdv, k + 1, ssdv.len() > 0) =~= dv0 + (ssdv
                    + spec_assemble(*l, pdv, k + 1, ssdv.len() > 0)));
                assert((out@.len() > 0) == (ssdv.len() > 0));
            }
        }
        k = k + 1;
    }
    out
}

} // verus!
