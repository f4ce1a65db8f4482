//! Verified text scanners: word extraction, trimming, bracketed-integer
//! references, and paragraph splitting.
use vstd::prelude::*;
use vstd::string::StrSliceExecFns;
use vstd::string::StringExecFns;
use crate::chars::is_ascii_digit;
use crate::ext::white_space;

verus! {

/// A character that separates words: whitespace or the period.
pub open spec fn word_sep(c: char) -> bool {
    white_space(c) || c == '.'
}

/// The final token of `s` when split on runs of word separators: the suffix
/// after the last separator, empty when `s` ends with one.
pub open spec fn spec_last_word_plain(s: Seq<char>) -> Seq<char>
    decreases s.len(),
{
    if s.len() == 0 {
        s
    } else if word_sep(s.last()) {
        Seq::empty()
    } else {
        spec_last_word_plain(s.drop_last()).push(s.last())
    }
}

proof fn lemma_last_word_plain_suffix(s: Seq<char>, j: int)
    requires
        0 <= j <= s.len(),
        forall|k: int| j <= k < s.len() ==> !word_sep(s[k]),
        j > 0 ==> word_sep(s[j - 1]),
    ensures
        spec_last_word_plain(s) == s.skip(j),
    decreases s.len(),
{
    if s.len() == 0 {
        assert(s.skip(0) =~= s);
    } else if j == s.len() {
        assert(word_sep(s.last()));
        assert(s.skip(j) =~= Seq::<char>::empty());
    } else {
        assert(!word_sep(s.last()));
        lemma_last_word_plain_suffix(s.drop_last(), j);
        assert(s.skip(j) =~= s.drop_last().skip(j).push(s.last()));
    }
}

pub fn last_word_plain(text: &str) -> (r: String)
    ensures
        r@ == spec_last_word_plain(text@),
{
    let n = text.unicode_len();
    let mut j: usize = n;
    loop
        invariant
            0 <= j <= n,
            n == text@.len(),
            forall|k: int| j <= k < n ==> !word_sep(text@[k]),
        ensures
            0 <= j <= n,
            forall|k: int| j <= k < n ==> !word_sep(text@[k]),
            j > 0 ==> word_sep(text@[j - 1]),
        decreases j,
    {
        if j == 0 {
            break;
        }
        let c = text.get_char(j - 1);
        if c.is_whitespace() || c == '.' {
            break;
        }
        j = j - 1;
    }
    proof {
        lemma_last_word_plain_suffix(text@, j as int);
    }
    let piece = text.substring_char(j, n);
    proof {
        assert(piece@ =~= text@.skip(j as int));
    }
    String::from_str(piece)
}

/// The suffix of `w` after its last occurrence of the elision marker `l'`,
/// or `w` itself when the marker does not occur.
pub open spec fn spec_after_elision(w: Seq<char>) -> Seq<char>
    decreases w.len(),
{
    if w.len() < 2 {
        w
    } else if w[w.len() - 2] == 'l' && w[w.len() - 1] == '\'' {
        Seq::empty()
    } else {
        spec_after_elision(w.drop_last()).push(w.last())
    }
}

proof fn lemma_after_elision_suffix(w: Seq<char>, j: int)
    requires
        0 <= j <= w.len(),
        forall|k: int| j < k < w.len() ==> !(w[k - 1] == 'l' && (#[trigger] w[k]) == '\''),
        j > 0 ==> j >= 2 && w[j - 2] == 'l' && w[j - 1] == '\'',
    ensures
        spec_after_elision(w) == w.skip(j),
    decreases w.len(),
{
    if w.len() < 2 {
        assert(j == 0);
        assert(w.skip(0) =~= w);
    } else if j == w.len() {
        assert(w[w.len() - 2] == 'l' && w[w.len() - 1] == '\'');
        assert(w.skip(j) =~= Seq::<char>::empty());
    } else {
        assert(!(w[w.len() - 2] == 'l' && w[w.len() - 1] == '\'')) by {
            if j < w.len() - 1 {
                assert(j < w.len() - 1 < w.len());
            } else {
                assert(j == w.len() - 1 && j > 0);
                assert(w[j - 1] == '\'');
            }
        }
        assert forall|k: int| j < k < w.drop_last().len() implies !(w.drop_last()[k - 1] == 'l'
            && (#[trigger] w.drop_last()[k]) == '\'') by {
            assert(w.drop_last()[k] == w[k]);
            assert(w.drop_last()[k - 1] == w[k - 1]);
        }
        lemma_after_elision_suffix(w.drop_last(), j);
        assert(w.skip(j) =~= w.drop_last().skip(j).push(w.last()));
    }
}

pub fn after_elision(w: &str) -> (r: String)
    ensures
        r@ == spec_after_elision(w@),
{
    let n = w.unicode_len();
    let mut j: usize = n;
    loop
        invariant
            0 <= j <= n,
            n == w@.len(),
            forall|k: int| j <= k < n ==> k >= 1 ==> !(w@[k - 1] == 'l' && (#[trigger] w@[k])
                == '\''),
        ensures
            0 <= j <= n,
            forall|k: int| j <= k < n ==> k >= 1 ==> !(w@[k - 1] == 'l' && (#[trigger] w@[k])
                == '\''),
            j >= 2 ==> w@[j - 2] == 'l' && w@[j - 1] == '\'',
        decreases j,
    {
        if j < 2 {
            break;
        }
        let a = w.get_char(j - 2);
        let b = w.get_char(j - 1);
        if a == 'l' && b == '\'' {
            break;
        }
        j = j - 1;
    }
    if j < 2 {
        j = 0;
    }
    proof {
        assert forall|k: int| j < k < w@.len() implies !(w@[k - 1] == 'l' && (#[trigger] w@[k])
            == '\'') by {
            assert(j <= k < w@.len() && k >= 1);
        }
        lemma_after_elision_suffix(w@, j as int);
    }
    let piece = w.substring_char(j, n);
    proof {
        assert(piece@ =~= w@.skip(j as int));
    }
    String::from_str(piece)
}

/// `s` with leading characters of class `White_Space` removed.
pub open spec fn spec_trim_start(s: Seq<char>) -> Seq<char>
    decreases s.len(),
{
    if s.len() > 0 && white_space(s[0]) {
        spec_trim_start(s.drop_first())
    } else {
        s
    }
}

/// `s` with trailing characters of class `White_Space` removed.
pub open spec fn spec_trim_end(s: Seq<char>) -> Seq<char>
    decreases s.len(),
{
    if s.len() > 0 && white_space(s.last()) {
        spec_trim_end(s.drop_last())
    } else {
        s
    }
}

/// `s` with White_Space characters removed at both ends.
pub open spec fn spec_trim(s: Seq<char>) -> Seq<char> {
    spec_trim_end(spec_trim_start(s))
}

proof fn lemma_trim_start_at(s: Seq<char>, lo: int)
    requires
        0 <= lo <= s.len(),
        forall|k: int| 0 <= k < lo ==> white_space(s[k]),
        lo < s.len() ==> !white_space(s[lo]),
    ensures
        spec_trim_start(s) == s.skip(lo),
    decreases lo,
{
    if lo == 0 {
        assert(s.skip(0) =~= s);
    } else {
        assert(white_space(s[0]));
        lemma_trim_start_at(s.drop_first(), lo - 1);
        assert(s.drop_first().skip(lo - 1) =~= s.skip(lo));
    }
}

proof fn lemma_trim_end_at(s: Seq<char>, hi: int)
    requires
        0 <= hi <= s.len(),
        forall|k: int| hi <= k < s.len() ==> white_space(s[k]),
        hi > 0 ==> !white_space(s[hi - 1]),
    ensures
        spec_trim_end(s) == s.take(hi),
    decreases s.len() - hi,
{
    if hi == s.len() {
        assert(s.take(hi) =~= s);
        if s.len() > 0 {
            assert(!white_space(s.last()));
        }
    } else {
        assert(white_space(s.last()));
        lemma_trim_end_at(s.drop_last(), hi);
        assert(s.drop_last().take(hi) =~= s.take(hi));
    }
}

pub fn trim_ws<'a>(text: &'a str) -> (r: &'a str)
    ensures
        r@ == spec_trim(text@),
{
    let n = text.unicode_len();
    let mut lo: usize = 0;
    loop
        invariant
            0 <= lo <= n,
            n == text@.len(),
            forall|k: int| 0 <= k < lo ==> white_space(text@[k]),
        ensures
            0 <= lo <= n,
            forall|k: int| 0 <= k < lo ==> white_space(text@[k]),
            lo < n ==> !white_space(text@[lo as int]),
        decreases n - lo,
    {
        if lo >= n {
            break;
        }
        let c = text.get_char(lo);
        if !c.is_whitespace() {
            break;
        }
        lo = lo + 1;
    }
    proof {
        lemma_trim_start_at(text@, lo as int);
    }
    let mut hi: usize = n;
    loop
        invariant
            lo <= hi <= n,
            n == text@.len(),
            forall|k: int| hi <= k < n ==> white_space(text@[k]),
        ensures
            lo <= hi <= n,
            forall|k: int| hi <= k < n ==> white_space(text@[k]),
            hi > lo ==> !white_space(text@[hi - 1]),
        decreases hi,
    {
        if hi <= lo {
            break;
        }
        let c = text.get_char(hi - 1);
        if !c.is_whitespace() {
            break;
        }
        hi = hi - 1;
    }
    proof {
        let t = text@.skip(lo as int);
        assert forall|k: int| hi - lo <= k < t.len() implies white_space(t[k]) by {
            assert(t[k] == text@[k + lo]);
        }
        if hi > lo {
            assert(t[hi - lo - 1] == text@[hi - 1]);
        }
        lemma_trim_end_at(t, hi - lo);
        assert(t.take(hi - lo) =~= text@.subrange(lo as int, hi as int));
    }
    text.substring_char(lo, hi)
}

/// `s` with plain space characters removed at its start.
pub open spec fn spec_space_start(s: Seq<char>) -> Seq<char>
    decreases s.len(),
{
    if s.len() > 0 && s[0] == ' ' {
        spec_space_start(s.drop_first())
    } else {
        s
    }
}

/// `s` with plain space characters removed at its end.
pub open spec fn spec_space_end(s: Seq<char>) -> Seq<char>
    decreases s.len(),
{
    if s.len() > 0 && s.last() == ' ' {
        spec_space_end(s.drop_last())
    } else {
        s
    }
}

/// `s` with plain space characters removed at both ends.
pub open spec fn spec_trim_spaces(s: Seq<char>) -> Seq<char> {
    spec_space_end(spec_space_start(s))
}

proof fn lemma_space_start_at(s: Seq<char>, lo: int)
    requires
        0 <= lo <= s.len(),
        forall|k: int| 0 <= k < lo ==> s[k] == ' ',
        lo < s.len() ==> s[lo] != ' ',
    ensures
        spec_space_start(s) == s.skip(lo),
    decreases lo,
{
    if lo == 0 {
        assert(s.skip(0) =~= s);
    } else {
        lemma_space_start_at(s.drop_first(), lo - 1);
        assert(s.drop_first().skip(lo - 1) =~= s.skip(lo));
    }
}

proof fn lemma_space_end_at(s: Seq<char>, hi: int)
    requires
        0 <= hi <= s.len(),
        forall|k: int| hi <= k < s.len() ==> s[k] == ' ',
        hi > 0 ==> s[hi - 1] != ' ',
    ensures
        spec_space_end(s) == s.take(hi),
    decreases s.len() - hi,
{
    if hi == s.len() {
        assert(s.take(hi) =~= s);
    } else {
        lemma_space_end_at(s.drop_last(), hi);
        assert(s.drop_last().take(hi) =~= s.take(hi));
    }
}

pub fn trim_spaces<'a>(text: &'a str) -> (r: &'a str)
    ensures
        r@ == spec_trim_spaces(text@),
{
    let n = text.unicode_len();
    let mut lo: usize = 0;
    loop
        invariant
            0 <= lo <= n,
            n == text@.len(),
            forall|k: int| 0 <= k < lo ==> text@[k] == ' ',
        ensures
            0 <= lo <= n,
            forall|k: int| 0 <= k < lo ==> text@[k] == ' ',
            lo < n ==> text@[lo as int] != ' ',
        decreases n - lo,
    {
        if lo >= n {
            break;
        }
        if text.get_char(lo) != ' ' {
            break;
        }
        lo = lo + 1;
    }
    proof {
        lemma_space_start_at(text@, lo as int);
    }
    let mut hi: usize = n;
    loop
        invariant
            lo <= hi <= n,
            n == text@.len(),
            forall|k: int| hi <= k < n ==> text@[k] == ' ',
        ensures
            lo <= hi <= n,
            forall|k: int| hi <= k < n ==> text@[k] == ' ',
            hi > lo ==> text@[hi - 1] != ' ',
        decreases hi,
    {
        if hi <= lo {
            break;
        }
        if text.get_char(hi - 1) != ' ' {
            break;
        }
        hi = hi - 1;
    }
    proof {
        let t = text@.skip(lo as int);
        assert forall|k: int| hi - lo <= k < t.len() implies t[k] == ' ' by {
            assert(t[k] == text@[k + lo]);
        }
        if hi > lo {
            assert(t[hi - lo - 1] == text@[hi - 1]);
        }
        lemma_space_end_at(t, hi - lo);
        assert(t.take(hi - lo) =~= text@.subrange(lo as int, hi as int));
    }
    text.substring_char(lo, hi)
}

/// The end of the run of ASCII digits that starts at `i`.
pub open spec fn digit_run_end(s: Seq<char>, i: int) -> int
    decreases s.len() - i when 0 <= i <= s.len()
{
    if i >= s.len() || !is_ascii_digit(s[i]) {
        i
    } else {
        digit_run_end(s, i + 1)
    }
}

proof fn lemma_digit_run_end_at(s: Seq<char>, i: int, j: int)
    requires
        0 <= i <= j <= s.len(),
        forall|k: int| i <= k < j ==> is_ascii_digit(s[k]),
        j < s.len() ==> !is_ascii_digit(s[j]),
    ensures
        digit_run_end(s, i) == j,
    decreases j - i,
{
    if i < j {
        lemma_digit_run_end_at(s, i + 1, j);
    }
}

proof fn lemma_digit_run_end_bounds(s: Seq<char>, i: int)
    requires
        0 <= i <= s.len(),
    ensures
        i <= digit_run_end(s, i) <= s.len(),
    decreases s.len() - i,
{
    if !(i >= s.len() || !is_ascii_digit(s[i])) {
        lemma_digit_run_end_bounds(s, i + 1);
    }
}

/// The length of one bracketed-integer group `[ddd]` starting at `i`, or 0.
pub open spec fn spec_group_len(s: Seq<char>, i: int) -> int {
    let d = digit_run_end(s, i + 1);
    if 0 <= i && i < s.len() && s[i] == '[' && d > i + 1 && d < s.len() && s[d] == ']' {
        d + 1 - i
    } else {
        0
    }
}

fn group_len(text: &str, i: usize) -> (r: usize)
    requires
        i <= text@.len(),
    ensures
        r == spec_group_len(text@, i as int),
        r == 0 || (3 <= r && i + r <= text@.len()),
{
    let n = text.unicode_len();
    if i >= n || text.get_char(i) != '[' {
        return 0;
    }
    let mut j: usize = i + 1;
    loop
        invariant
            i + 1 <= j <= n,
            n == text@.len(),
            forall|k: int| i + 1 <= k < j ==> is_ascii_digit(text@[k]),
        ensures
            i + 1 <= j <= n,
            forall|k: int| i + 1 <= k < j ==> is_ascii_digit(text@[k]),
            j < n ==> !is_ascii_digit(text@[j as int]),
        decreases n - j,
    {
        if j >= n {
            break;
        }
        let c = text.get_char(j);
        let u = c as u32;
        if !(0x30 <= u && u <= 0x39) {
            break;
        }
        j = j + 1;
    }
    proof {
        lemma_digit_run_end_at(text@, i + 1, j as int);
    }
    if j > i + 1 && j < n && text.get_char(j) == ']' {
        j + 1 - i
    } else {
        0
    }
}

/// The total length of the maximal run of adjacent bracketed-integer groups
/// starting at `i`.
pub open spec fn spec_numref_len(s: Seq<char>, i: int) -> int
    decreases s.len() - i when 0 <= i <= s.len() via spec_numref_len_decreases
{
    let g = spec_group_len(s, i);
    if g <= 0 {
        0
    } else {
        g + spec_numref_len(s, i + g)
    }
}

#[via_fn]
proof fn spec_numref_len_decreases(s: Seq<char>, i: int) {
    if 0 <= i && i < s.len() {
        lemma_digit_run_end_bounds(s, i + 1);
    }
}

/// The length of the run of bracketed-integer references at the start of
/// `text`, in characters; 0 when there is none.
pub fn numref_len(text: &str) -> (r: usize)
    ensures
        r == spec_numref_len(text@, 0),
        r <= text@.len(),
{
    let mut i: usize = 0;
    let n = text.unicode_len();
    loop
        invariant
            0 <= i <= n,
            n == text@.len(),
            spec_numref_len(text@, 0) == i + spec_numref_len(text@, i as int),
        ensures
            0 <= i <= n,
            spec_numref_len(text@, 0) == i,
        decreases n - i,
    {
        let g = group_len(text, i);
        if g == 0 {
            break;
        }
        i = i + g;
    }
    i
}

/// The end of the run of newline characters that starts at `k`.
pub open spec fn nl_run_end(s: Seq<char>, k: int) -> int
    decreases s.len() - k when 0 <= k <= s.len()
{
    if k >= s.len() || s[k] != '\n' {
        k
    } else {
        nl_run_end(s, k + 1)
    }
}

proof fn lemma_nl_run_end_bounds(s: Seq<char>, k: int)
    requires
        0 <= k <= s.len(),
    ensures
        k <= nl_run_end(s, k) <= s.len(),
    decreases s.len() - k,
{
    if !(k >= s.len() || s[k] != '\n') {
        lemma_nl_run_end_bounds(s, k + 1);
    }
}

proof fn lemma_nl_run_end_at(s: Seq<char>, i: int, j: int)
    requires
        0 <= i <= j <= s.len(),
        forall|k: int| i <= k < j ==> s[k] == '\n',
        j < s.len() ==> s[j] != '\n',
    ensures
        nl_run_end(s, i) == j,
    decreases j - i,
{
    if i < j {
        lemma_nl_run_end_at(s, i + 1, j);
    }
}

/// The first position at or after `k` where two consecutive newlines start,
/// or the length of `s` when there is none.
pub open spec fn first_sep_from(s: Seq<char>, k: int) -> int
    decreases s.len() - k when 0 <= k <= s.len()
{
    if k + 1 >= s.len() {
        s.len() as int
    } else if s[k] == '\n' && s[k + 1] == '\n' {
        k
    } else {
        first_sep_from(s, k + 1)
    }
}

proof fn lemma_first_sep_bounds(s: Seq<char>, k: int)
    requires
        0 <= k <= s.len(),
    ensures
        first_sep_from(s, k) == s.len() || (k <= first_sep_from(s, k)
            && first_sep_from(s, k) + 1 < s.len() && s[first_sep_from(s, k)] == '\n'
            && s[first_sep_from(s, k) + 1] == '\n'),
    decreases s.len() - k,
{
    if k + 1 < s.len() && !(s[k] == '\n' && s[k + 1] == '\n') {
        lemma_first_sep_bounds(s, k + 1);
    }
}

proof fn lemma_first_sep_none(s: Seq<char>, k: int)
    requires
        0 <= k <= s.len(),
        forall|j: int| k <= j < s.len() - 1 ==> !((#[trigger] s[j]) == '\n' && s[j + 1] == '\n'),
    ensures
        first_sep_from(s, k) == s.len(),
    decreases s.len() - k,
{
    if k + 1 < s.len() {
        lemma_first_sep_none(s, k + 1);
    }
}

proof fn lemma_first_sep_found(s: Seq<char>, k: int, i: int)
    requires
        0 <= k <= i,
        i + 1 < s.len(),
        s[i] == '\n' && s[i + 1] == '\n',
        forall|j: int| k <= j < i ==> !((#[trigger] s[j]) == '\n' && s[j + 1] == '\n'),
    ensures
        first_sep_from(s, k) == i,
    decreases i - k,
{
    if k < i {
        lemma_first_sep_found(s, k + 1, i);
    }
}

/// The paragraphs of `s` from position `pos` on: the pieces between maximal
/// runs of two or more consecutive newlines.
pub open spec fn spec_paras_from(s: Seq<char>, pos: int) -> Seq<Seq<char>>
    decreases s.len() - pos when 0 <= pos <= s.len() via spec_paras_from_decreases
{
    let i = first_sep_from(s, pos);
    if i >= s.len() {
        seq![s.subrange(pos, s.len() as int)]
    } else {
        seq![s.subrange(pos, i)] + spec_paras_from(s, nl_run_end(s, i))
    }
}

#[via_fn]
proof fn spec_paras_from_decreases(s: Seq<char>, pos: int) {
    if 0 <= pos <= s.len() {
        lemma_first_sep_bounds(s, pos);
        let i = first_sep_from(s, pos);
        if i < s.len() {
            lemma_nl_run_end_bounds(s, i + 2);
            assert(nl_run_end(s, i) == nl_run_end(s, i + 1));
            assert(nl_run_end(s, i + 1) == nl_run_end(s, i + 2));
        }
    }
}

/// The paragraphs of `s`: maximal pieces not containing two or more
/// consecutive newlines, in order.
pub open spec fn spec_paragraphs(s: Seq<char>) -> Seq<Seq<char>> {
    spec_paras_from(s, 0)
}

pub fn split_paragraphs(text: &str) -> (r: Vec<String>)
    ensures
        r.deep_view() == spec_paragraphs(text@),
{
    let n = text.unicode_len();
    let mut r: Vec<String> = Vec::new();
    let mut pos: usize = 0;
    loop
        invariant_except_break
            r.deep_view() + spec_paras_from(text@, pos as int) == spec_paragraphs(text@),
        invariant
            0 <= pos <= n,
            n == text@.len(),
        ensures
            r.deep_view() == spec_paragraphs(text@),
        decreases n + 1 - pos,
    {
        let mut i: usize = pos;
        loop
            invariant
                pos <= i <= n,
                n == text@.len(),
                forall|j: int| pos <= j < i ==> !((#[trigger] text@[j]) == '\n' && j + 1 < text@.len()
                    && text@[j + 1] == '\n'),
            ensures
                pos <= i <= n,
                forall|j: int| pos <= j < i ==> !((#[trigger] text@[j]) == '\n' && j + 1 < text@.len()
                    && text@[j + 1] == '\n'),
                n - i > 1 ==> text@[i as int] == '\n' && text@[i + 1] == '\n',
            decreases n - i,
        {
            if n - i <= 1 {
                break;
            }
            if text.get_char(i) == '\n' && text.get_char(i + 1) == '\n' {
                break;
            }
            i = i + 1;
        }
        if n - i <= 1 {
            proof {
                assert forall|j: int| pos <= j < text@.len() - 1 implies !((#[trigger] text@[j]) == '\n'
                    && text@[j + 1] == '\n') by {
                    assert(j < i);
                }
                lemma_first_sep_none(text@, pos as int);
            }
            let piece = text.substring_char(pos, n);
            let ghost dv0 = r.deep_view();
            r.push(String::from_str(piece));
            proof {
                assert(r.deep_view() =~= dv0.push(piece@));
                assert(r.deep_view() =~= dv0 + spec_paras_from(text@, pos as int));
            }
            break;
        }
        proof {
            assert forall|j: int| pos <= j < i implies !((#[trigger] text@[j]) == '\n' && text@[j + 1] == '\n')
                by {
                if text@[j] == '\n' && text@[j + 1] == '\n' {
                    assert(j + 1 < text@.len());
                }
            }
            lemma_first_sep_found(text@, pos as int, i as int);
        }
        let piece = text.substring_char(pos, i);
        let ghost dv0 = r.deep_view();
        r.push(String::from_str(piece));
        let mut j: usize = i;
        loop
            invariant
                i <= j <= n,
                n == text@.len(),
                forall|k: int| i <= k < j ==> text@[k] == '\n',
            ensures
                i <= j <= n,
                forall|k: int| i <= k < j ==> text@[k] == '\n',
                j < n ==> text@[j as int] != '\n',
            decreases n - j,
        {
            if j >= n {
                break;
            }
            if text.get_char(j) != '\n' {
                break;
            }
            j = j + 1;
        }
        proof {
            lemma_nl_run_end_at(text@, i as int, j as int);
            assert(r.deep_view() =~= dv0.push(piece@));
            assert(r.deep_view() + spec_paras_from(text@, j as int) =~= dv0 + spec_paras_from(
                text@,
                pos as int,
            ));
        }
        pos = j;
        proof {
            assert(j >= i + 2);
        }
    }
    r
}

} // verus!
