//! The per-language capability model: a closed set of language variants that
//! share default behaviour and override it selectively, together with the
//! embedded per-language data (abbreviation sets, exclamation words, month
//! names).
use vstd::prelude::*;
use vstd::string::StrSliceExecFns;
use vstd::string::StringExecFns;
use crate::chars::is_ascii_digit;
use crate::chars::is_ascii_lower;
use crate::chars::is_cyrillic_lower;
use crate::chars::ascii_digit;
use crate::chars::ascii_lower;
use crate::chars::cyrillic_lower;
use crate::chars::str_eq;
use crate::ext::clusters_of;
use crate::ext::first_word_of;
use crate::ext::grapheme_clusters;
use crate::ext::lower_of;
use crate::ext::lower_str;
use crate::ext::upper_of;
use crate::ext::upper_str;
use crate::ext::first_word_segment;
use crate::ext::regex_found;
use crate::ext::regex_is_match;
use crate::scan::after_elision;
use crate::scan::last_word_plain;
use crate::scan::spec_after_elision;
use crate::scan::spec_last_word_plain;
use crate::scan::spec_trim;
use crate::scan::trim_ws;

verus! {

/// A supported language, one variant per registered identifier.
#[derive(Clone, Copy, PartialEq, Eq, Structural, Debug)]
pub enum Language {
    Am,
    Ar,
    Bg,
    Bn,
    Ca,
    Da,
    De,
    El,
    En,
    Es,
    Fi,
    Fr,
    Gu,
    Hi,
    Hy,
    It,
    Kk,
    Kn,
    Ml,
    Mr,
    My,
    Nl,
    Or,
    Pa,
    Pl,
    Pt,
    Ru,
    Sk,
    Ta,
    Te,
}

/// A character of the global sentence-terminator set.
pub open spec fn global_terminator(c: char) -> bool {
    c == '.' || c == '!' || c == '?' || c == '…' || c == '؟' || c == '。' || c == '！'
        || c == '？' || c == '।' || c == '۔'
}

/// Whether `c` can end a sentence in language `l`: the global set by default;
/// Greek adds the semicolon, Burmese adds its section mark, and Armenian
/// excludes the period in favour of its own stops.
pub open spec fn spec_is_terminator(l: Language, c: char) -> bool {
    match l {
        Language::El => global_terminator(c) || c == ';',
        Language::My => global_terminator(c) || c == '၏',
        Language::Hy => (global_terminator(c) && c != '.') || c == '։' || c == '՜' || c == ':',
        _ => global_terminator(c),
    }
}

fn global_terminator_char(c: char) -> (r: bool)
    ensures
        r == global_terminator(c),
{
    c == '.' || c == '!' || c == '?' || c == '…' || c == '؟' || c == '。' || c == '！'
        || c == '？' || c == '।' || c == '۔'
}

pub fn is_terminator(l: &Language, c: char) -> (r: bool)
    ensures
        r == spec_is_terminator(*l, c),
{
    match l {
        Language::El => global_terminator_char(c) || c == ';',
        Language::My => global_terminator_char(c) || c == '၏',
        Language::Hy => (global_terminator_char(c) && c != '.') || c == '։' || c == '՜'
            || c == ':',
        _ => global_terminator_char(c),
    }
}

/// The registry identifier of a language.
pub open spec fn spec_code(l: Language) -> Seq<char> {
    match l {
        Language::Am => "am"@,
        Language::Ar => "ar"@,
        Language::Bg => "bg"@,
        Language::Bn => "bn"@,
        Language::Ca => "ca"@,
        Language::Da => "da"@,
        Language::De => "de"@,
        Language::El => "el"@,
        Language::En => "en"@,
        Language::Es => "es"@,
        Language::Fi => "fi"@,
        Language::Fr => "fr"@,
        Language::Gu => "gu"@,
        Language::Hi => "hi"@,
        Language::Hy => "hy"@,
        Language::It => "it"@,
        Language::Kk => "kk"@,
        Language::Kn => "kn"@,
        Language::Ml => "ml"@,
        Language::Mr => "mr"@,
        Language::My => "my"@,
        Language::Nl => "nl"@,
        Language::Or => "or"@,
        Language::Pa => "pa"@,
        Language::Pl => "pl"@,
        Language::Pt => "pt"@,
        Language::Ru => "ru"@,
        Language::Sk => "sk"@,
        Language::Ta => "ta"@,
        Language::Te => "te"@,
    }
}

pub fn language_code(l: &Language) -> (r: &'static str)
    ensures
        r@ == spec_code(*l),
{
    match l {
        Language::Am => "am",
        Language::Ar => "ar",
        Language::Bg => "bg",
        Language::Bn => "bn",
        Language::Ca => "ca",
        Language::Da => "da",
        Language::De => "de",
        Language::El => "el",
        Language::En => "en",
        Language::Es => "es",
        Language::Fi => "fi",
        Language::Fr => "fr",
        Language::Gu => "gu",
        Language::Hi => "hi",
        Language::Hy => "hy",
        Language::It => "it",
        Language::Kk => "kk",
        Language::Kn => "kn",
        Language::Ml => "ml",
        Language::Mr => "mr",
        Language::My => "my",
        Language::Nl => "nl",
        Language::Or => "or",
        Language::Pa => "pa",
        Language::Pl => "pl",
        Language::Pt => "pt",
        Language::Ru => "ru",
        Language::Sk => "sk",
        Language::Ta => "ta",
        Language::Te => "te",
    }
}

/// The abbreviation marker of every supported language is the period.
pub open spec fn spec_abbrev_char(l: Language) -> Seq<char> {
    "."@
}

pub fn abbreviation_char(l: &Language) -> (r: &'static str)
    ensures
        r@ == spec_abbrev_char(*l),
{
    "."
}

/// The abbreviation set of a language, stored without the trailing marker.
pub open spec fn spec_abbreviations(l: Language) -> Seq<Seq<char>> {
    match l {
        Language::En => seq![
            "dr"@, "mr"@, "mrs"@, "ms"@, "prof"@, "st"@, "jr"@, "sr"@, "vs"@, "etc"@, "inc"@,
            "ltd"@, "no"@, "e"@, "g"@, "i"@, "u"@, "s"@,
        ],
        Language::Ar => seq!["د"@, "أ"@, "م"@],
        Language::Fr => seq!["dr"@, "m"@, "mme"@, "mlle"@, "st"@, "etc"@, "ex"@, "p"@],
        Language::De => seq!["dr"@, "prof"@, "nr"@, "bzw"@, "usw"@, "ca"@, "z"@, "b"@],
        Language::It => seq!["dr"@, "sig"@, "prof"@, "ecc"@, "es"@],
        Language::Es => seq!["sr"@, "sra"@, "dr"@, "etc"@, "ej"@],
        Language::Ca => seq!["sr"@, "sra"@, "dr"@, "etc"@],
        Language::Pt => seq!["sr"@, "sra"@, "dr"@, "etc"@],
        Language::Ru => seq!["г"@, "ул"@, "др"@, "т"@, "д"@],
        Language::Da => seq!["hr"@, "fru"@, "dr"@, "bl"@, "a"@],
        Language::Fi => seq!["esim"@, "n"@, "ts"@],
        Language::Nl => seq!["dhr"@, "mevr"@, "dr"@, "bijv"@, "enz"@],
        Language::Pl => seq!["dr"@, "prof"@, "np"@, "itd"@, "itp"@],
        Language::Sk => seq!["dr"@, "prof"@, "napr"@, "atď"@],
        Language::El => seq!["κ"@, "π"@, "χ"@],
        Language::Bg => seq!["г"@, "др"@, "т"@],
        _ => Seq::empty(),
    }
}

/// The exclamation-word set of a language: idiomatic words that end in a
/// terminator without closing the sentence, stored with their terminator.
pub open spec fn spec_excl_words(l: Language) -> Seq<Seq<char>> {
    match l {
        Language::En => seq!["Yahoo!"@, "Yum!"@],
        _ => Seq::empty(),
    }
}

/// The month-name table used by the date-continuation rule.
pub open spec fn spec_months(l: Language) -> Seq<Seq<char>> {
    match l {
        Language::De => seq![
            "Januar"@, "Februar"@, "März"@, "April"@, "Mai"@, "Juni"@, "Juli"@, "August"@,
            "September"@, "Oktober"@, "November"@, "Dezember"@,
        ],
        Language::Fi => seq![
            "tammikuu"@, "helmikuu"@, "maaliskuu"@, "huhtikuu"@, "toukokuu"@, "kesäkuu"@,
            "heinäkuu"@, "elokuu"@, "syyskuu"@, "lokakuu"@, "marraskuu"@, "joulukuu"@,
        ],
        Language::Sk => seq![
            "Január"@, "Február"@, "Marec"@, "Apríl"@, "Máj"@, "Jún"@, "Júl"@, "August"@,
            "September"@, "Október"@, "November"@, "December"@, "Januára"@, "Februára"@,
            "Marca"@, "Apríla"@, "Mája"@, "Júna"@, "Júla"@, "Augusta"@, "Septembra"@,
            "Októbra"@, "Novembra"@, "Decembra"@,
        ],
        _ => Seq::empty(),
    }
}

pub fn abbreviations(l: &Language) -> (r: Vec<&'static str>)
    ensures
        r.deep_view() == spec_abbreviations(*l),
{
    let r: Vec<&'static str> = match l {
        Language::En => vec![
            "dr", "mr", "mrs", "ms", "prof", "st", "jr", "sr", "vs", "etc", "inc", "ltd", "no",
            "e", "g", "i", "u", "s",
        ],
        Language::Ar => vec!["د", "أ", "م"],
        Language::Fr => vec!["dr", "m", "mme", "mlle", "st", "etc", "ex", "p"],
        Language::De => vec!["dr", "prof", "nr", "bzw", "usw", "ca", "z", "b"],
        Language::It => vec!["dr", "sig", "prof", "ecc", "es"],
        Language::Es => vec!["sr", "sra", "dr", "etc", "ej"],
        Language::Ca => vec!["sr", "sra", "dr", "etc"],
        Language::Pt => vec!["sr", "sra", "dr", "etc"],
        Language::Ru => vec!["г", "ул", "др", "т", "д"],
        Language::Da => vec!["hr", "fru", "dr", "bl", "a"],
        Language::Fi => vec!["esim", "n", "ts"],
        Language::Nl => vec!["dhr", "mevr", "dr", "bijv", "enz"],
        Language::Pl => vec!["dr", "prof", "np", "itd", "itp"],
        Language::Sk => vec!["dr", "prof", "napr", "atď"],
        Language::El => vec!["κ", "π", "χ"],
        Language::Bg => vec!["г", "др", "т"],
        _ => Vec::new(),
    };
    proof {
        assert(r.deep_view() =~= spec_abbreviations(*l));
    }
    r
}

pub fn exclamation_words(l: &Language) -> (r: Vec<&'static str>)
    ensures
        r.deep_view() == spec_excl_words(*l),
{
    let r: Vec<&'static str> = match l {
        Language::En => vec!["Yahoo!", "Yum!"],
        _ => Vec::new(),
    };
    proof {
        assert(r.deep_view() =~= spec_excl_words(*l));
    }
    r
}

pub fn months(l: &Language) -> (r: Vec<&'static str>)
    ensures
        r.deep_view() == spec_months(*l),
{
    let r: Vec<&'static str> = match l {
        Language::De => vec![
            "Januar", "Februar", "März", "April", "Mai", "Juni", "Juli", "August", "September",
            "Oktober", "November", "Dezember",
        ],
        Language::Fi => vec![
            "tammikuu", "helmikuu", "maaliskuu", "huhtikuu", "toukokuu", "kesäkuu", "heinäkuu",
            "elokuu", "syyskuu", "lokakuu", "marraskuu", "joulukuu",
        ],
        Language::Sk => vec![
            "Január", "Február", "Marec", "Apríl", "Máj", "Jún", "Júl", "August", "September",
            "Október", "November", "December", "Januára", "Februára", "Marca", "Apríla", "Mája",
            "Júna", "Júla", "Augusta", "Septembra", "Októbra", "Novembra", "Decembra",
        ],
        _ => Vec::new(),
    };
    proof {
        assert(r.deep_view() =~= spec_months(*l));
    }
    r
}

/// Membership of a word in a word list, compared by characters.
pub fn contains_str(list: &Vec<&'static str>, w: &str) -> (r: bool)
    ensures
        r == list.deep_view().contains(w@),
{
    let n = list.len();
    let mut i: usize = 0;
    loop
        invariant
            0 <= i <= n,
            n == list@.len(),
            forall|k: int| 0 <= k < i ==> list.deep_view()[k] != w@,
        ensures
            (i < n && list.deep_view()[i as int] == w@) || (i == n && forall|k: int|
                0 <= k < n ==> list.deep_view()[k] != w@),
        decreases n - i,
    {
        if i >= n {
            break;
        }
        if str_eq(list[i], w) {
            break;
        }
        i = i + 1;
    }
    if i < n {
        proof {
            assert(list.deep_view().contains(w@));
        }
        true
    } else {
        proof {
            assert(!list.deep_view().contains(w@)) by {
                if list.deep_view().contains(w@) {
                    let k = choose|k: int|
                        0 <= k < list.deep_view().len() && list.deep_view()[k] == w@;
                    assert(list.deep_view()[k] != w@);
                }
            }
        }
        false
    }
}

/// The last word of `text` for language `l`: the default split on whitespace
/// and periods, refined for Italian by splitting off a leading elided article.
pub open spec fn spec_last_word(l: Language, s: Seq<char>) -> Seq<char> {
    match l {
        Language::It => spec_after_elision(spec_last_word_plain(s)),
        _ => spec_last_word_plain(s),
    }
}

pub fn get_lastword(l: &Language, text: &str) -> (r: String)
    ensures
        r@ == spec_last_word(*l, text@),
{
    let w = last_word_plain(text);
    match l {
        Language::It => after_elision(w.as_str()),
        _ => w,
    }
}

/// `s` with its first grapheme cluster lowercased and the rest unchanged.
pub open spec fn spec_first_lower(s: Seq<char>) -> Seq<char> {
    if s.len() == 0 {
        s
    } else {
        lower_of(clusters_of(s)[0]) + clusters_of(s).drop_first().flatten()
    }
}

/// `s` with its first grapheme cluster uppercased and the rest unchanged.
pub open spec fn spec_title(s: Seq<char>) -> Seq<char> {
    if s.len() == 0 {
        s
    } else {
        upper_of(clusters_of(s)[0]) + clusters_of(s).drop_first().flatten()
    }
}

proof fn lemma_flatten_first_rest(cls: Seq<Seq<char>>, s: Seq<char>, len0: int)
    requires
        cls.flatten() == s,
        cls.len() > 0,
        len0 == cls[0].len(),
    ensures
        0 <= len0 <= s.len(),
        cls[0] == s.take(len0),
        cls.drop_first().flatten() == s.skip(len0),
{
    assert(cls.flatten() =~= cls[0] + cls.drop_first().flatten());
    assert(cls[0] =~= s.take(len0));
    assert(cls.drop_first().flatten() =~= s.skip(len0));
}

/// The first grapheme cluster of `text` uppercased, with the remaining
/// characters unchanged.
pub fn to_title_case(text: &str) -> (r: String)
    ensures
        r@ == spec_title(text@),
{
    let cls = grapheme_clusters(text);
    if cls.len() == 0 {
        proof {
            assert(cls.deep_view().len() == 0);
            assert(cls.deep_view().flatten() =~= Seq::<char>::empty());
        }
        return String::new();
    }
    let first: &String = &cls[0];
    let len0 = first.as_str().unicode_len();
    proof {
        assert(cls.deep_view()[0] == first@);
        lemma_flatten_first_rest(cls.deep_view(), text@, len0 as int);
        assert(text@.len() > 0) by {
            assert(cls.deep_view()[0].len() > 0);
        }
    }
    let up = upper_str(first.as_str());
    let n = text.unicode_len();
    let rest = text.substring_char(len0, n);
    proof {
        assert(rest@ =~= text@.skip(len0 as int));
    }
    up.concat(rest)
}

/// `text` with its first grapheme cluster lowercased.
pub fn first_lower(text: &str) -> (r: String)
    ensures
        r@ == spec_first_lower(text@),
{
    let cls = grapheme_clusters(text);
    if cls.len() == 0 {
        proof {
            assert(cls.deep_view().len() == 0);
            assert(cls.deep_view().flatten() =~= Seq::<char>::empty());
        }
        return String::new();
    }
    let first: &String = &cls[0];
    let len0 = first.as_str().unicode_len();
    proof {
        assert(cls.deep_view()[0] == first@);
        lemma_flatten_first_rest(cls.deep_view(), text@, len0 as int);
        assert(text@.len() > 0) by {
            assert(cls.deep_view()[0].len() > 0);
        }
    }
    let low = lower_str(first.as_str());
    let n = text.unicode_len();
    let rest = text.substring_char(len0, n);
    proof {
        assert(rest@ =~= text@.skip(len0 as int));
    }
    low.concat(rest)
}

/// The strip rule that the date-continuation check applies to a word: a
/// literal `?!.` run is removed as a prefix, then as a suffix; when the suffix
/// is absent the word reverts to its original form.
pub open spec fn spec_strip_fix(w: Seq<char>) -> Seq<char> {
    let p = if w.len() >= 3 && w[0] == '?' && w[1] == '!' && w[2] == '.' {
        w.skip(3)
    } else {
        w
    };
    if p.len() >= 3 && p[p.len() - 3] == '?' && p[p.len() - 2] == '!' && p[p.len() - 1] == '.' {
        p.take(p.len() - 3)
    } else {
        w
    }
}

fn strip_fix<'a>(w: &'a str) -> (r: &'a str)
    ensures
        r@ == spec_strip_fix(w@),
{
    let n = w.unicode_len();
    let has_prefix = n >= 3 && w.get_char(0) == '?' && w.get_char(1) == '!' && w.get_char(2)
        == '.';
    let (p, plo): (&str, usize) = if has_prefix {
        (w.substring_char(3, n), 3)
    } else {
        (w, 0)
    };
    proof {
        assert(p@ =~= w@.skip(plo as int));
        if !has_prefix {
            assert(w@.skip(0) =~= w@);
        }
    }
    let m = n - plo;
    if m >= 3 && p.get_char(m - 3) == '?' && p.get_char(m - 2) == '!' && p.get_char(m - 1) == '.' {
        let r = p.substring_char(0, m - 3);
        proof {
            assert(r@ =~= p@.take(m - 3));
        }
        r
    } else {
        w
    }
}

/// The pattern of the default Latin continuation class: optional non-word
/// characters, then an ASCII lowercase letter or digit.
pub open spec fn latin_cnw_pattern() -> Seq<char> {
    "^\\W*[0-9a-z]"@
}

fn latin_cnw_pattern_str() -> (r: &'static str)
    ensures
        r@ == latin_cnw_pattern(),
{
    "^\\W*[0-9a-z]"
}

/// The pattern of the Kazakh continuation class, which adds Cyrillic
/// lowercase letters.
pub open spec fn kk_cnw_pattern() -> Seq<char> {
    "^\\W*[0-9a-zа-я]"@
}

fn kk_cnw_pattern_str() -> (r: &'static str)
    ensures
        r@ == kk_cnw_pattern(),
{
    "^\\W*[0-9a-zа-я]"
}

/// The date-continuation rule shared by German, Finnish and Slovak: the first
/// word after the boundary, stripped and possibly title-cased, is a month
/// name, as in a day-number date.
pub open spec fn spec_month_continuation(months: Seq<Seq<char>>, tail: Seq<char>) -> bool {
    let t = spec_trim(tail);
    if t.len() == 0 {
        false
    } else {
        let w = spec_strip_fix(first_word_of(t));
        if w.len() == 0 {
            false
        } else {
            months.contains(w) || months.contains(spec_title(w))
        }
    }
}

fn month_continuation(table: &Vec<&'static str>, tail: &str) -> (r: bool)
    ensures
        r == spec_month_continuation(table.deep_view(), tail@),
{
    let t = trim_ws(tail);
    match first_word_segment(t) {
        None => false,
        Some(w0) => {
            let w = strip_fix(w0.as_str());
            if w.unicode_len() == 0 {
                false
            } else if contains_str(table, w) {
                true
            } else {
                let tc = to_title_case(w);
                contains_str(table, tc.as_str())
            }
        },
    }
}

/// Whether the text after a candidate boundary shows that the sentence
/// continues: by default a lowercase ASCII letter or digit right after the
/// boundary; Russian also accepts Cyrillic lowercase; Danish, Kazakh, German,
/// Finnish and Slovak skip leading non-word characters first; German, Finnish
/// and Slovak additionally treat a following month name as a date
/// continuation.
pub open spec fn spec_cnw(l: Language, tail: Seq<char>) -> bool {
    match l {
        Language::Ru => tail.len() > 0 && (is_ascii_digit(tail[0]) || is_ascii_lower(tail[0])
            || is_cyrillic_lower(tail[0])),
        Language::Da => regex_found(latin_cnw_pattern(), tail),
        Language::Kk => regex_found(kk_cnw_pattern(), tail),
        Language::De => regex_found(latin_cnw_pattern(), tail) || spec_month_continuation(
            spec_months(Language::De),
            tail,
        ),
        Language::Fi => regex_found(latin_cnw_pattern(), tail) || spec_month_continuation(
            spec_months(Language::Fi),
            tail,
        ),
        Language::Sk => regex_found(latin_cnw_pattern(), tail) || spec_month_continuation(
            spec_months(Language::Sk),
            tail,
        ),
        _ => tail.len() > 0 && (is_ascii_lower(tail[0]) || is_ascii_digit(tail[0])),
    }
}

pub fn continue_in_next_word(l: &Language, tail: &str) -> (r: bool)
    ensures
        r == spec_cnw(*l, tail@),
{
    match l {
        Language::Ru => {
            if text_is_empty(tail) {
                false
            } else {
                let c = tail.get_char(0);
                ascii_digit(c) || ascii_lower(c) || cyrillic_lower(c)
            }
        },
        Language::Da => regex_is_match(latin_cnw_pattern_str(), tail),
        Language::Kk => regex_is_match(kk_cnw_pattern_str(), tail),
        Language::De | Language::Fi | Language::Sk => {
            if regex_is_match(latin_cnw_pattern_str(), tail) {
                true
            } else {
                let table = months(l);
                month_continuation(&table, tail)
            }
        },
        _ => {
            if text_is_empty(tail) {
                false
            } else {
                let c = tail.get_char(0);
                ascii_lower(c) || ascii_digit(c)
            }
        },
    }
}

fn text_is_empty(text: &str) -> (r: bool)
    ensures
        r == (text@.len() == 0),
{
    text.unicode_len() == 0
}

/// Whether a terminator immediately before a closing quote is sentence-final
/// in language `l`; true for German only.
pub open spec fn spec_punct_between_quotes(l: Language) -> bool {
    l is De
}

pub fn is_punctuation_between_quotes(l: &Language) -> (r: bool)
    ensures
        r == spec_punct_between_quotes(*l),
{
    match l {
        Language::De => true,
        _ => false,
    }
}

/// Whether the word before a candidate boundary is a known abbreviation of
/// `l`: the separator must be the language's abbreviation marker, and the last
/// word of the head — exactly, first-cluster-lowercased, fully lowercased or
/// fully uppercased — must be in the abbreviation set.
pub open spec fn spec_is_abbreviation(l: Language, head: Seq<char>, sep: Seq<char>) -> bool {
    if sep != spec_abbrev_char(l) {
        false
    } else {
        let lw = spec_last_word(l, head);
        if lw.len() == 0 {
            false
        } else {
            let abbr = spec_abbreviations(l);
            abbr.contains(lw) || abbr.contains(spec_first_lower(lw)) || abbr.contains(
                lower_of(lw),
            ) || abbr.contains(upper_of(lw))
        }
    }
}

pub fn is_abbreviation(l: &Language, head: &str, sep: &str) -> (r: bool)
    ensures
        r == spec_is_abbreviation(*l, head@, sep@),
{
    if !str_eq(sep, abbreviation_char(l)) {
        return false;
    }
    let lw = get_lastword(l, head);
    if text_is_empty(lw.as_str()) {
        return false;
    }
    let abbr = abbreviations(l);
    if contains_str(&abbr, lw.as_str()) {
        return true;
    }
    let norm = first_lower(lw.as_str());
    if contains_str(&abbr, norm.as_str()) {
        return true;
    }
    let low = lower_str(lw.as_str());
    if contains_str(&abbr, low.as_str()) {
        return true;
    }
    let up = upper_str(lw.as_str());
    contains_str(&abbr, up.as_str())
}

/// Whether the word before a candidate boundary, together with its
/// terminator, is a known idiomatic exclamation of `l`.
pub open spec fn spec_is_exclamation_word(l: Language, head: Seq<char>) -> bool {
    spec_excl_words(l).contains(spec_last_word(l, head).push('!'))
}

pub fn is_exclamation_word(l: &Language, head: &str) -> (r: bool)
    ensures
        r == spec_is_exclamation_word(*l, head@),
{
    let lw = get_lastword(l, head);
    let bang = lw.concat("!");
    proof {
        reveal_strlit("!");
        assert(bang@ =~= spec_last_word(*l, head@).push('!'));
    }
    let words = exclamation_words(l);
    contains_str(&words, bang.as_str())
}

} // verus!
