//! The language registry and the fallback resolver: a language identifier is
//! looked up directly, and on a miss resolution retries along the
//! identifier's configured fallback chain, depth-bounded as a defence against
//! a misconfigured cyclic table.
use vstd::prelude::*;
use crate::chars::str_eq;
use crate::lang::Language;

verus! {

/// The direct registry: one entry per supported identifier.
pub open spec fn spec_lookup(code: Seq<char>) -> Option<Language> {
    if code == "am"@ {
        Some(Language::Am)
    } else if code == "ar"@ {
        Some(Language::Ar)
    } else if code == "bg"@ {
        Some(Language::Bg)
    } else if code == "bn"@ {
        Some(Language::Bn)
    } else if code == "ca"@ {
        Some(Language::Ca)
    } else if code == "da"@ {
        Some(Language::Da)
    } else if code == "de"@ {
        Some(Language::De)
    } else if code == "el"@ {
        Some(Language::El)
    } else if code == "en"@ {
        Some(Language::En)
    } else if code == "es"@ {
        Some(Language::Es)
    } else if code == "fi"@ {
        Some(Language::Fi)
    } else if code == "fr"@ {
        Some(Language::Fr)
    } else if code == "gu"@ {
        Some(Language::Gu)
    } else if code == "hi"@ {
        Some(Language::Hi)
    } else if code == "hy"@ {
        Some(Language::Hy)
    } else if code == "it"@ {
        Some(Language::It)
    } else if code == "kk"@ {
        Some(Language::Kk)
    } else if code == "kn"@ {
        Some(Language::Kn)
    } else if code == "ml"@ {
        Some(Language::Ml)
    } else if code == "mr"@ {
        Some(Language::Mr)
    } else if code == "my"@ {
        Some(Language::My)
    } else if code == "nl"@ {
        Some(Language::Nl)
    } else if code == "or"@ {
        Some(Language::Or)
    } else if code == "pa"@ {
        Some(Language::Pa)
    } else if code == "pl"@ {
        Some(Language::Pl)
    } else if code == "pt"@ {
        Some(Language::Pt)
    } else if code == "ru"@ {
        Some(Language::Ru)
    } else if code == "sk"@ {
        Some(Language::Sk)
    } else if code == "ta"@ {
        Some(Language::Ta)
    } else if code == "te"@ {
        Some(Language::Te)
    } else {
        None
    }
}

pub fn lookup(code: &str) -> (r: Option<Language>)
    ensures
        r == spec_lookup(code@),
{
    if str_eq(code, "am") {
        Some(Language::Am)
    } else if str_eq(code, "ar") {
        Some(Language::Ar)
    } else if str_eq(code, "bg") {
        Some(Language::Bg)
    } else if str_eq(code, "bn") {
        Some(Language::Bn)
    } else if str_eq(code, "ca") {
        Some(Language::Ca)
    } else if str_eq(code, "da") {
        Some(Language::Da)
    } else if str_eq(code, "de") {
        Some(Language::De)
    } else if str_eq(code, "el") {
        Some(Language::El)
    } else if str_eq(code, "en") {
        Some(Language::En)
    } else if str_eq(code, "es") {
        Some(Language::Es)
    } else if str_eq(code, "fi") {
        Some(Language::Fi)
    } else if str_eq(code, "fr") {
        Some(Language::Fr)
    } else if str_eq(code, "gu") {
        Some(Language::Gu)
    } else if str_eq(code, "hi") {
        Some(Language::Hi)
    } else if str_eq(code, "hy") {
        Some(Language::Hy)
    } else if str_eq(code, "it") {
        Some(Language::It)
    } else if str_eq(code, "kk") {
        Some(Language::Kk)
    } else if str_eq(code, "kn") {
        Some(Language::Kn)
    } else if str_eq(code, "ml") {
        Some(Language::Ml)
    } else if str_eq(code, "mr") {
        Some(Language::Mr)
    } else if str_eq(code, "my") {
        Some(Language::My)
    } else if str_eq(code, "nl") {
        Some(Language::Nl)
    } else if str_eq(code, "or") {
        Some(Language::Or)
    } else if str_eq(code, "pa") {
        Some(Language::Pa)
    } else if str_eq(code, "pl") {
        Some(Language::Pl)
    } else if str_eq(code, "pt") {
        Some(Language::Pt)
    } else if str_eq(code, "ru") {
        Some(Language::Ru)
    } else if str_eq(code, "sk") {
        Some(Language::Sk)
    } else if str_eq(code, "ta") {
        Some(Language::Ta)
    } else if str_eq(code, "te") {
        Some(Language::Te)
    } else {
        None
    }
}

/// The fallback table: identifiers that are answered by another language's
/// rules. A chain may name identifiers that are themselves only resolvable
/// through further fallback.
pub open spec fn spec_fallback_entry(code: Seq<char>) -> Option<Seq<Seq<char>>> {
    if code == "zh"@ {
        Some(seq!["en"@])
    } else if code == "yue"@ {
        Some(seq!["zh"@])
    } else if code == "zh-hans"@ {
        Some(seq!["zh"@])
    } else if code == "zh-hant"@ {
        Some(seq!["zh"@])
    } else if code == "nb"@ {
        Some(seq!["da"@])
    } else if code == "nn"@ {
        Some(seq!["nb"@])
    } else if code == "no"@ {
        Some(seq!["nb"@])
    } else if code == "arz"@ {
        Some(seq!["ar"@])
    } else if code == "pnb"@ {
        Some(seq!["pa"@])
    } else {
        None
    }
}

pub fn fallback_entry(code: &str) -> (r: Option<Vec<&'static str>>)
    ensures
        r is Some == spec_fallback_entry(code@) is Some,
        r matches Some(v) ==> spec_fallback_entry(code@) matches Some(c) && v.deep_view() == c,
{
    let r: Option<Vec<&'static str>> = if str_eq(code, "zh") {
        Some(vec!["en"])
    } else if str_eq(code, "yue") {
        Some(vec!["zh"])
    } else if str_eq(code, "zh-hans") {
        Some(vec!["zh"])
    } else if str_eq(code, "zh-hant") {
        Some(vec!["zh"])
    } else if str_eq(code, "nb") {
        Some(vec!["da"])
    } else if str_eq(code, "nn") {
        Some(vec!["nb"])
    } else if str_eq(code, "no") {
        Some(vec!["nb"])
    } else if str_eq(code, "arz") {
        Some(vec!["ar"])
    } else if str_eq(code, "pnb") {
        Some(vec!["pa"])
    } else {
        None
    };
    proof {
        if r is Some {
            assert(r->Some_0.deep_view() =~= spec_fallback_entry(code@)->Some_0);
        }
    }
    r
}

/// The chain consulted for an identifier: its table entry, or the global
/// default chain, which is empty.
pub open spec fn spec_chain_of(code: Seq<char>) -> Seq<Seq<char>> {
    match spec_fallback_entry(code) {
        Some(c) => c,
        None => Seq::empty(),
    }
}

/// Depth-bounded resolution: a registry hit answers directly; otherwise each
/// chain entry is resolved in order with one unit of fuel less.
pub open spec fn spec_resolve(code: Seq<char>, fuel: nat) -> Option<Language>
    decreases fuel, 0nat,
{
    match spec_lookup(code) {
        Some(l) => Some(l),
        None => if fuel == 0 {
            None
        } else {
            spec_resolve_chain(spec_chain_of(code), (fuel - 1) as nat)
        },
    }
}

pub open spec fn spec_resolve_chain(chain: Seq<Seq<char>>, fuel: nat) -> Option<Language>
    decreases fuel, chain.len() + 1nat,
{
    if chain.len() == 0 {
        None
    } else {
        match spec_resolve(chain[0], fuel) {
            Some(l) => Some(l),
            None => spec_resolve_chain(chain.drop_first(), fuel),
        }
    }
}

/// The depth bound of the resolver; ample for the configured table, whose
/// chains are at most three identifiers deep.
pub const RESOLVE_FUEL: u64 = 8;

pub fn resolve_code(code: &str, fuel: u64) -> (r: Option<Language>)
    ensures
        r == spec_resolve(code@, fuel as nat),
    decreases fuel,
{
    match lookup(code) {
        Some(l) => Some(l),
        None => {
            if fuel == 0 {
                return None;
            }
            let chain: Vec<&'static str> = match fallback_entry(code) {
                Some(v) => v,
                None => Vec::new(),
            };
            proof {
                assert(chain.deep_view() =~= spec_chain_of(code@));
                assert(chain.deep_view().skip(0) =~= chain.deep_view());
            }
            let mut i: usize = 0;
            let n = chain.len();
            loop
                invariant
                    0 <= i <= n,
                    n == chain@.len(),
                    spec_lookup(code@) is None,
                    chain.deep_view() == spec_chain_of(code@),
                    spec_resolve_chain(chain.deep_view(), (fuel - 1) as nat)
                        == spec_resolve_chain(
                        chain.deep_view().skip(i as int),
                        (fuel - 1) as nat,
                    ),
                    fuel >= 1,
                ensures
                    spec_resolve_chain(chain.deep_view(), (fuel - 1) as nat) is None,
                decreases n - i,
            {
                if i >= n {
                    break;
                }
                let sub = resolve_code(chain[i], fuel - 1);
                proof {
                    assert(chain.deep_view().skip(i as int)[0] == chain[i as int]@);
                    assert(chain.deep_view().skip(i as int).drop_first() =~= chain.deep_view()
                        .skip(i + 1));
                }
                match sub {
                    Some(l) => {
                        proof {
                            assert(spec_resolve_chain(
                                chain.deep_view().skip(i as int),
                                (fuel - 1) as nat,
                            ) == Some(l));
                            assert(spec_lookup(code@) is None);
                            assert((fuel as nat - 1) as nat == (fuel - 1) as nat);
                            assert(spec_resolve(code@, fuel as nat) == spec_resolve_chain(
                                spec_chain_of(code@),
                                (fuel - 1) as nat,
                            ));
                        }
                        return Some(l);
                    },
                    None => {
                        i = i + 1;
                    },
                }
            }
            None
        },
    }
}

/// Resolve an identifier to a language, directly or through the fallback
/// table.
pub fn get_language(code: &str) -> (r: Option<Language>)
    ensures
        r == spec_resolve(code@, RESOLVE_FUEL as nat),
{
    resolve_code(code, RESOLVE_FUEL)
}

/// An identifier that misses the registry but has a fallback chain resolves
/// through that chain, to the answer of its first resolvable entry.
pub proof fn lemma_resolve_via_fallback(code: Seq<char>, fuel: nat, i: int)
    requires
        fuel > 0,
        spec_lookup(code) is None,
        0 <= i < spec_chain_of(code).len(),
        spec_resolve(spec_chain_of(code)[i], (fuel - 1) as nat) is Some,
        forall|j: int| 0 <= j < i ==> spec_resolve(
            spec_chain_of(code)[j],
            (fuel - 1) as nat,
        ) is None,
    ensures
        spec_resolve(code, fuel) == spec_resolve(spec_chain_of(code)[i], (fuel - 1) as nat),
{
    lemma_chain_hit(spec_chain_of(code), (fuel - 1) as nat, i);
}

proof fn lemma_chain_hit(chain: Seq<Seq<char>>, fuel: nat, i: int)
    requires
        0 <= i < chain.len(),
        spec_resolve(chain[i], fuel) is Some,
        forall|j: int| 0 <= j < i ==> spec_resolve(#[trigger] chain[j], fuel) is None,
    ensures
        spec_resolve_chain(chain, fuel) == spec_resolve(chain[i], fuel),
    decreases i,
{
    if i > 0 {
        assert(spec_resolve(chain[0], fuel) is None);
        assert forall|j: int| 0 <= j < i - 1 implies spec_resolve(
            #[trigger] chain.drop_first()[j],
            fuel,
        ) is None by {
            assert(chain.drop_first()[j] == chain[j + 1]);
        }
        assert(chain.drop_first()[i - 1] == chain[i]);
        lemma_chain_hit(chain.drop_first(), fuel, i - 1);
    }
}

/// An identifier absent from both the registry and the fallback table is not
/// resolvable: the default chain is empty, so resolution is exhausted at
/// once.
pub proof fn lemma_resolve_absent(code: Seq<char>, fuel: nat)
    requires
        spec_lookup(code) is None,
        spec_fallback_entry(code) is None,
    ensures
        spec_resolve(code, fuel) is None,
{
    if fuel > 0 {
        assert(spec_chain_of(code).len() == 0);
    }
}

} // verus!
