//! The grapheme cursor: navigation over the ordered character offsets at
//! which a paragraph's grapheme clusters start.
use vstd::prelude::*;
use vstd::string::StrSliceExecFns;
use crate::ext::clusters_of;
use crate::ext::grapheme_clusters;

verus! {

/// The character offsets at which the clusters of a decomposition start.
pub open spec fn spec_cluster_starts(cls: Seq<Seq<char>>) -> Seq<int> {
    Seq::new(cls.len(), |i: int| cls.take(i).flatten().len() as int)
}

/// The same offsets, as machine integers.
pub open spec fn spec_starts_u(cls: Seq<Seq<char>>) -> Seq<usize> {
    Seq::new(cls.len(), |i: int| cls.take(i).flatten().len() as usize)
}

/// Membership of a character offset in a recorded offset table.
pub open spec fn off_contains(off: Seq<usize>, b: int) -> bool {
    exists|i: int| 0 <= i < off.len() && off[i] == b
}

/// Well-formedness of a recorded offset table over a text of `n` characters:
/// strictly increasing, within the text, starting at offset zero.
pub open spec fn offsets_wf(off: Seq<usize>, n: int) -> bool {
    &&& forall|i: int, j: int| 0 <= i < j < off.len() ==> off[i] < off[j]
    &&& forall|i: int| 0 <= i < off.len() ==> (#[trigger] off[i]) < n
    &&& (n > 0 ==> off.len() > 0 && off[0] == 0)
    &&& (n == 0 ==> off.len() == 0)
}

/// Unicode-safe navigation over a paragraph's grapheme-cluster start
/// offsets, built once per paragraph.
pub struct GraphemeCursor {
    offsets: Vec<usize>,
}

impl View for GraphemeCursor {
    type V = Seq<usize>;

    closed spec fn view(&self) -> Seq<usize> {
        self.offsets@
    }
}

/// The smallest recorded offset strictly greater than `pos`, if any.
pub open spec fn spec_next(off: Seq<usize>, pos: int) -> Option<usize>
    decreases off.len(),
{
    if off.len() == 0 {
        None
    } else if off[0] > pos {
        Some(off[0])
    } else {
        spec_next(off.drop_first(), pos)
    }
}

/// The largest recorded offset strictly less than `pos`, if any.
pub open spec fn spec_prev(off: Seq<usize>, pos: int) -> Option<usize>
    decreases off.len(),
{
    if off.len() == 0 {
        None
    } else if off.last() < pos {
        Some(off.last())
    } else {
        spec_prev(off.drop_last(), pos)
    }
}

proof fn lemma_spec_next_at(off: Seq<usize>, pos: int, i: int)
    requires
        0 <= i <= off.len(),
        forall|k: int| 0 <= k < i ==> (#[trigger] off[k]) <= pos,
        i < off.len() ==> off[i] > pos,
    ensures
        i < off.len() ==> spec_next(off, pos) == Some(off[i]),
        i == off.len() ==> spec_next(off, pos) is None,
    decreases i,
{
    if off.len() > 0 {
        if i == 0 {
        } else {
            assert(off[0] <= pos);
            assert forall|k: int| 0 <= k < i - 1 implies (#[trigger] off.drop_first()[k]) <= pos
                by {
                assert(off.drop_first()[k] == off[k + 1]);
            }
            lemma_spec_next_at(off.drop_first(), pos, i - 1);
        }
    }
}

proof fn lemma_spec_prev_at(off: Seq<usize>, pos: int, i: int)
    requires
        0 <= i <= off.len(),
        forall|k: int| i <= k < off.len() ==> (#[trigger] off[k]) >= pos,
        i > 0 ==> off[i - 1] < pos,
    ensures
        i > 0 ==> spec_prev(off, pos) == Some(off[i - 1]),
        i == 0 ==> spec_prev(off, pos) is None,
    decreases off.len() - i,
{
    if off.len() > 0 {
        if i == off.len() {
        } else {
            assert(off.last() >= pos);
            assert forall|k: int| i <= k < off.drop_last().len() implies (
            #[trigger] off.drop_last()[k]) >= pos by {
                assert(off.drop_last()[k] == off[k]);
            }
            if i > 0 {
                assert(off.drop_last()[i - 1] == off[i - 1]);
            }
            lemma_spec_prev_at(off.drop_last(), pos, i);
        }
    }
}

impl GraphemeCursor {
    /// Build the cursor for a paragraph from its grapheme-cluster
    /// decomposition.
    pub fn new(text: &str) -> (c: GraphemeCursor)
        ensures
            c@.map_values(|x: usize| x as int) == spec_cluster_starts(clusters_of(text@)),
            c@ == spec_starts_u(clusters_of(text@)),
            offsets_wf(c@, text@.len() as int),
    {
        let cls = grapheme_clusters(text);
        let ghost cdv = cls.deep_view();
        let mut offsets: Vec<usize> = Vec::new();
        let mut pos: usize = 0;
        let mut i: usize = 0;
        let n = cls.len();
        let total_chars = text.unicode_len();
        proof {
            assert(cdv.take(0).flatten() =~= Seq::<char>::empty());
        }
        while i < n
            invariant
                0 <= i <= n,
                n == cdv.len(),
                total_chars == text@.len(),
                cdv == clusters_of(text@),
                cdv.flatten() == text@,
                forall|k: int| 0 <= k < cdv.len() ==> (#[trigger] cdv[k]).len() > 0,
                cls.deep_view() == cdv,
                n == cls@.len(),
                pos == cdv.take(i as int).flatten().len(),
                offsets@.len() == i,
                forall|k: int| 0 <= k < i ==> (#[trigger] offsets@[k]) == cdv.take(
                    k,
                ).flatten().len(),
            decreases n - i,
        {
            let l = cls[i].as_str().unicode_len();
            offsets.push(pos);
            proof {
                assert(cls[i as int]@ == cdv[i as int]);
                assert(cdv.take(i + 1) =~= cdv.take(i as int).push(cdv[i as int]));
                cdv.take(i as int).lemma_flatten_push(cdv[i as int]);
                lemma_flatten_take_le(cdv, i + 1);
            }
            pos = pos + l;
            i = i + 1;
        }
        proof {
            let off = offsets@;
            assert forall|a: int, b: int| 0 <= a < b < off.len() implies off[a] < off[b] by {
                lemma_starts_increase(cdv, a, b);
            }
            assert forall|a: int| 0 <= a < off.len() implies (#[trigger] off[a])
                < text@.len() by {
                lemma_starts_increase(cdv, a, cdv.len() as int);
                assert(cdv.take(cdv.len() as int) =~= cdv);
            }
            if text@.len() > 0 {
                assert(off.len() > 0) by {
                    if cdv.len() == 0 {
                        assert(cdv.flatten() =~= Seq::<char>::empty());
                    }
                }
                assert(cdv.take(0).flatten() =~= Seq::<char>::empty());
                assert(off[0] == 0);
            }
            if text@.len() == 0 {
                assert(off.len() == 0) by {
                    if cdv.len() > 0 {
                        lemma_starts_increase(cdv, 0, cdv.len() as int);
                        assert(cdv.take(cdv.len() as int) =~= cdv);
                    }
                }
            }
            assert(off.map_values(|x: usize| x as int) =~= spec_cluster_starts(cdv));
            assert(off =~= spec_starts_u(cdv));
        }
        GraphemeCursor { offsets }
    }

    /// The smallest recorded offset strictly greater than `pos`.
    pub fn next_grapheme(&self, pos: usize) -> (r: Option<usize>)
        ensures
            r == spec_next(self@, pos as int),
    {
        let n = self.offsets.len();
        let mut i: usize = 0;
        loop
            invariant
                0 <= i <= n,
                n == self.offsets@.len(),
                forall|k: int| 0 <= k < i ==> (#[trigger] self.offsets@[k]) <= pos,
            ensures
                0 <= i <= n,
                forall|k: int| 0 <= k < i ==> (#[trigger] self.offsets@[k]) <= pos,
                i < n ==> self.offsets@[i as int] > pos,
            decreases n - i,
        {
            if i >= n {
                break;
            }
            if self.offsets[i] > pos {
                break;
            }
            i = i + 1;
        }
        proof {
            lemma_spec_next_at(self.offsets@, pos as int, i as int);
        }
        if i < n {
            Some(self.offsets[i])
        } else {
            None
        }
    }

    /// The largest recorded offset strictly less than `pos`.
    pub fn prev_grapheme(&self, pos: usize) -> (r: Option<usize>)
        ensures
            r == spec_prev(self@, pos as int),
    {
        let n = self.offsets.len();
        let mut i: usize = n;
        loop
            invariant
                0 <= i <= n,
                n == self.offsets@.len(),
                forall|k: int| i <= k < n ==> (#[trigger] self.offsets@[k]) >= pos,
            ensures
                0 <= i <= n,
                forall|k: int| i <= k < n ==> (#[trigger] self.offsets@[k]) >= pos,
                i > 0 ==> self.offsets@[i - 1] < pos,
            decreases i,
        {
            if i == 0 {
                break;
            }
            if self.offsets[i - 1] < pos {
                break;
            }
            i = i - 1;
        }
        proof {
            lemma_spec_prev_at(self.offsets@, pos as int, i as int);
        }
        if i > 0 {
            Some(self.offsets[i - 1])
        } else {
            None
        }
    }

    /// Whether `pos` is a recorded cluster-start offset.
    pub fn is_recorded(&self, pos: usize) -> (r: bool)
        ensures
            r == self@.contains(pos),
    {
        let n = self.offsets.len();
        let mut i: usize = 0;
        loop
            invariant
                0 <= i <= n,
                n == self.offsets@.len(),
                forall|k: int| 0 <= k < i ==> (#[trigger] self.offsets@[k]) != pos,
            ensures
                (i < n && self.offsets@[i as int] == pos) || (i == n && forall|k: int|
                    0 <= k < n ==> (#[trigger] self.offsets@[k]) != pos),
            decreases n - i,
        {
            if i >= n {
                break;
            }
            if self.offsets[i] == pos {
                break;
            }
            i = i + 1;
        }
        if i < n {
            proof {
                assert(self@.contains(pos));
            }
            true
        } else {
            proof {
                assert(!self@.contains(pos)) by {
                    if self@.contains(pos) {
                        let k = choose|k: int| 0 <= k < self@.len() && self@[k] == pos;
                        assert(self.offsets@[k] != pos);
                    }
                }
            }
            false
        }
    }

    /// The index of the cluster that starts at `pos`, if any.
    pub fn index_of(&self, pos: usize) -> (r: Option<usize>)
        ensures
            r matches Some(i) ==> i < self@.len() && self@[i as int] == pos,
            r is None ==> !self@.contains(pos),
    {
        let n = self.offsets.len();
        let mut i: usize = 0;
        loop
            invariant
                0 <= i <= n,
                n == self.offsets@.len(),
                forall|k: int| 0 <= k < i ==> (#[trigger] self.offsets@[k]) != pos,
            ensures
                (i < n && self.offsets@[i as int] == pos) || (i == n && forall|k: int|
                    0 <= k < n ==> (#[trigger] self.offsets@[k]) != pos),
            decreases n - i,
        {
            if i >= n {
                break;
            }
            if self.offsets[i] == pos {
                break;
            }
            i = i + 1;
        }
        if i < n {
            Some(i)
        } else {
            proof {
                assert(!self@.contains(pos)) by {
                    if self@.contains(pos) {
                        let k = choose|k: int| 0 <= k < self@.len() && self@[k] == pos;
                        assert(self.offsets@[k] != pos);
                    }
                }
            }
            None
        }
    }
}

/// What `spec_next` returns is a recorded offset strictly greater than the
/// probe position.
pub proof fn lemma_spec_next_member(off: Seq<usize>, pos: int)
    ensures
        spec_next(off, pos) matches Some(x) ==> off_contains(off, x as int) && x > pos,
    decreases off.len(),
{
    if off.len() > 0 {
        if off[0] > pos {
            assert(off_contains(off, off[0] as int));
        } else {
            lemma_spec_next_member(off.drop_first(), pos);
            match spec_next(off.drop_first(), pos) {
                Some(x) => {
                    let i = choose|i: int|
                        0 <= i < off.drop_first().len() && off.drop_first()[i] == x as int;
                    assert(off[i + 1] == x);
                    assert(off_contains(off, x as int));
                },
                None => {},
            }
        }
    }
}

/// When every recorded offset is at most the probe position, there is no next
/// offset.
pub proof fn lemma_spec_next_none(off: Seq<usize>, pos: int)
    requires
        forall|k: int| 0 <= k < off.len() ==> (#[trigger] off[k]) <= pos,
    ensures
        spec_next(off, pos) is None,
    decreases off.len(),
{
    if off.len() > 0 {
        assert forall|k: int| 0 <= k < off.drop_first().len() implies (
        #[trigger] off.drop_first()[k]) <= pos by {
            assert(off.drop_first()[k] == off[k + 1]);
        }
        lemma_spec_next_none(off.drop_first(), pos);
    }
}

proof fn lemma_flatten_take_le(cls: Seq<Seq<char>>, i: int)
    requires
        0 <= i <= cls.len(),
    ensures
        cls.take(i).flatten().len() <= cls.flatten().len(),
    decreases cls.len() - i,
{
    if i == cls.len() {
        assert(cls.take(i) =~= cls);
    } else {
        assert(cls.take(i + 1) =~= cls.take(i).push(cls[i]));
        cls.take(i).lemma_flatten_push(cls[i]);
        lemma_flatten_take_le(cls, i + 1);
    }
}

/// Within a decomposition of nonempty clusters, cluster starts strictly
/// increase with the cluster index.
proof fn lemma_starts_increase(cls: Seq<Seq<char>>, a: int, b: int)
    requires
        0 <= a < b <= cls.len(),
        forall|k: int| 0 <= k < cls.len() ==> (#[trigger] cls[k]).len() > 0,
    ensures
        cls.take(a).flatten().len() < cls.take(b).flatten().len(),
    decreases b - a,
{
    assert(cls.take(a + 1) =~= cls.take(a).push(cls[a]));
    cls.take(a).lemma_flatten_push(cls[a]);
    if a + 1 < b {
        lemma_starts_increase(cls, a + 1, b);
    }
}

} // verus!
