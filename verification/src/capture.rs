//! Plain-value model of tree-sitter query matches.

use vstd::prelude::*;

verus! {

/// One capture of a query match: the index of its capture name in the
/// query, and the byte range of the captured node in the source.
#[derive(Clone, Copy)]
pub struct Capture {
    pub index: u32,
    pub start: usize,
    pub end: usize,
}

/// One query match: its captures, in the order that tree-sitter gives them.
pub struct MatchData {
    pub captures: Vec<Capture>,
}

/// A capture is well formed for a query with `n_names` capture names when
/// its name index is in range and its node does not end before it starts.
pub open spec fn capture_wf(c: Capture, n_names: nat) -> bool {
    &&& (c.index as nat) < n_names
    &&& c.start <= c.end
}

/// Every capture of every match is well formed.
pub open spec fn matches_wf(ms: Seq<MatchData>, n_names: nat) -> bool {
    forall|i: int, j: int|
        0 <= i < ms.len() && 0 <= j < ms[i].captures@.len() ==> capture_wf(
            #[trigger] ms[i].captures@[j],
            n_names,
        )
}

/// Every captured node ends no earlier than it starts.
pub open spec fn matches_ordered(ms: Seq<MatchData>) -> bool {
    forall|i: int, j: int|
        0 <= i < ms.len() && 0 <= j < ms[i].captures@.len() ==> (#[trigger] ms[i].captures@[j]).start
            <= ms[i].captures@[j].end
}

/// Every captured node lies within a source of `src_len` bytes.
pub open spec fn matches_within(ms: Seq<MatchData>, src_len: nat) -> bool {
    forall|i: int, j: int|
        0 <= i < ms.len() && 0 <= j < ms[i].captures@.len() ==> (#[trigger] ms[i].captures@[j]).end
            <= src_len
}

/// All captures of all matches, in order.
pub open spec fn all_captures(ms: Seq<MatchData>) -> Seq<Capture>
    decreases ms.len(),
{
    if ms.len() == 0 {
        seq![]
    } else {
        all_captures(ms.drop_last()) + ms.last().captures@
    }
}

/// Whether `all_captures(ms.take(i))` is a prefix of `all_captures(ms)`.
pub proof fn lemma_all_captures_prefix(ms: Seq<MatchData>, i: int)
    requires
        0 <= i <= ms.len(),
    ensures
        all_captures(ms.take(i)).len() <= all_captures(ms).len(),
        forall|k: int|
            0 <= k < all_captures(ms.take(i)).len() ==> #[trigger] all_captures(ms.take(i))[k]
                == all_captures(ms)[k],
    decreases ms.len(),
{
    if i == ms.len() {
        assert(ms.take(i) =~= ms);
    } else {
        assert(ms.take(i) =~= ms.drop_last().take(i));
        lemma_all_captures_prefix(ms.drop_last(), i);
    }
}

/// Every capture of well-formed matches is well formed.
pub proof fn lemma_all_captures_wf(ms: Seq<MatchData>, n_names: nat)
    requires
        matches_wf(ms, n_names),
    ensures
        forall|k: int|
            0 <= k < all_captures(ms).len() ==> capture_wf(#[trigger] all_captures(ms)[k], n_names),
    decreases ms.len(),
{
    if ms.len() > 0 {
        let init = ms.drop_last();
        assert(matches_wf(init, n_names)) by {
            assert forall|i: int, j: int|
                0 <= i < init.len() && 0 <= j < init[i].captures@.len() implies capture_wf(
                #[trigger] init[i].captures@[j],
                n_names,
            ) by {
                assert(init[i] == ms[i]);
            }
        }
        lemma_all_captures_wf(init, n_names);
        let last = ms.last().captures@;
        let pre = all_captures(init);
        assert forall|k: int| 0 <= k < all_captures(ms).len() implies capture_wf(
            #[trigger] all_captures(ms)[k],
            n_names,
        ) by {
            if k < pre.len() {
                assert(all_captures(ms)[k] == pre[k]);
            } else {
                assert(all_captures(ms)[k] == last[k - pre.len()]);
                assert(ms[ms.len() - 1].captures@[k - pre.len()] == last[k - pre.len()]);
            }
        }
    }
}

/// Adding one match adds its captures at the end.
pub proof fn lemma_all_captures_step(ms: Seq<MatchData>, i: int)
    requires
        0 <= i < ms.len(),
    ensures
        all_captures(ms.take(i + 1)) == all_captures(ms.take(i)) + ms[i].captures@,
{
    assert(ms.take(i + 1).drop_last() =~= ms.take(i));
}

} // verus!
