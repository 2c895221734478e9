//! Non-Maximum Suppression and Averaging.
//!
//! Single-Shot MultiBox Detectors produce duplicate detections for
//! individual objects. Non-Maximum Suppression filters these duplicates out,
//! leaving a single detection with high confidence for each object.
//!
//! Two variants are offered, selected with [`SuppressionMode`]: the classic
//! algorithm that removes any overlapping detection of lower confidence, and
//! Non-Maximum Averaging, which instead merges the overlapping detections
//! into a weighted average. The latter reduces jitter between frames and is
//! the default.
//!
//! The detections themselves stay with the caller. This module works on
//! their indices, on one integer key for each detection that orders the
//! detections by confidence, and on the caller's test of whether two
//! detections overlap. It says which detections form a cluster; the caller
//! merges them.

use vstd::prelude::*;

verus! {

/// Describes how [`NonMaxSuppression`] deals with overlapping detections.
#[derive(PartialEq, Eq, Structural, Clone, Copy, Debug)]
pub enum SuppressionMode {
    /// Remove overlapping detections, only retain the detection with the
    /// highest confidence.
    Remove,
    /// Merge overlapping detections into a confidence-weighted average.
    Average,
}

/// A non-maximum suppression algorithm.
pub struct NonMaxSuppression {
    mode: SuppressionMode,
}

/// Detection `a` comes before detection `b` when the detections are put in
/// ascending order of confidence; of two with the same key the one with the
/// smaller index comes first.
pub open spec fn ranks_below(keys: Seq<u32>, a: usize, b: usize) -> bool {
    keys[a as int] < keys[b as int] || (keys[a as int] == keys[b as int] && a < b)
}

/// `list` holds indices of detections, in ascending order of confidence.
pub open spec fn is_ascending(keys: Seq<u32>, list: Seq<usize>) -> bool {
    &&& forall|p: int| 0 <= p < list.len() ==> #[trigger] list[p] < keys.len()
    &&& forall|p: int, q: int|
        0 <= p < q < list.len() ==> ranks_below(keys, #[trigger] list[p], #[trigger] list[q])
}

/// `list` holds every index of `keys` once, in ascending order of
/// confidence.
pub open spec fn is_ranking(keys: Seq<u32>, list: Seq<usize>) -> bool {
    &&& is_ascending(keys, list)
    &&& forall|i: usize| i < keys.len() ==> list.contains(i)
}

/// The index `i` stands in one of the groups.
pub open spec fn in_groups(groups: Seq<Seq<usize>>, i: usize) -> bool {
    exists|c: int, k: int|
        0 <= c < groups.len() && 0 <= k < groups[c].len() && #[trigger] groups[c][k] == i
}

/// What the groups hold, as sequences.
pub open spec fn groups_of(clusters: Seq<Vec<usize>>) -> Seq<Seq<usize>> {
    Seq::new(clusters.len(), |c: int| clusters[c]@)
}

/// Every group has a seed, and holds indices of `keys`.
pub open spec fn groups_in_range(keys: Seq<u32>, groups: Seq<Seq<usize>>) -> bool {
    &&& forall|c: int| 0 <= c < groups.len() ==> (#[trigger] groups[c]).len() >= 1
    &&& forall|c: int, k: int|
        0 <= c < groups.len() && 0 <= k < groups[c].len() ==> #[trigger] groups[c][k] < keys.len()
}

/// No index stands in the groups twice.
pub open spec fn groups_distinct(groups: Seq<Seq<usize>>) -> bool {
    forall|c: int, k: int, d: int, l: int|
        0 <= c < groups.len() && 0 <= k < groups[c].len() && 0 <= d < groups.len() && 0 <= l
            < groups[d].len() && (c != d || k != l) ==> #[trigger] groups[c][k]
            != #[trigger] groups[d][l]
}

/// The seed of each group ranks above every other detection of its group
/// and of the groups after it.
pub open spec fn seeds_rank_highest(keys: Seq<u32>, groups: Seq<Seq<usize>>) -> bool {
    forall|c: int, d: int, l: int|
        0 <= c < groups.len() && c <= d < groups.len() && 0 <= l < groups[d].len() && (c != d || l
            != 0) ==> ranks_below(keys, #[trigger] groups[d][l], #[trigger] groups[c][0])
}

/// Each detection that follows the seed in its group was found to overlap
/// the seed.
pub open spec fn members_overlap<F: Fn(usize, usize) -> bool>(
    overlap: F,
    groups: Seq<Seq<usize>>,
) -> bool {
    forall|c: int, k: int|
        0 <= c < groups.len() && 1 <= k < groups[c].len() ==> call_ensures(
            overlap,
            (groups[c][0], #[trigger] groups[c][k]),
            true,
        )
}

/// Each detection of a later group was found not to overlap the seed of an
/// earlier group.
pub open spec fn later_apart<F: Fn(usize, usize) -> bool>(
    overlap: F,
    groups: Seq<Seq<usize>>,
) -> bool {
    forall|c: int, d: int, l: int|
        0 <= c < d < groups.len() && 0 <= l < groups[d].len() ==> call_ensures(
            overlap,
            (#[trigger] groups[c][0], #[trigger] groups[d][l]),
            false,
        )
}

/// The detections that follow the seed in a group stand in ascending order
/// of confidence.
pub open spec fn members_ascending(keys: Seq<u32>, groups: Seq<Seq<usize>>) -> bool {
    forall|c: int, k: int, l: int|
        0 <= c < groups.len() && 1 <= k < l < groups[c].len() ==> ranks_below(
            keys,
            #[trigger] groups[c][k],
            #[trigger] groups[c][l],
        )
}

/// `groups` are the clusters that suppression forms of the detections with
/// keys `keys` under the overlap test `overlap`.
///
/// Each group starts with its seed, the detection that ranks highest among
/// all that stand in no earlier group. After the seed come the detections,
/// in ascending order, that stand in no earlier group and overlap the seed.
/// No detection of a later group overlaps the seed. Every detection stands
/// in one group.
pub open spec fn is_clustering<F: Fn(usize, usize) -> bool>(
    keys: Seq<u32>,
    overlap: F,
    groups: Seq<Seq<usize>>,
) -> bool {
    &&& groups_in_range(keys, groups)
    &&& groups_distinct(groups)
    &&& forall|i: usize| i < keys.len() ==> in_groups(groups, i)
    &&& seeds_rank_highest(keys, groups)
    &&& members_overlap(overlap, groups)
    &&& later_apart(overlap, groups)
    &&& members_ascending(keys, groups)
}

/// What is emitted for the clusters `groups` in the given mode: the seed
/// alone where overlapping detections are removed, the whole cluster where
/// they are merged.
pub open spec fn emitted(mode: SuppressionMode, groups: Seq<Seq<usize>>) -> Seq<Seq<usize>> {
    match mode {
        SuppressionMode::Remove => Seq::new(groups.len(), |c: int| seq![groups[c][0]]),
        SuppressionMode::Average => groups,
    }
}

/// The detections `rest` are those that stand in none of `groups`, and none
/// of them overlaps or outranks a seed.
spec fn left_over<F: Fn(usize, usize) -> bool>(
    keys: Seq<u32>,
    overlap: F,
    groups: Seq<Seq<usize>>,
    rest: Seq<usize>,
) -> bool {
    &&& is_ascending(keys, rest)
    &&& forall|i: usize| i < keys.len() ==> rest.contains(i) || in_groups(groups, i)
    &&& forall|c: int, k: int, p: int|
        0 <= c < groups.len() && 0 <= k < groups[c].len() && 0 <= p < rest.len()
            ==> #[trigger] groups[c][k] != #[trigger] rest[p]
    &&& forall|c: int, p: int|
        0 <= c < groups.len() && 0 <= p < rest.len() ==> ranks_below(
            keys,
            #[trigger] rest[p],
            #[trigger] groups[c][0],
        )
    &&& forall|c: int, p: int|
        0 <= c < groups.len() && 0 <= p < rest.len() ==> call_ensures(
            overlap,
            (#[trigger] groups[c][0], #[trigger] rest[p]),
            false,
        )
}

/// The first `upto` entries of `rest` are dealt out, in order, to `group`
/// (behind its seed) and to `kept`: `joined` and `stayed` say from which
/// place in `rest` each entry came.
spec fn is_split(
    rest: Seq<usize>,
    upto: int,
    group: Seq<usize>,
    kept: Seq<usize>,
    joined: Seq<int>,
    stayed: Seq<int>,
) -> bool {
    &&& group.len() == joined.len() + 1
    &&& kept.len() == stayed.len()
    &&& forall|a: int|
        0 <= a < joined.len() ==> 0 <= #[trigger] joined[a] < upto && group[a + 1]
            == rest[joined[a]]
    &&& forall|b: int|
        0 <= b < stayed.len() ==> 0 <= #[trigger] stayed[b] < upto && kept[b] == rest[stayed[b]]
    &&& forall|a: int, b: int| 0 <= a < b < joined.len() ==> #[trigger] joined[a] < #[trigger] joined[b]
    &&& forall|a: int, b: int| 0 <= a < b < stayed.len() ==> #[trigger] stayed[a] < #[trigger] stayed[b]
    &&& forall|a: int, b: int|
        0 <= a < joined.len() && 0 <= b < stayed.len() ==> #[trigger] joined[a]
            != #[trigger] stayed[b]
    &&& forall|p: int| 0 <= p < upto ==> joined.contains(p) || stayed.contains(p)
}

/// The overlap test said yes for each entry of `group` behind the seed and
/// no for each entry of `kept`.
spec fn is_sorted_out<F: Fn(usize, usize) -> bool>(
    overlap: F,
    group: Seq<usize>,
    kept: Seq<usize>,
) -> bool {
    &&& forall|k: int|
        1 <= k < group.len() ==> call_ensures(overlap, (group[0], #[trigger] group[k]), true)
    &&& forall|k: int|
        0 <= k < kept.len() ==> call_ensures(overlap, (group[0], #[trigger] kept[k]), false)
}

/// Puts the indices of `keys` in ascending order of confidence.
pub fn rank(keys: &[u32]) -> (list: Vec<usize>)
    ensures
        is_ranking(keys@, list@),
        list@.len() == keys@.len(),
{
    let mut list: Vec<usize> = Vec::new();
    let mut i: usize = 0;
    while i < keys.len()
        invariant
            i <= keys@.len(),
            list@.len() == i,
            is_ascending(keys@, list@),
            forall|p: int| 0 <= p < list@.len() ==> #[trigger] list@[p] < i,
            forall|j: usize| j < i ==> list@.contains(j),
        decreases keys@.len() - i,
    {
        // the entries behind `at` rank above `i`
        let mut at: usize = list.len();
        while at > 0 && keys[list[at - 1]] > keys[i]
            invariant
                at <= list@.len(),
                i < keys@.len(),
                list@.len() == i,
                is_ascending(keys@, list@),
                forall|p: int| 0 <= p < list@.len() ==> #[trigger] list@[p] < i,
                forall|p: int| at <= p < list@.len() ==> keys@[i as int] < keys@[#[trigger] list@[p] as int],
            decreases at,
        {
            at -= 1;
        }
        let ghost before = list@;
        list.insert(at, i);
        proof {
            assert forall|p: int, q: int| 0 <= p < q < list@.len() implies ranks_below(
                keys@,
                #[trigger] list@[p],
                #[trigger] list@[q],
            ) by {
                let bp = if p < at { p } else { p - 1 };
                let bq = if q < at { q } else { q - 1 };
                if p == at {
                    assert(list@[q] == before[bq]);
                } else if q == at {
                    assert(list@[p] == before[bp]);
                    if at > 0 {
                        assert(ranks_below(keys@, before[bp], before[at - 1]) || bp == at - 1);
                    }
                } else {
                    assert(list@[p] == before[bp] && list@[q] == before[bq]);
                }
            }
            assert forall|j: usize| j < i + 1 implies list@.contains(j) by {
                if j == i {
                    assert(list@[at as int] == j);
                } else {
                    assert(before.contains(j));
                    let p = choose|p: int| 0 <= p < before.len() && before[p] == j;
                    if p < at {
                        assert(list@[p] == j);
                    } else {
                        assert(list@[p + 1] == j);
                    }
                }
            }
        }
        i += 1;
    }
    list
}

impl NonMaxSuppression {
    /// The mode in which overlapping detections are dealt with.
    pub closed spec fn spec_mode(&self) -> SuppressionMode {
        self.mode
    }

    /// Creates a new non-maximum suppressor, which merges overlapping
    /// detections.
    pub fn new() -> (nms: Self)
        ensures
            nms.spec_mode() == SuppressionMode::Average,
    {
        Self { mode: SuppressionMode::Average }
    }

    /// Sets the suppression mode.
    pub fn set_mode(&mut self, mode: SuppressionMode)
        ensures
            final(self).spec_mode() == mode,
    {
        self.mode = mode;
    }

    /// Returns the suppression mode.
    #[verifier::when_used_as_spec(spec_mode)]
    pub fn mode(&self) -> (mode: SuppressionMode)
        ensures
            mode == self.spec_mode(),
    {
        self.mode
    }

    /// Forms the clusters of the detections with keys `keys`: repeatedly,
    /// the detection that ranks highest among those left becomes the seed of
    /// a cluster, and the detections left that overlap it join the cluster.
    ///
    /// `overlap(seed, other)` is asked once for each seed and each detection
    /// that is left when the seed is chosen.
    pub fn cluster<F: Fn(usize, usize) -> bool>(keys: &[u32], overlap: F) -> (clusters: Vec<
        Vec<usize>,
    >)
        requires
            forall|a: usize, b: usize|
                a < keys@.len() && b < keys@.len() ==> call_requires(overlap, (a, b)),
        ensures
            is_clustering(keys@, overlap, groups_of(clusters@)),
    {
        let mut remaining = rank(keys);
        let mut clusters: Vec<Vec<usize>> = Vec::new();
        let ghost mut groups: Seq<Seq<usize>> = Seq::empty();
        while remaining.len() > 0
            invariant
                groups == groups_of(clusters@),
                forall|a: usize, b: usize|
                    a < keys@.len() && b < keys@.len() ==> call_requires(overlap, (a, b)),
                left_over(keys@, overlap, groups, remaining@),
                groups_in_range(keys@, groups),
                groups_distinct(groups),
                seeds_rank_highest(keys@, groups),
                members_overlap(overlap, groups),
                later_apart(overlap, groups),
                members_ascending(keys@, groups),
            decreases remaining@.len(),
        {
            let ghost rest = remaining@;
            let count = remaining.len() - 1;
            let seed = remaining[count];
            let mut members: Vec<usize> = Vec::new();
            members.push(seed);
            let mut kept: Vec<usize> = Vec::new();
            let ghost mut joined: Seq<int> = Seq::empty();
            let ghost mut stayed: Seq<int> = Seq::empty();
            let mut q: usize = 0;
            while q < count
                invariant
                    q <= count,
                    count == rest.len() - 1,
                    remaining@ == rest,
                    seed == rest[count as int],
                    is_ascending(keys@, rest),
                    forall|a: usize, b: usize|
                        a < keys@.len() && b < keys@.len() ==> call_requires(overlap, (a, b)),
                    members@[0] == seed,
                    is_split(rest, q as int, members@, kept@, joined, stayed),
                    is_sorted_out(overlap, members@, kept@),
                decreases count - q,
            {
                let other = remaining[q];
                let ghost members_before = members@;
                let ghost kept_before = kept@;
                let ghost joined_before = joined;
                let ghost stayed_before = stayed;
                if overlap(seed, other) {
                    members.push(other);
                    proof {
                        joined = joined.push(q as int);
                        assert forall|p: int| 0 <= p < q + 1 implies joined.contains(p)
                            || stayed.contains(p) by {
                            if p == q {
                                assert(joined[joined.len() - 1] == p);
                            } else if joined_before.contains(p) {
                                let a = choose|a: int|
                                    0 <= a < joined_before.len() && joined_before[a] == p;
                                assert(joined[a] == p);
                            }
                        }
                        assert forall|a: int| 0 <= a < joined.len() implies 0 <= #[trigger] joined[a]
                            < q + 1 && members@[a + 1] == rest[joined[a]] by {
                            if a < joined_before.len() {
                                assert(joined[a] == joined_before[a]);
                                assert(members@[a + 1] == members_before[a + 1]);
                            }
                        }
                        assert forall|a: int, b: int| 0 <= a < b < joined.len() implies #[trigger] joined[a]
                            < #[trigger] joined[b] by {
                            assert(joined[a] == joined_before[a]);
                            if b < joined_before.len() {
                                assert(joined[b] == joined_before[b]);
                            }
                        }
                        assert forall|a: int, b: int|
                            0 <= a < joined.len() && 0 <= b < stayed.len() implies #[trigger] joined[a]
                            != #[trigger] stayed[b] by {
                            if a < joined_before.len() {
                                assert(joined[a] == joined_before[a]);
                            }
                        }
                        assert forall|k: int| 1 <= k < members@.len() implies call_ensures(
                            overlap,
                            (members@[0], #[trigger] members@[k]),
                            true,
                        ) by {
                            if k < members_before.len() {
                                assert(members@[k] == members_before[k]);
                            }
                        }
                    }
                } else {
                    kept.push(other);
                    proof {
                        stayed = stayed.push(q as int);
                        assert forall|p: int| 0 <= p < q + 1 implies joined.contains(p)
                            || stayed.contains(p) by {
                            if p == q {
                                assert(stayed[stayed.len() - 1] == p);
                            } else if stayed_before.contains(p) {
                                let a = choose|a: int|
                                    0 <= a < stayed_before.len() && stayed_before[a] == p;
                                assert(stayed[a] == p);
                            }
                        }
                        assert forall|b: int| 0 <= b < stayed.len() implies 0 <= #[trigger] stayed[b]
                            < q + 1 && kept@[b] == rest[stayed[b]] by {
                            if b < stayed_before.len() {
                                assert(stayed[b] == stayed_before[b]);
                                assert(kept@[b] == kept_before[b]);
                            }
                        }
                        assert forall|a: int, b: int| 0 <= a < b < stayed.len() implies #[trigger] stayed[a]
                            < #[trigger] stayed[b] by {
                            assert(stayed[a] == stayed_before[a]);
                            if b < stayed_before.len() {
                                assert(stayed[b] == stayed_before[b]);
                            }
                        }
                        assert forall|a: int, b: int|
                            0 <= a < joined.len() && 0 <= b < stayed.len() implies #[trigger] joined[a]
                            != #[trigger] stayed[b] by {
                            if b < stayed_before.len() {
                                assert(stayed[b] == stayed_before[b]);
                            }
                        }
                        assert forall|k: int| 0 <= k < kept@.len() implies call_ensures(
                            overlap,
                            (members@[0], #[trigger] kept@[k]),
                            false,
                        ) by {
                            if k < kept_before.len() {
                                assert(kept@[k] == kept_before[k]);
                            }
                        }
                    }
                }
                q += 1;
            }
            let ghost old_groups = groups;
            proof {
                groups = groups.push(members@);
                lemma_step_groups(keys@, overlap, old_groups, rest, members@, kept@, joined, stayed);
                lemma_step_left_over(
                    keys@,
                    overlap,
                    old_groups,
                    rest,
                    members@,
                    kept@,
                    joined,
                    stayed,
                );
            }
            clusters.push(members);
            remaining = kept;
            assert(groups =~= groups_of(clusters@));
        }
        proof {
            assert forall|i: usize| i < keys@.len() implies in_groups(groups, i) by {
                assert(remaining@.contains(i) || in_groups(groups, i));
            }
        }
        clusters
    }

    /// Performs non-maximum suppression on the detections with keys `keys`.
    ///
    /// For each detection to emit, in descending order of confidence, the
    /// result holds the detections it is made of. Where overlapping
    /// detections are removed, that is the cluster's seed alone: it is
    /// emitted unchanged. Where they are merged, it is the whole cluster, the
    /// seed first: what is emitted has the seed's confidence and the
    /// weighted average of the cluster's geometry.
    pub fn process<F: Fn(usize, usize) -> bool>(&self, keys: &[u32], overlap: F) -> (result: Vec<
        Vec<usize>,
    >)
        requires
            forall|a: usize, b: usize|
                a < keys@.len() && b < keys@.len() ==> call_requires(overlap, (a, b)),
        ensures
            exists|groups: Seq<Seq<usize>>|
                #[trigger] is_clustering(keys@, overlap, groups) && groups_of(result@) == emitted(
                    self.spec_mode(),
                    groups,
                ),
            forall|c: int, d: int|
                0 <= c < d < result@.len() ==> call_ensures(
                    overlap,
                    (#[trigger] result@[c]@[0], #[trigger] result@[d]@[0]),
                    false,
                ),
            forall|c: int, k: int|
                0 <= c < result@.len() && 1 <= k < result@[c]@.len() ==> ranks_below(
                    keys@,
                    #[trigger] result@[c]@[k],
                    result@[c]@[0],
                ),
    {
        let clusters = Self::cluster(keys, overlap);
        let ghost groups = groups_of(clusters@);
        match self.mode {
            SuppressionMode::Average => {
                proof {
                    assert forall|c: int, d: int| 0 <= c < d < clusters@.len() implies call_ensures(
                        overlap,
                        (#[trigger] clusters@[c]@[0], #[trigger] clusters@[d]@[0]),
                        false,
                    ) by {
                        assert(call_ensures(overlap, (groups[c][0], groups[d][0]), false));
                    }
                    assert forall|c: int, k: int|
                        0 <= c < clusters@.len() && 1 <= k < clusters@[c]@.len() implies ranks_below(
                        keys@,
                        #[trigger] clusters@[c]@[k],
                        clusters@[c]@[0],
                    ) by {
                        assert(ranks_below(keys@, groups[c][k], groups[c][0]));
                    }
                }
                clusters
            },
            SuppressionMode::Remove => {
                let mut seeds: Vec<Vec<usize>> = Vec::new();
                let mut c: usize = 0;
                while c < clusters.len()
                    invariant
                        c <= clusters@.len(),
                        groups == groups_of(clusters@),
                        is_clustering(keys@, overlap, groups),
                        seeds@.len() == c,
                        forall|d: int| 0 <= d < c ==> (#[trigger] seeds@[d])@ == seq![groups[d][0]],
                    decreases clusters@.len() - c,
                {
                    assert(groups[c as int].len() >= 1);
                    assert(groups[c as int] == clusters@[c as int]@);
                    let mut alone: Vec<usize> = Vec::new();
                    alone.push(clusters[c][0]);
                    assert(alone@ =~= seq![groups[c as int][0]]);
                    seeds.push(alone);
                    c += 1;
                }
                proof {
                    assert(groups_of(seeds@) =~= emitted(SuppressionMode::Remove, groups));
                    assert forall|a: int, d: int| 0 <= a < d < seeds@.len() implies call_ensures(
                        overlap,
                        (#[trigger] seeds@[a]@[0], #[trigger] seeds@[d]@[0]),
                        false,
                    ) by {
                        assert(call_ensures(overlap, (groups[a][0], groups[d][0]), false));
                    }
                }
                seeds
            },
        }
    }
}


/// Where the overlap test answers by a relation `overlaps`, no seed of a
/// cluster overlaps the seed of a later cluster: after suppression, no two
/// surviving detections overlap, the one of higher rank taken first.
pub proof fn lemma_survivors_apart<F: Fn(usize, usize) -> bool>(
    keys: Seq<u32>,
    overlap: F,
    overlaps: spec_fn(usize, usize) -> bool,
    groups: Seq<Seq<usize>>,
    c: int,
    d: int,
)
    requires
        is_clustering(keys, overlap, groups),
        forall|a: usize, b: usize, answer: bool|
            call_ensures(overlap, (a, b), answer) ==> answer == overlaps(a, b),
        0 <= c < d < groups.len(),
    ensures
        !overlaps(groups[c][0], groups[d][0]),
        groups[c][0] != groups[d][0],
        ranks_below(keys, groups[d][0], groups[c][0]),
{
    assert(groups[d].len() >= 1);
    assert(call_ensures(overlap, (groups[c][0], groups[d][0]), false));
}

/// Each entry of a list of numbers from 0 on that increase from entry to
/// entry is at least its place in the list.
proof fn lemma_increasing_from(list: Seq<int>, at: int)
    requires
        0 <= at < list.len(),
        forall|a: int| 0 <= a < list.len() ==> 0 <= #[trigger] list[a],
        forall|a: int, b: int| 0 <= a < b < list.len() ==> #[trigger] list[a] < #[trigger] list[b],
    ensures
        list[at] >= at,
    decreases at,
{
    if at > 0 {
        lemma_increasing_from(list, at - 1);
    }
}

/// The entries of an ascending list are distinct.
proof fn lemma_ascending_distinct(keys: Seq<u32>, list: Seq<usize>, p: int, q: int)
    requires
        is_ascending(keys, list),
        0 <= p < list.len(),
        0 <= q < list.len(),
        p != q,
    ensures
        list[p] != list[q],
{
    if p < q {
        assert(ranks_below(keys, list[p], list[q]));
    } else {
        assert(ranks_below(keys, list[q], list[p]));
    }
}

/// One round of clustering keeps the groups in order: with the new group
/// behind them, they are still clusters of the detections that stand in
/// them.
proof fn lemma_step_groups<F: Fn(usize, usize) -> bool>(
    keys: Seq<u32>,
    overlap: F,
    groups: Seq<Seq<usize>>,
    rest: Seq<usize>,
    group: Seq<usize>,
    kept: Seq<usize>,
    joined: Seq<int>,
    stayed: Seq<int>,
)
    requires
        rest.len() >= 1,
        group[0] == rest.last(),
        is_split(rest, rest.len() - 1, group, kept, joined, stayed),
        is_sorted_out(overlap, group, kept),
        left_over(keys, overlap, groups, rest),
        groups_in_range(keys, groups),
        groups_distinct(groups),
        seeds_rank_highest(keys, groups),
        members_overlap(overlap, groups),
        later_apart(overlap, groups),
        members_ascending(keys, groups),
    ensures
        groups_in_range(keys, groups.push(group)),
        groups_distinct(groups.push(group)),
        seeds_rank_highest(keys, groups.push(group)),
        members_overlap(overlap, groups.push(group)),
        later_apart(overlap, groups.push(group)),
        members_ascending(keys, groups.push(group)),
{
    let next = groups.push(group);
    let g = groups.len() as int;
    let last = rest.len() - 1;
    // each entry of the new group stands in `rest`, at `place(k)`
    let place = |k: int| if k == 0 { last } else { joined[k - 1] };
    assert forall|k: int| 0 <= k < group.len() implies 0 <= place(k) < rest.len() && rest[place(k)]
        == #[trigger] group[k] by {
        if k > 0 {
            assert(0 <= joined[k - 1] < last);
        }
    }
    assert(groups_in_range(keys, next)) by {
        assert forall|c: int, k: int|
            0 <= c < next.len() && 0 <= k < next[c].len() implies #[trigger] next[c][k]
            < keys.len() by {
            if c == g {
                assert(rest[place(k)] == group[k]);
            } else {
                assert(next[c] == groups[c]);
            }
        }
        assert forall|c: int| 0 <= c < next.len() implies (#[trigger] next[c]).len() >= 1 by {
            if c < g {
                assert(next[c] == groups[c]);
            }
        }
    }
    assert(groups_distinct(next)) by {
        assert forall|c: int, k: int, d: int, l: int|
            0 <= c < next.len() && 0 <= k < next[c].len() && 0 <= d < next.len() && 0 <= l
                < next[d].len() && (c != d || k != l) implies #[trigger] next[c][k]
            != #[trigger] next[d][l] by {
            if c == g && d == g {
                assert(rest[place(k)] == group[k]);
                assert(rest[place(l)] == group[l]);
                if k != 0 && l != 0 {
                    if k < l {
                        assert(joined[k - 1] < joined[l - 1]);
                    } else {
                        assert(joined[l - 1] < joined[k - 1]);
                    }
                }
                lemma_ascending_distinct(keys, rest, place(k), place(l));
            } else if c == g {
                assert(rest[place(k)] == group[k]);
                assert(groups[d][l] != rest[place(k)]);
            } else if d == g {
                assert(rest[place(l)] == group[l]);
                assert(groups[c][k] != rest[place(l)]);
            } else {
                assert(next[c] == groups[c] && next[d] == groups[d]);
            }
        }
    }
    assert(seeds_rank_highest(keys, next)) by {
        assert forall|c: int, d: int, l: int|
            0 <= c < next.len() && c <= d < next.len() && 0 <= l < next[d].len() && (c != d || l
                != 0) implies ranks_below(keys, #[trigger] next[d][l], #[trigger] next[c][0]) by {
            if d == g {
                assert(rest[place(l)] == group[l]);
                if c < g {
                    assert(ranks_below(keys, rest[place(l)], groups[c][0]));
                } else {
                    assert(ranks_below(keys, rest[place(l)], rest[last]));
                }
            } else {
                assert(next[c] == groups[c] && next[d] == groups[d]);
            }
        }
    }
    assert(members_overlap(overlap, next)) by {
        assert forall|c: int, k: int| 0 <= c < next.len() && 1 <= k < next[c].len() implies call_ensures(
            overlap,
            (next[c][0], #[trigger] next[c][k]),
            true,
        ) by {
            if c < g {
                assert(next[c] == groups[c]);
            }
        }
    }
    assert(later_apart(overlap, next)) by {
        assert forall|c: int, d: int, l: int|
            0 <= c < d < next.len() && 0 <= l < next[d].len() implies call_ensures(
            overlap,
            (#[trigger] next[c][0], #[trigger] next[d][l]),
            false,
        ) by {
            if d == g {
                assert(rest[place(l)] == group[l]);
                assert(call_ensures(overlap, (groups[c][0], rest[place(l)]), false));
            } else {
                assert(next[c] == groups[c] && next[d] == groups[d]);
            }
        }
    }
    assert(members_ascending(keys, next)) by {
        assert forall|c: int, k: int, l: int|
            0 <= c < next.len() && 1 <= k < l < next[c].len() implies ranks_below(
            keys,
            #[trigger] next[c][k],
            #[trigger] next[c][l],
        ) by {
            if c == g {
                assert(joined[k - 1] < joined[l - 1]);
                assert(rest[place(k)] == group[k]);
                assert(rest[place(l)] == group[l]);
                assert(ranks_below(keys, rest[joined[k - 1]], rest[joined[l - 1]]));
            } else {
                assert(next[c] == groups[c]);
            }
        }
    }
}

/// After one round of clustering, the detections that stayed are those
/// that stand in no group, and none of them overlaps or outranks a seed.
proof fn lemma_step_left_over<F: Fn(usize, usize) -> bool>(
    keys: Seq<u32>,
    overlap: F,
    groups: Seq<Seq<usize>>,
    rest: Seq<usize>,
    group: Seq<usize>,
    kept: Seq<usize>,
    joined: Seq<int>,
    stayed: Seq<int>,
)
    requires
        rest.len() >= 1,
        group[0] == rest.last(),
        is_split(rest, rest.len() - 1, group, kept, joined, stayed),
        is_sorted_out(overlap, group, kept),
        left_over(keys, overlap, groups, rest),
    ensures
        left_over(keys, overlap, groups.push(group), kept),
        kept.len() < rest.len(),
{
    if stayed.len() > 0 {
        lemma_increasing_from(stayed, stayed.len() - 1);
    }
    let next = groups.push(group);
    let g = groups.len() as int;
    let last = rest.len() - 1;
    let place = |k: int| if k == 0 { last } else { joined[k - 1] };
    assert forall|k: int| 0 <= k < group.len() implies 0 <= place(k) < rest.len() && rest[place(k)]
        == #[trigger] group[k] by {
        if k > 0 {
            assert(0 <= joined[k - 1] < last);
        }
    }
    assert forall|b: int| 0 <= b < kept.len() implies 0 <= stayed[b] < last && rest[stayed[b]]
        == #[trigger] kept[b] by {}
    assert(is_ascending(keys, kept)) by {
        assert forall|p: int| 0 <= p < kept.len() implies #[trigger] kept[p] < keys.len() by {
            assert(rest[stayed[p]] == kept[p]);
        }
        assert forall|p: int, q: int| 0 <= p < q < kept.len() implies ranks_below(
            keys,
            #[trigger] kept[p],
            #[trigger] kept[q],
        ) by {
            assert(stayed[p] < stayed[q]);
            assert(ranks_below(keys, rest[stayed[p]], rest[stayed[q]]));
        }
    }
    assert forall|i: usize| i < keys.len() implies kept.contains(i) || in_groups(next, i) by {
        if in_groups(groups, i) {
            let (c, k) = choose|c: int, k: int|
                0 <= c < groups.len() && 0 <= k < groups[c].len() && #[trigger] groups[c][k] == i;
            assert(next[c] == groups[c]);
            assert(next[c][k] == i);
        } else {
            assert(rest.contains(i));
            let p = choose|p: int| 0 <= p < rest.len() && rest[p] == i;
            if p == last {
                assert(next[g][0] == i);
            } else if joined.contains(p) {
                let a = choose|a: int| 0 <= a < joined.len() && joined[a] == p;
                assert(next[g][a + 1] == i);
            } else {
                assert(stayed.contains(p));
                let b = choose|b: int| 0 <= b < stayed.len() && stayed[b] == p;
                assert(kept[b] == i);
            }
        }
    }
    assert forall|c: int, k: int, p: int|
        0 <= c < next.len() && 0 <= k < next[c].len() && 0 <= p < kept.len() implies #[trigger] next[c][k]
        != #[trigger] kept[p] by {
        assert(rest[stayed[p]] == kept[p]);
        if c < g {
            assert(next[c] == groups[c]);
            assert(groups[c][k] != rest[stayed[p]]);
        } else {
            assert(rest[place(k)] == group[k]);
            if k > 0 {
                assert(joined[k - 1] != stayed[p]);
            }
            lemma_ascending_distinct(keys, rest, place(k), stayed[p]);
        }
    }
    assert forall|c: int, p: int| 0 <= c < next.len() && 0 <= p < kept.len() implies ranks_below(
        keys,
        #[trigger] kept[p],
        #[trigger] next[c][0],
    ) by {
        assert(rest[stayed[p]] == kept[p]);
        if c < g {
            assert(next[c] == groups[c]);
            assert(ranks_below(keys, rest[stayed[p]], groups[c][0]));
        } else {
            assert(ranks_below(keys, rest[stayed[p]], rest[last]));
        }
    }
    assert forall|c: int, p: int| 0 <= c < next.len() && 0 <= p < kept.len() implies call_ensures(
        overlap,
        (#[trigger] next[c][0], #[trigger] kept[p]),
        false,
    ) by {
        assert(rest[stayed[p]] == kept[p]);
        if c < g {
            assert(next[c] == groups[c]);
            assert(call_ensures(overlap, (groups[c][0], rest[stayed[p]]), false));
        }
    }
}

} // verus!
