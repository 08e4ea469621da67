use crate::accumulator::{lists_shards_seen, TenantRefAccumulator};
use crate::ids::{ShardCount, ShardIndex, TenantId, TenantShardId};
use crate::refs::AncestorRefs;
use crate::summary::{GcSummary, Tally};
use vstd::prelude::*;

verus! {

broadcast use vstd::seq_lib::group_to_multiset_ensures;

/// Whether `count` is the highest shard count among `shards`.
pub open spec fn is_latest_count(shards: Set<ShardIndex>, count: ShardCount) -> bool {
    &&& exists|shard: ShardIndex| #[trigger] shards.contains(shard) && shard.shard_count == count
    &&& forall|shard: ShardIndex| #[trigger]
        shards.contains(shard) ==> shard.shard_count.0 <= count.0
}

/// The highest shard count among `shards`.
pub open spec fn latest_count_of(shards: Set<ShardIndex>) -> ShardCount {
    choose|count: ShardCount| is_latest_count(shards, count)
}

/// The shards of a tenant at its highest shard count.
pub open spec fn latest_shards_of(shards: Set<ShardIndex>) -> Set<ShardIndex> {
    shards.filter(|shard: ShardIndex| shard.shard_count == latest_count_of(shards))
}

/// The shards of a tenant that were split into the latest ones.
pub open spec fn ancestor_shards_of(shards: Set<ShardIndex>) -> Set<ShardIndex> {
    shards.filter(|shard: ShardIndex| shard.shard_count != latest_count_of(shards))
}

/// Whether all the shards of a tenant at its highest shard count were seen.  This should
/// always be the case unless the bucket was scanned halfway through a shard split.
pub open spec fn is_complete(shards: Set<ShardIndex>) -> bool {
    latest_shards_of(shards).len() == latest_count_of(shards).shards()
}

/// Whether it looks as if a tenant had ancestor shards to clean up.
pub open spec fn has_ancestor_work(shards: Set<ShardIndex>) -> bool {
    is_complete(shards) && !ancestor_shards_of(shards).is_empty()
}

/// Only one shard count is the highest.
proof fn lemma_latest_count(shards: Set<ShardIndex>, count: ShardCount)
    requires
        is_latest_count(shards, count),
    ensures
        latest_count_of(shards) == count,
{
    let chosen = latest_count_of(shards);
    assert(is_latest_count(shards, chosen));
    let a = choose|shard: ShardIndex| #[trigger]
        shards.contains(shard) && shard.shard_count == count;
    let b = choose|shard: ShardIndex| #[trigger]
        shards.contains(shard) && shard.shard_count == chosen;
    assert(shards.contains(a) && shards.contains(b));
    assert(count.0 == chosen.0);
}

/// Finds the highest shard count.
fn latest_count(shards: &Vec<ShardIndex>) -> (count: ShardCount)
    requires
        shards@.len() > 0,
    ensures
        is_latest_count(shards@.to_set(), count),
        count == latest_count_of(shards@.to_set()),
{
    let mut count = shards[0].shard_count;
    assert(shards@.to_set().contains(shards@[0]));
    for i in 1..shards.len()
        invariant
            shards@.len() > 0,
            exists|shard: ShardIndex| #[trigger]
                shards@.to_set().contains(shard) && shard.shard_count == count,
            forall|j: int| 0 <= j < i ==> (#[trigger] shards@[j]).shard_count.0 <= count.0,
    {
        if shards[i].shard_count.0 > count.0 {
            count = shards[i].shard_count;
            assert(shards@.to_set().contains(shards@[i as int]));
        }
    }
    proof {
        assert forall|shard: ShardIndex| #[trigger]
            shards@.to_set().contains(shard) implies shard.shard_count.0 <= count.0 by {
            let j = choose|j: int| 0 <= j < shards@.len() && shards@[j] == shard;
            assert(shards@[j].shard_count.0 <= count.0);
        }
        lemma_latest_count(shards@.to_set(), count);
    }
    count
}

/// Calls [`itertools::partition`], which reorders a sequence so that the elements that
/// satisfy a predicate, here that the shard has the given count, come before those that do
/// not, and returns the index at which the latter begin.  It keeps the elements, and their
/// number, but promises no order within the two parts.
#[verifier::external_body]
fn partition_by_count(shards: &mut Vec<ShardIndex>, shard_count: ShardCount) -> (at: usize)
    ensures
        at <= final(shards)@.len(),
        final(shards)@.to_multiset() == old(shards)@.to_multiset(),
        forall|i: int| 0 <= i < at ==> (#[trigger] final(shards)@[i]).shard_count == shard_count,
        forall|i: int|
            at <= i < final(shards)@.len() ==> (#[trigger] final(shards)@[i]).shard_count
                != shard_count,
{
    itertools::partition(shards, |shard| shard.has_count(shard_count))
}

/// Whether the shards are in the order of their numbers, none of them twice.
pub open spec fn in_order(shards: Seq<ShardIndex>) -> bool {
    forall|i: int, j: int|
        0 <= i < j < shards.len() ==> (#[trigger] shards[i]).shard_number < (
        #[trigger] shards[j]).shard_number
}

/// Sorts distinct shards of one count by their numbers.
fn sort_shards(shards: &Vec<ShardIndex>) -> (sorted: Vec<ShardIndex>)
    requires
        shards@.no_duplicates(),
        forall|i: int, j: int|
            0 <= i < shards@.len() && 0 <= j < shards@.len() ==> (
            #[trigger] shards@[i]).shard_count == (#[trigger] shards@[j]).shard_count,
    ensures
        in_order(sorted@),
        sorted@.to_set() == shards@.to_set(),
{
    let mut sorted: Vec<ShardIndex> = Vec::new();
    assert(sorted@.to_set() =~= shards@.take(0).to_set());
    for i in 0..shards.len()
        invariant
            shards@.no_duplicates(),
            forall|k: int, l: int|
                0 <= k < shards@.len() && 0 <= l < shards@.len() ==> (
                #[trigger] shards@[k]).shard_count == (#[trigger] shards@[l]).shard_count,
            in_order(sorted@),
            sorted@.to_set() == shards@.take(i as int).to_set(),
    {
        let shard = shards[i];
        let mut at: usize = 0;
        while at < sorted.len() && sorted[at].shard_number < shard.shard_number
            invariant
                at <= sorted@.len(),
                forall|k: int|
                    0 <= k < at ==> (#[trigger] sorted@[k]).shard_number < shard.shard_number,
            decreases sorted@.len() - at,
        {
            at = at + 1;
        }
        let ghost before = sorted@;
        proof {
            assert forall|k: int| 0 <= k < before.len() implies (#[trigger] before[k]).shard_number
                != shard.shard_number by {
                assert(before.to_set().contains(before[k]));
                assert(shards@.take(i as int).contains(before[k]));
                let l = choose|l: int|
                    0 <= l < i && shards@.take(i as int)[l] == before[k];
                assert(shards@[l] == before[k]);
            }
        }
        sorted.insert(at, shard);
        proof {
            assert forall|s: ShardIndex|
                sorted@.to_set().contains(s) == #[trigger] shards@.take(i + 1).to_set().contains(
                    s,
                ) by {
                lemma_insert_contains(before, at as int, shard, s);
                lemma_take_contains(shards@, i as int, s);
                assert(before.to_set().contains(s) == shards@.take(i as int).to_set().contains(s));
            }
            assert(sorted@.to_set() =~= shards@.take(i + 1).to_set());
        }
    }
    assert(shards@.take(shards@.len() as int) =~= shards@);
    sorted
}

proof fn lemma_insert_contains(s: Seq<ShardIndex>, at: int, x: ShardIndex, y: ShardIndex)
    requires
        0 <= at <= s.len(),
    ensures
        s.insert(at, x).contains(y) <==> s.contains(y) || y == x,
{
    if s.contains(y) {
        let i = choose|i: int| 0 <= i < s.len() && s[i] == y;
        assert(s.insert(at, x)[if i < at { i } else { i + 1 }] == y);
    }
    assert(s.insert(at, x)[at] == x);
    if s.insert(at, x).contains(y) && y != x {
        let longer = s.insert(at, x);
        let i = choose|i: int| 0 <= i < longer.len() && longer[i] == y;
        assert(s[if i < at { i } else { i - 1 }] == y);
    }
}

proof fn lemma_take_contains(s: Seq<ShardIndex>, n: int, y: ShardIndex)
    requires
        0 <= n < s.len(),
    ensures
        s.take(n + 1).contains(y) <==> s.take(n).contains(y) || y == s[n],
{
    if s.take(n).contains(y) {
        let i = choose|i: int| 0 <= i < n && s.take(n)[i] == y;
        assert(s.take(n + 1)[i] == y);
    }
    assert(s.take(n + 1)[n] == s[n]);
    if s.take(n + 1).contains(y) && y != s[n] {
        let longer = s.take(n + 1);
        let i = choose|i: int| 0 <= i < longer.len() && longer[i] == y;
        assert(s.take(n)[i] == y);
    }
}

/// A tenant that might have ancestor shards to clean up, if the storage controller
/// agrees with what the bucket shows of it.
pub struct AncestorCandidate {
    pub tenant_id: TenantId,
    pub latest_shards: Vec<ShardIndex>,
    pub ancestor_shards: Vec<ShardIndex>,
}

impl AncestorCandidate {
    /// Whether the candidate tells the latest of the given shards, in order, from their
    /// ancestors.
    pub open spec fn describes(self, shards: Set<ShardIndex>) -> bool {
        &&& in_order(self.latest_shards@)
        &&& self.latest_shards@.to_set() == latest_shards_of(shards)
        &&& self.ancestor_shards@.no_duplicates()
        &&& self.ancestor_shards@.to_set() == ancestor_shards_of(shards)
    }
}

/// What the shards seen of a tenant say of it.
pub enum TenantAssessment {
    /// Some of the latest shards were missed.
    MissedShards,
    /// There are no ancestor shards to clean up.
    NoAncestors,
    /// There are ancestor shards: the controller has to be asked about them.
    AskController(AncestorCandidate),
}

/// Tells the latest shards of a tenant from their ancestors.
pub fn assess_tenant(tenant_id: TenantId, shards: Vec<ShardIndex>) -> (r: TenantAssessment)
    requires
        shards@.len() > 0,
        shards@.no_duplicates(),
    ensures
        match r {
            TenantAssessment::MissedShards => !is_complete(shards@.to_set()),
            TenantAssessment::NoAncestors => is_complete(shards@.to_set())
                && ancestor_shards_of(shards@.to_set()).is_empty(),
            TenantAssessment::AskController(candidate) => has_ancestor_work(shards@.to_set())
                && candidate.tenant_id == tenant_id && candidate.describes(shards@.to_set()),
        },
{
    let ghost seen = shards@.to_set();
    let latest_count = latest_count(&shards);

    let mut shard_indices = shards;
    let at: usize = partition_by_count(&mut shard_indices, latest_count);
    let ghost parted = shard_indices@;
    let ancestor_shards = shard_indices.split_off(at);
    proof {
        lemma_parted(shards@, parted, at as int, latest_count);
    }
    // Sort shards, as they are later compared with a sorted list from the controller.
    let latest_shards = sort_shards(&shard_indices);
    proof {
        lemma_in_order_is_distinct(latest_shards@);
        latest_shards@.unique_seq_to_set();
        ancestor_shards@.unique_seq_to_set();
    }

    if latest_shards.len() != latest_count.count() as usize {
        return TenantAssessment::MissedShards;
    }
    if ancestor_shards.len() == 0 {
        return TenantAssessment::NoAncestors;
    }
    assert(ancestor_shards_of(seen).contains(ancestor_shards@[0])) by {
        assert(ancestor_shards@.to_set().contains(ancestor_shards@[0]));
    }
    TenantAssessment::AskController(
        AncestorCandidate { tenant_id, latest_shards, ancestor_shards },
    )
}

/// Shards in order are distinct.
proof fn lemma_in_order_is_distinct(shards: Seq<ShardIndex>)
    requires
        in_order(shards),
    ensures
        shards.no_duplicates(),
{
    assert forall|i: int, j: int|
        0 <= i < shards.len() && 0 <= j < shards.len() && i != j implies shards[i]
        != shards[j] by {
        if i < j {
            assert(shards[i].shard_number < shards[j].shard_number);
        } else {
            assert(shards[j].shard_number < shards[i].shard_number);
        }
    }
}

/// The two parts of a partition by the latest count are the latest shards and their
/// ancestors.
proof fn lemma_parted(
    shards: Seq<ShardIndex>,
    parted: Seq<ShardIndex>,
    at: int,
    count: ShardCount,
)
    requires
        shards.no_duplicates(),
        count == latest_count_of(shards.to_set()),
        0 <= at <= parted.len(),
        parted.to_multiset() == shards.to_multiset(),
        forall|i: int| 0 <= i < at ==> (#[trigger] parted[i]).shard_count == count,
        forall|i: int| at <= i < parted.len() ==> (#[trigger] parted[i]).shard_count != count,
    ensures
        ({
            let latest = parted.subrange(0, at);
            let ancestors = parted.subrange(at, parted.len() as int);
            &&& latest.no_duplicates()
            &&& latest.to_set() == latest_shards_of(shards.to_set())
            &&& ancestors.no_duplicates()
            &&& ancestors.to_set() == ancestor_shards_of(shards.to_set())
        }),
{
    let latest = parted.subrange(0, at);
    let ancestors = parted.subrange(at, parted.len() as int);
    shards.lemma_multiset_has_no_duplicates();
    parted.lemma_multiset_has_no_duplicates_conv();
    assert forall|shard: ShardIndex| shards.contains(shard) == #[trigger] parted.contains(
        shard,
    ) by {
        assert(shards.contains(shard) <==> shards.to_multiset().count(shard) > 0);
        assert(parted.contains(shard) <==> parted.to_multiset().count(shard) > 0);
    }
    assert forall|shard: ShardIndex|
        latest.to_set().contains(shard) == #[trigger] latest_shards_of(
            shards.to_set(),
        ).contains(shard) by {
        if latest.contains(shard) {
            let i = choose|i: int| 0 <= i < latest.len() && latest[i] == shard;
            assert(parted[i] == shard);
        }
        if parted.contains(shard) && shard.shard_count == count {
            let i = choose|i: int| 0 <= i < parted.len() && parted[i] == shard;
            assert(latest[i] == shard);
        }
    }
    assert(latest.to_set() =~= latest_shards_of(shards.to_set()));
    assert forall|shard: ShardIndex|
        ancestors.to_set().contains(shard) == #[trigger] ancestor_shards_of(
            shards.to_set(),
        ).contains(shard) by {
        if ancestors.contains(shard) {
            let i = choose|i: int| 0 <= i < ancestors.len() && ancestors[i] == shard;
            assert(parted[at + i] == shard);
        }
        if parted.contains(shard) && shard.shard_count != count {
            let i = choose|i: int| 0 <= i < parted.len() && parted[i] == shard;
            assert(ancestors[i - at] == shard);
        }
    }
    assert(ancestors.to_set() =~= ancestor_shards_of(shards.to_set()));
}

/// The tenants that might have ancestor shards to clean up, those of which some shards
/// were missed, and the layers of ancestor shards that are still referred to.
pub struct AncestorSurvey {
    pub candidates: Vec<AncestorCandidate>,
    pub missed: Vec<TenantId>,
    pub ancestor_refs: AncestorRefs,
}

/// Whether the candidates are the tenants with ancestor work, each of them once.
pub open spec fn are_candidates_of(
    candidates: Seq<AncestorCandidate>,
    shards_seen: Map<TenantId, Set<ShardIndex>>,
) -> bool {
    &&& forall|i: int|
        0 <= i < candidates.len() ==> {
            let candidate = #[trigger] candidates[i];
            &&& shards_seen.contains_key(candidate.tenant_id)
            &&& has_ancestor_work(shards_seen[candidate.tenant_id])
            &&& candidate.describes(shards_seen[candidate.tenant_id])
        }
    &&& forall|i: int, j: int|
        0 <= i < j < candidates.len() ==> (#[trigger] candidates[i]).tenant_id != (
        #[trigger] candidates[j]).tenant_id
    &&& forall|tenant_id: TenantId| #[trigger]
        shards_seen.contains_key(tenant_id) && has_ancestor_work(shards_seen[tenant_id])
            ==> exists|i: int|
            0 <= i < candidates.len() && (#[trigger] candidates[i]).tenant_id == tenant_id
}

/// Whether the tenants are those of which some of the latest shards were missed, each of
/// them once.
pub open spec fn are_missed_of(
    missed: Seq<TenantId>,
    shards_seen: Map<TenantId, Set<ShardIndex>>,
) -> bool {
    &&& missed.no_duplicates()
    &&& forall|tenant_id: TenantId|
        missed.contains(tenant_id) <==> #[trigger] shards_seen.contains_key(tenant_id)
            && !is_complete(shards_seen[tenant_id])
}

impl TenantRefAccumulator {
    /// Ends the scan of the bucket: looks for tenants with ancestor shards to clean up,
    /// in no particular order.
    pub fn survey(self) -> (survey: AncestorSurvey)
        requires
            self.well_formed(),
        ensures
            are_candidates_of(survey.candidates@, self@.shards_seen),
            are_missed_of(survey.missed@, self@.shards_seen),
            survey.ancestor_refs@ == self@.ancestor_refs,
    {
        let ghost shards_seen = self@.shards_seen;
        let (tenants, ancestor_refs) = self.into_parts();
        let ghost all = tenants@;
        let mut tenants = tenants;
        let mut candidates: Vec<AncestorCandidate> = Vec::new();
        let mut missed: Vec<TenantId> = Vec::new();
        let ghost mut done = Map::<TenantId, Set<ShardIndex>>::empty();
        loop
            invariant_except_break
                tenants@.len() <= all.len(),
                tenants@ == all.take(tenants@.len() as int),
                forall|tenant_id: TenantId| #[trigger]
                    done.contains_key(tenant_id) <==> exists|i: int|
                        tenants@.len() <= i < all.len() && (#[trigger] all[i]).0 == tenant_id,
                forall|tenant_id: TenantId| #[trigger]
                    done.contains_key(tenant_id) ==> done[tenant_id] == shards_seen[tenant_id],
            invariant
                lists_shards_seen(all, shards_seen),
                are_candidates_of(candidates@, done),
                are_missed_of(missed@, done),
            ensures
                done == shards_seen,
            decreases tenants@.len(),
        {
            let ghost n = tenants@.len() as int;
            let (tenant_id, shard_indices) = match tenants.pop() {
                Some(tenant) => tenant,
                None => {
                    assert(done =~= shards_seen) by {
                        assert forall|tenant_id: TenantId|
                            done.contains_key(tenant_id) <==> #[trigger] shards_seen.contains_key(
                                tenant_id,
                            ) by {
                            if done.contains_key(tenant_id) {
                                let i = choose|i: int|
                                    0 <= i < all.len() && (#[trigger] all[i]).0 == tenant_id;
                                assert(shards_seen.contains_key(all[i].0));
                            }
                        }
                    }
                    break;
                },
            };
            assert(all[n - 1] == (tenant_id, shard_indices));
            let ghost shards = shard_indices@.to_set();
            let ghost before = (candidates@, missed@, done);
            assert(!done.contains_key(tenant_id));
            match assess_tenant(tenant_id, shard_indices) {
                TenantAssessment::MissedShards => {
                    missed.push(tenant_id);
                },
                TenantAssessment::NoAncestors => {},
                TenantAssessment::AskController(candidate) => {
                    candidates.push(candidate);
                },
            }
            proof {
                done = done.insert(tenant_id, shards);
                lemma_one_more_candidate(before.0, candidates@, before.2, tenant_id, shards);
                lemma_one_more_missed(before.1, missed@, before.2, tenant_id, shards);
                assert forall|t: TenantId| #[trigger]
                    done.contains_key(t) <==> exists|i: int|
                        n - 1 <= i < all.len() && (#[trigger] all[i]).0 == t by {
                    if done.contains_key(t) {
                        if t == tenant_id {
                            assert(all[n - 1].0 == t);
                        } else {
                            assert(before.2.contains_key(t));
                        }
                    } else {
                        assert(!before.2.contains_key(t));
                    }
                }
            }
        }
        AncestorSurvey { candidates, missed, ancestor_refs }
    }
}

/// Taking one more tenant into account keeps the candidates what they are.
proof fn lemma_one_more_candidate(
    before: Seq<AncestorCandidate>,
    after: Seq<AncestorCandidate>,
    done: Map<TenantId, Set<ShardIndex>>,
    tenant_id: TenantId,
    shards: Set<ShardIndex>,
)
    requires
        are_candidates_of(before, done),
        !done.contains_key(tenant_id),
        if has_ancestor_work(shards) {
            &&& after == before.push(after.last())
            &&& after.last().tenant_id == tenant_id
            &&& after.last().describes(shards)
        } else {
            after == before
        },
    ensures
        are_candidates_of(after, done.insert(tenant_id, shards)),
{
    let more = done.insert(tenant_id, shards);
    assert forall|t: TenantId| #[trigger]
        more.contains_key(t) && has_ancestor_work(more[t]) implies exists|i: int|
        0 <= i < after.len() && (#[trigger] after[i]).tenant_id == t by {
        if t == tenant_id {
            assert(after[after.len() - 1].tenant_id == t);
        } else {
            assert(done.contains_key(t));
            let i = choose|i: int|
                0 <= i < before.len() && (#[trigger] before[i]).tenant_id == t;
            assert(after[i] == before[i]);
        }
    }
    assert forall|i: int| 0 <= i < before.len() implies #[trigger] after[i] == before[i]
        && done.contains_key(before[i].tenant_id) by {}
}

/// Taking one more tenant into account keeps the list of missed ones what it is.
proof fn lemma_one_more_missed(
    before: Seq<TenantId>,
    after: Seq<TenantId>,
    done: Map<TenantId, Set<ShardIndex>>,
    tenant_id: TenantId,
    shards: Set<ShardIndex>,
)
    requires
        are_missed_of(before, done),
        !done.contains_key(tenant_id),
        after == if is_complete(shards) {
            before
        } else {
            before.push(tenant_id)
        },
    ensures
        are_missed_of(after, done.insert(tenant_id, shards)),
{
    let more = done.insert(tenant_id, shards);
    assert(!before.contains(tenant_id)) by {
        assert(!done.contains_key(tenant_id));
    }
    assert forall|t: TenantId|
        after.contains(t) <==> #[trigger] more.contains_key(t) && !is_complete(more[t]) by {
        assert(before.contains(t) <==> done.contains_key(t) && !is_complete(done[t]));
        assert(before.push(tenant_id).contains(t) <==> before.contains(t) || t == tenant_id) by {
            assert(before.push(tenant_id)[before.len() as int] == tenant_id);
            if before.contains(t) {
                let i = choose|i: int| 0 <= i < before.len() && before[i] == t;
                assert(before.push(tenant_id)[i] == t);
            }
        }
    }
}

/// One shard, in the storage controller's description of a tenant.
#[derive(Debug, Clone, Copy, PartialEq, Eq, Structural)]
pub struct TenantDescribeResponseShard {
    pub tenant_shard_id: TenantShardId,
    pub is_splitting: bool,
}

/// The storage controller's description of a tenant, as far as garbage collection reads
/// it.
#[derive(Debug)]
pub struct TenantDescribeResponse {
    pub shards: Vec<TenantDescribeResponseShard>,
}

impl TenantDescribeResponse {
    /// The shards that the tenant has, in the order of the description.
    pub open spec fn indices(self) -> Seq<ShardIndex> {
        self.shards@.map_values(
            |shard: TenantDescribeResponseShard| shard.tenant_shard_id.index(),
        )
    }

    /// Whether the description shows a shard split in progress.
    pub open spec fn is_splitting(self) -> bool {
        exists|i: int| 0 <= i < self.shards@.len() && (#[trigger] self.shards@[i]).is_splitting
    }
}

/// What the storage controller's reply says of a candidate.
#[derive(Debug, Clone, Copy, PartialEq, Eq, Structural)]
pub enum Validation {
    /// The latest shard split state could not be learned from the controller.
    ControllerError,
    /// The latest shards seen in the bucket are not those that the controller knows.
    ShardsDiffer,
    /// One or more shards is currently splitting.
    Splitting,
    /// The controller sees the same latest shards, and none of them is splitting.
    Validated,
}

impl AncestorCandidate {
    /// What a reply of the controller says of this candidate.  Ancestor shards must only
    /// be cleaned up while the tenant is not being split: if the split failed, the
    /// controller would try to attach ancestor shards again.
    pub open spec fn validation(self, reply: Option<TenantDescribeResponse>) -> Validation {
        match reply {
            None => Validation::ControllerError,
            Some(desc) => if desc.indices() != self.latest_shards@ {
                Validation::ShardsDiffer
            } else if desc.is_splitting() {
                Validation::Splitting
            } else {
                Validation::Validated
            },
        }
    }

    /// Holds this candidate against a reply of the controller.
    pub fn validate(&self, reply: &Option<TenantDescribeResponse>) -> (validation: Validation)
        ensures
            validation == self.validation(*reply),
    {
        match reply {
            None => Validation::ControllerError,
            Some(desc) => {
                if !same_shards(&desc.shards, &self.latest_shards) {
                    return Validation::ShardsDiffer;
                }
                for i in 0..desc.shards.len()
                    invariant
                        *reply == Some(*desc),
                        desc.indices() == self.latest_shards@,
                        forall|j: int| 0 <= j < i ==> !(#[trigger] desc.shards@[j]).is_splitting,
                {
                    if desc.shards[i].is_splitting {
                        return Validation::Splitting;
                    }
                }
                Validation::Validated
            },
        }
    }

    /// The candidate's ancestor shards.
    pub open spec fn ancestors(self) -> Seq<TenantShardId> {
        self.ancestor_shards@.map_values(
            |index: ShardIndex| TenantShardId::of(self.tenant_id, index),
        )
    }
}

/// Whether a description lists exactly the given shards, in their order.
fn same_shards(
    described: &Vec<TenantDescribeResponseShard>,
    shards: &Vec<ShardIndex>,
) -> (same: bool)
    ensures
        same == (described@.map_values(
            |shard: TenantDescribeResponseShard| shard.tenant_shard_id.index(),
        ) == shards@),
{
    let ghost indices = described@.map_values(
        |shard: TenantDescribeResponseShard| shard.tenant_shard_id.index(),
    );
    if described.len() != shards.len() {
        assert(indices.len() != shards@.len());
        return false;
    }
    for i in 0..described.len()
        invariant
            described@.len() == shards@.len(),
            indices == described@.map_values(
                |shard: TenantDescribeResponseShard| shard.tenant_shard_id.index(),
            ),
            forall|j: int| 0 <= j < i ==> #[trigger] indices[j] == shards@[j],
    {
        assert(indices[i as int] == described@[i as int].tenant_shard_id.index());
        if described[i].tenant_shard_id.to_index() != shards[i] {
            assert(indices[i as int] != shards@[i as int]);
            return false;
        }
    }
    assert(indices =~= shards@);
    true
}

/// The ancestor shards of the candidates that the controller's replies validate, each
/// candidate's after those of the candidates before it.
pub open spec fn validated_ancestors(
    candidates: Seq<AncestorCandidate>,
    replies: Seq<Option<TenantDescribeResponse>>,
) -> Seq<TenantShardId>
    decreases candidates.len(),
{
    if candidates.len() == 0 {
        Seq::empty()
    } else {
        let before = validated_ancestors(candidates.drop_last(), replies);
        let last = candidates.last();
        if last.validation(replies[candidates.len() - 1]) == Validation::Validated {
            before + last.ancestors()
        } else {
            before
        }
    }
}

/// How many of the queries to the controller failed.
pub open spec fn failed_queries(replies: Seq<Option<TenantDescribeResponse>>) -> nat {
    replies.filter(|reply: Option<TenantDescribeResponse>| reply is None).len()
}

impl AncestorSurvey {
    /// Returns a vector of ancestor tenant shards that should be cleaned up, and the
    /// referenced ancestor layers to preserve.  `replies` holds what the controller said
    /// of each candidate, or nothing where the query failed.
    pub fn into_gc_ancestors(
        self,
        replies: &Vec<Option<TenantDescribeResponse>>,
        summary: &mut GcSummary,
    ) -> (r: (Vec<TenantShardId>, AncestorRefs))
        requires
            replies@.len() == self.candidates@.len(),
            old(summary).controller_api_errors + failed_queries(replies@) <= usize::MAX,
        ensures
            r.0@ == validated_ancestors(self.candidates@, replies@),
            r.1 == self.ancestor_refs,
            final(summary)@ == (Tally {
                controller_api_errors: old(summary)@.controller_api_errors + failed_queries(
                    replies@,
                ),
                ..old(summary)@
            }),
    {
        let mut ancestors_to_gc: Vec<TenantShardId> = Vec::new();
        assert(replies@.take(0) =~= Seq::empty());
        assert(self.candidates@.take(0) =~= Seq::empty());
        reveal(Seq::filter);
        for i in 0..self.candidates.len()
            invariant
                replies@.len() == self.candidates@.len(),
                old(summary).controller_api_errors + failed_queries(replies@) <= usize::MAX,
                ancestors_to_gc@ == validated_ancestors(
                    self.candidates@.take(i as int),
                    replies@,
                ),
                summary@ == (Tally {
                    controller_api_errors: old(summary)@.controller_api_errors
                        + failed_queries(replies@.take(i as int)),
                    ..old(summary)@
                }),
        {
            proof {
                reveal(Seq::filter);
                assert(replies@.take(i + 1).drop_last() =~= replies@.take(i as int));
                assert(replies@.take(i + 1).last() == replies@[i as int]);
                assert(self.candidates@.take(i + 1).drop_last() =~= self.candidates@.take(
                    i as int,
                ));
                assert(self.candidates@.take(i + 1).last() == self.candidates@[i as int]);
                lemma_fewer_failed(replies@, i + 1);
            }
            match self.candidates[i].validate(&replies[i]) {
                Validation::ControllerError => {
                    summary.controller_api_errors = summary.controller_api_errors + 1;
                },
                Validation::ShardsDiffer => {},
                Validation::Splitting => {},
                Validation::Validated => {
                    push_ancestors(&self.candidates[i], &mut ancestors_to_gc);
                },
            }
        }
        assert(replies@.take(replies@.len() as int) =~= replies@);
        assert(self.candidates@.take(self.candidates@.len() as int) =~= self.candidates@);
        (ancestors_to_gc, self.ancestor_refs)
    }
}

/// Adds the ancestor shards of a candidate to a list.
fn push_ancestors(candidate: &AncestorCandidate, ancestors_to_gc: &mut Vec<TenantShardId>)
    ensures
        final(ancestors_to_gc)@ == old(ancestors_to_gc)@ + candidate.ancestors(),
{
    assert(ancestors_to_gc@ =~= old(ancestors_to_gc)@ + candidate.ancestors().take(0));
    for i in 0..candidate.ancestor_shards.len()
        invariant
            ancestors_to_gc@ == old(ancestors_to_gc)@ + candidate.ancestors().take(i as int),
    {
        let idx = candidate.ancestor_shards[i];
        ancestors_to_gc.push(
            TenantShardId {
                tenant_id: candidate.tenant_id,
                shard_number: idx.shard_number,
                shard_count: idx.shard_count,
            },
        );
        assert(candidate.ancestors()[i as int] == TenantShardId::of(candidate.tenant_id, idx));
        assert(ancestors_to_gc@ =~= old(ancestors_to_gc)@ + candidate.ancestors().take(i + 1));
    }
    assert(candidate.ancestors().take(candidate.ancestors().len() as int)
        =~= candidate.ancestors());
}

/// No more queries failed among the first few than among all.
proof fn lemma_fewer_failed(replies: Seq<Option<TenantDescribeResponse>>, n: int)
    requires
        0 <= n <= replies.len(),
    ensures
        failed_queries(replies.take(n)) <= failed_queries(replies),
    decreases replies.len() - n,
{
    reveal(Seq::filter);
    if n < replies.len() {
        lemma_fewer_failed(replies, n + 1);
        assert(replies.take(n + 1).drop_last() =~= replies.take(n));
    } else {
        assert(replies.take(n) =~= replies);
    }
}

/// Whether a shard is an ancestor of the `i`-th candidate, which the controller validated.
pub open spec fn is_validated_ancestor(
    candidates: Seq<AncestorCandidate>,
    replies: Seq<Option<TenantDescribeResponse>>,
    i: int,
    shard: TenantShardId,
) -> bool {
    &&& candidates[i].tenant_id == shard.tenant_id
    &&& candidates[i].ancestor_shards@.contains(shard.index())
    &&& candidates[i].validation(replies[i]) == Validation::Validated
}

/// The shards that are chosen are the ancestors of the candidates that the controller
/// validated: all of them, and no others.
pub proof fn validated_ancestors_are_chosen(
    candidates: Seq<AncestorCandidate>,
    replies: Seq<Option<TenantDescribeResponse>>,
    shard: TenantShardId,
)
    ensures
        validated_ancestors(candidates, replies).contains(shard) <==> exists|i: int|
            0 <= i < candidates.len() && #[trigger] is_validated_ancestor(
                candidates,
                replies,
                i,
                shard,
            ),
    decreases candidates.len(),
{
    let chosen = validated_ancestors(candidates, replies);
    if candidates.len() > 0 {
        let rest = candidates.drop_last();
        let last = candidates.last();
        let n = candidates.len() - 1;
        validated_ancestors_are_chosen(rest, replies, shard);
        assert forall|i: int| 0 <= i < n implies is_validated_ancestor(rest, replies, i, shard)
            == #[trigger] is_validated_ancestor(candidates, replies, i, shard) by {}
        assert forall|i: int| 0 <= i < n implies #[trigger] is_validated_ancestor(
            rest,
            replies,
            i,
            shard,
        ) == is_validated_ancestor(candidates, replies, i, shard) by {}
        assert(last.ancestors().contains(shard) <==> last.tenant_id == shard.tenant_id
            && last.ancestor_shards@.contains(shard.index())) by {
            if last.ancestors().contains(shard) {
                let i = choose|i: int| 0 <= i < last.ancestors().len() && last.ancestors()[i]
                    == shard;
                assert(last.ancestor_shards@[i] == shard.index());
            }
            if last.tenant_id == shard.tenant_id && last.ancestor_shards@.contains(
                shard.index(),
            ) {
                let i = choose|i: int|
                    0 <= i < last.ancestor_shards@.len() && last.ancestor_shards@[i]
                        == shard.index();
                assert(last.ancestors()[i] == shard);
            }
        }
        let before = validated_ancestors(rest, replies);
        assert((before + last.ancestors()).contains(shard) <==> before.contains(shard)
            || last.ancestors().contains(shard)) by {
            broadcast use vstd::seq_lib::group_seq_properties;
        }
        assert(is_validated_ancestor(candidates, replies, n, shard) <==> last.ancestors().contains(
            shard,
        ) && last.validation(replies[n]) == Validation::Validated);
        if chosen.contains(shard) && !before.contains(shard) {
            assert(is_validated_ancestor(candidates, replies, n, shard));
        }
    }
}

/// A shard is only chosen if it was seen and is not among the latest shards of its tenant,
/// if all of these were seen, and if the controller names exactly them and none of them is
/// splitting.
pub proof fn latest_shards_are_never_chosen(
    shards_seen: Map<TenantId, Set<ShardIndex>>,
    candidates: Seq<AncestorCandidate>,
    replies: Seq<Option<TenantDescribeResponse>>,
    shard: TenantShardId,
)
    requires
        are_candidates_of(candidates, shards_seen),
        validated_ancestors(candidates, replies).contains(shard),
    ensures
        shards_seen.contains_key(shard.tenant_id),
        ({
            let shards = shards_seen[shard.tenant_id];
            &&& shards.contains(shard.index())
            &&& is_latest_count(shards, latest_count_of(shards))
            &&& shard.shard_count.0 < latest_count_of(shards).0
            &&& is_complete(shards)
            &&& exists|i: int|
                0 <= i < candidates.len() && (#[trigger] candidates[i]).tenant_id
                    == shard.tenant_id && replies[i] is Some
                    && replies[i]->0.indices().to_set() == latest_shards_of(shards)
                    && !replies[i]->0.is_splitting()
        }),
{
    validated_ancestors_are_chosen(candidates, replies, shard);
    let i = choose|i: int|
        0 <= i < candidates.len() && #[trigger] is_validated_ancestor(
            candidates,
            replies,
            i,
            shard,
        );
    let candidate = candidates[i];
    let shards = shards_seen[shard.tenant_id];
    assert(candidate.ancestor_shards@.to_set().contains(shard.index()));
    assert(shards.contains(shard.index()));
    lemma_latest_count_exists(shards);
    assert(candidates[i].tenant_id == shard.tenant_id);
}

/// Every ancestor of a tenant is chosen, if all the latest shards of the tenant were seen
/// and the controller's reply validates them.
pub proof fn ancestors_are_chosen_once_validated(
    shards_seen: Map<TenantId, Set<ShardIndex>>,
    candidates: Seq<AncestorCandidate>,
    replies: Seq<Option<TenantDescribeResponse>>,
    i: int,
    shard: TenantShardId,
)
    requires
        are_candidates_of(candidates, shards_seen),
        0 <= i < candidates.len(),
        candidates[i].tenant_id == shard.tenant_id,
        candidates[i].validation(replies[i]) == Validation::Validated,
        ancestor_shards_of(shards_seen[shard.tenant_id]).contains(shard.index()),
    ensures
        validated_ancestors(candidates, replies).contains(shard),
{
    validated_ancestors_are_chosen(candidates, replies, shard);
    assert(candidates[i].ancestor_shards@.to_set().contains(shard.index()));
    assert(is_validated_ancestor(candidates, replies, i, shard));
}

/// No shard is chosen twice.
pub proof fn ancestors_are_chosen_once(
    shards_seen: Map<TenantId, Set<ShardIndex>>,
    candidates: Seq<AncestorCandidate>,
    replies: Seq<Option<TenantDescribeResponse>>,
)
    requires
        are_candidates_of(candidates, shards_seen),
    ensures
        validated_ancestors(candidates, replies).no_duplicates(),
{
    lemma_chosen_once(candidates, replies);
}

proof fn lemma_chosen_once(
    candidates: Seq<AncestorCandidate>,
    replies: Seq<Option<TenantDescribeResponse>>,
)
    requires
        forall|i: int|
            0 <= i < candidates.len() ==> (
            #[trigger] candidates[i]).ancestor_shards@.no_duplicates(),
        forall|i: int, j: int|
            0 <= i < j < candidates.len() ==> (#[trigger] candidates[i]).tenant_id != (
            #[trigger] candidates[j]).tenant_id,
    ensures
        validated_ancestors(candidates, replies).no_duplicates(),
    decreases candidates.len(),
{
    if candidates.len() > 0 {
        let rest = candidates.drop_last();
        let last = candidates.last();
        let n = candidates.len() - 1;
        assert(candidates[n] == last);
        lemma_chosen_once(rest, replies);
        let before = validated_ancestors(rest, replies);
        let ancestors = last.ancestors();
        assert forall|i: int, j: int|
            0 <= i < ancestors.len() && 0 <= j < ancestors.len() && i != j implies ancestors[i]
            != ancestors[j] by {
            assert(ancestors[i].index() == last.ancestor_shards@[i]);
            assert(ancestors[j].index() == last.ancestor_shards@[j]);
        }
        assert forall|i: int, j: int|
            0 <= i < before.len() && 0 <= j < ancestors.len() implies before[i]
            != ancestors[j] by {
            validated_ancestors_are_chosen(rest, replies, before[i]);
            assert(before.contains(before[i]));
            let k = choose|k: int|
                0 <= k < rest.len() && #[trigger] is_validated_ancestor(
                    rest,
                    replies,
                    k,
                    before[i],
                );
            assert(candidates[k].tenant_id != candidates[n].tenant_id);
        }
    }
}

/// The shards of a tenant have a highest count.
proof fn lemma_latest_count_exists(shards: Set<ShardIndex>)
    requires
        exists|shard: ShardIndex| shards.contains(shard),
    ensures
        is_latest_count(shards, latest_count_of(shards)),
{
    let shard = choose|shard: ShardIndex| shards.contains(shard);
    lemma_latest_count_from(shards, shard);
}

proof fn lemma_latest_count_from(shards: Set<ShardIndex>, shard: ShardIndex)
    requires
        shards.contains(shard),
    ensures
        exists|count: ShardCount| is_latest_count(shards, count),
    decreases 255 - shard.shard_count.0,
{
    if exists|other: ShardIndex| #[trigger]
        shards.contains(other) && other.shard_count.0 > shard.shard_count.0 {
        let other = choose|other: ShardIndex| #[trigger]
            shards.contains(other) && other.shard_count.0 > shard.shard_count.0;
        lemma_latest_count_from(shards, other);
    } else {
        assert(is_latest_count(shards, shard.shard_count));
    }
}

/// Whether a reply of the controller validates what was seen of a tenant: it names exactly
/// the latest shards, in order, and none of them is splitting.
pub open spec fn validates(reply: Option<TenantDescribeResponse>, shards: Set<ShardIndex>) -> bool {
    &&& reply is Some
    &&& in_order(reply->0.indices())
    &&& reply->0.indices().to_set() == latest_shards_of(shards)
    &&& !reply->0.is_splitting()
}

/// Whether each candidate's reply is the answer that the controller gives for its tenant.
pub open spec fn are_answers_for(
    replies: Seq<Option<TenantDescribeResponse>>,
    candidates: Seq<AncestorCandidate>,
    answers: spec_fn(TenantId) -> Option<TenantDescribeResponse>,
) -> bool {
    &&& replies.len() == candidates.len()
    &&& forall|i: int|
        0 <= i < candidates.len() ==> #[trigger] replies[i] == answers(candidates[i].tenant_id)
}

/// Shards in order are determined by which shards they are.
proof fn lemma_order_is_unique(a: Seq<ShardIndex>, b: Seq<ShardIndex>)
    requires
        in_order(a),
        in_order(b),
        a.to_set() == b.to_set(),
    ensures
        a == b,
    decreases a.len(),
{
    lemma_in_order_is_distinct(a);
    lemma_in_order_is_distinct(b);
    a.unique_seq_to_set();
    b.unique_seq_to_set();
    if a.len() > 0 {
        let n = a.len() - 1;
        assert(b.to_set().contains(a[n]));
        assert(a.to_set().contains(b[n]));
        let i = choose|i: int| 0 <= i < b.len() && b[i] == a[n];
        let j = choose|j: int| 0 <= j < a.len() && a[j] == b[n];
        if i < n {
            assert(b[i].shard_number < b[n].shard_number);
            if j < n {
                assert(a[j].shard_number < a[n].shard_number);
            }
        }
        assert(a.last() == b.last());
        assert forall|shard: ShardIndex|
            a.drop_last().to_set().contains(shard) == #[trigger] b.drop_last().to_set().contains(
                shard,
            ) by {
            lemma_all_but_last(a, shard);
            lemma_all_but_last(b, shard);
            assert(a.to_set().contains(shard) == b.to_set().contains(shard));
            assert(a.to_set().contains(shard) == a.contains(shard));
            assert(b.to_set().contains(shard) == b.contains(shard));
        }
        assert(a.drop_last().to_set() =~= b.drop_last().to_set());
        lemma_order_is_unique(a.drop_last(), b.drop_last());
        assert(a =~= a.drop_last().push(a[n]));
        assert(b =~= b.drop_last().push(b[n]));
    }
}

proof fn lemma_all_but_last(shards: Seq<ShardIndex>, shard: ShardIndex)
    requires
        shards.len() > 0,
        shards.no_duplicates(),
    ensures
        shards.drop_last().contains(shard) <==> shards.contains(shard) && shard != shards.last(),
{
    if shards.contains(shard) && shard != shards.last() {
        let i = choose|i: int| 0 <= i < shards.len() && shards[i] == shard;
        assert(shards.drop_last()[i] == shard);
    }
    if shards.drop_last().contains(shard) {
        let rest = shards.drop_last();
        let i = choose|i: int| 0 <= i < rest.len() && rest[i] == shard;
        assert(shards[i] == shard);
    }
}

/// A shard is chosen exactly if its tenant has ancestor work, it is one of the ancestors, and
/// the controller's answer validates what was seen of the tenant.  Nothing that was seen or
/// answered of another tenant plays a part.
pub proof fn choice_depends_on_the_tenant_alone(
    shards_seen: Map<TenantId, Set<ShardIndex>>,
    candidates: Seq<AncestorCandidate>,
    replies: Seq<Option<TenantDescribeResponse>>,
    answers: spec_fn(TenantId) -> Option<TenantDescribeResponse>,
    shard: TenantShardId,
)
    requires
        are_candidates_of(candidates, shards_seen),
        are_answers_for(replies, candidates, answers),
    ensures
        validated_ancestors(candidates, replies).contains(shard) <==> {
            &&& shards_seen.contains_key(shard.tenant_id)
            &&& has_ancestor_work(shards_seen[shard.tenant_id])
            &&& ancestor_shards_of(shards_seen[shard.tenant_id]).contains(shard.index())
            &&& validates(answers(shard.tenant_id), shards_seen[shard.tenant_id])
        },
{
    validated_ancestors_are_chosen(candidates, replies, shard);
    let t = shard.tenant_id;
    let shards = shards_seen[t];
    if validated_ancestors(candidates, replies).contains(shard) {
        let i = choose|i: int|
            0 <= i < candidates.len() && #[trigger] is_validated_ancestor(
                candidates,
                replies,
                i,
                shard,
            );
        assert(replies[i] == answers(t));
        assert(candidates[i].ancestor_shards@.to_set().contains(shard.index()));
    }
    if shards_seen.contains_key(t) && has_ancestor_work(shards) && ancestor_shards_of(
        shards,
    ).contains(shard.index()) && validates(answers(t), shards) {
        let i = choose|i: int|
            0 <= i < candidates.len() && (#[trigger] candidates[i]).tenant_id == t;
        assert(replies[i] == answers(t));
        lemma_order_is_unique(candidates[i].latest_shards@, answers(t)->0.indices());
        assert(candidates[i].ancestor_shards@.to_set().contains(shard.index()));
        assert(is_validated_ancestor(candidates, replies, i, shard));
    }
}

/// The tenants with ancestor work about which the controller could not be asked.
spec fn unanswered(
    shards_seen: Map<TenantId, Set<ShardIndex>>,
    answers: spec_fn(TenantId) -> Option<TenantDescribeResponse>,
) -> Set<TenantId> {
    Set::new(
        |t: TenantId|
            shards_seen.contains_key(t) && has_ancestor_work(shards_seen[t]) && answers(t) is None,
    )
}

/// The tenants of the candidates whose query failed.
spec fn failed_tenants(
    candidates: Seq<AncestorCandidate>,
    replies: Seq<Option<TenantDescribeResponse>>,
) -> Set<TenantId>
    decreases candidates.len(),
{
    if candidates.len() == 0 {
        Set::empty()
    } else {
        let before = failed_tenants(candidates.drop_last(), replies);
        if replies[candidates.len() - 1] is None {
            before.insert(candidates.last().tenant_id)
        } else {
            before
        }
    }
}

/// Of distinct tenants, as many queries failed as there are tenants whose query failed.
proof fn lemma_failed_tenants(
    candidates: Seq<AncestorCandidate>,
    replies: Seq<Option<TenantDescribeResponse>>,
)
    requires
        candidates.len() <= replies.len(),
        forall|i: int, j: int|
            0 <= i < j < candidates.len() ==> (#[trigger] candidates[i]).tenant_id != (
            #[trigger] candidates[j]).tenant_id,
    ensures
        failed_tenants(candidates, replies).finite(),
        failed_tenants(candidates, replies).len() == failed_queries(
            replies.take(candidates.len() as int),
        ),
        forall|t: TenantId| #[trigger]
            failed_tenants(candidates, replies).contains(t) <==> exists|i: int|
                0 <= i < candidates.len() && (#[trigger] candidates[i]).tenant_id == t
                    && replies[i] is None,
    decreases candidates.len(),
{
    reveal(Seq::filter);
    if candidates.len() > 0 {
        let n = candidates.len() - 1;
        let rest = candidates.drop_last();
        lemma_failed_tenants(rest, replies);
        assert(replies.take(n + 1).drop_last() =~= replies.take(n));
        assert(replies.take(n + 1).last() == replies[n]);
        assert forall|i: int| 0 <= i < n implies #[trigger] candidates[i] == rest[i]
            && candidates[i].tenant_id != candidates[n].tenant_id by {}
        assert(!failed_tenants(rest, replies).contains(candidates[n].tenant_id));
        assert forall|t: TenantId| #[trigger]
            failed_tenants(candidates, replies).contains(t) <==> exists|i: int|
                0 <= i < candidates.len() && (#[trigger] candidates[i]).tenant_id == t
                    && replies[i] is None by {
            if failed_tenants(rest, replies).contains(t) {
                let i = choose|i: int|
                    0 <= i < rest.len() && (#[trigger] rest[i]).tenant_id == t
                        && replies[i] is None;
                assert(candidates[i].tenant_id == t);
            }
            if exists|i: int|
                0 <= i < candidates.len() && (#[trigger] candidates[i]).tenant_id == t
                    && replies[i] is None {
                let i = choose|i: int|
                    0 <= i < candidates.len() && (#[trigger] candidates[i]).tenant_id == t
                        && replies[i] is None;
                if i < n {
                    assert(rest[i].tenant_id == t);
                }
            }
            assert(candidates[n] == candidates.last());
        }
    } else {
        assert(replies.take(0) =~= Seq::empty());
    }
}

/// As many queries fail as there are tenants with ancestor work that get no answer.
proof fn lemma_failed_are_unanswered(
    shards_seen: Map<TenantId, Set<ShardIndex>>,
    candidates: Seq<AncestorCandidate>,
    replies: Seq<Option<TenantDescribeResponse>>,
    answers: spec_fn(TenantId) -> Option<TenantDescribeResponse>,
)
    requires
        are_candidates_of(candidates, shards_seen),
        are_answers_for(replies, candidates, answers),
    ensures
        unanswered(shards_seen, answers).finite(),
        unanswered(shards_seen, answers).len() == failed_queries(replies),
{
    lemma_failed_tenants(candidates, replies);
    assert(replies.take(candidates.len() as int) =~= replies);
    assert forall|t: TenantId|
        unanswered(shards_seen, answers).contains(t) == #[trigger] failed_tenants(
            candidates,
            replies,
        ).contains(t) by {
        if unanswered(shards_seen, answers).contains(t) {
            let i = choose|i: int|
                0 <= i < candidates.len() && (#[trigger] candidates[i]).tenant_id == t;
            assert(replies[i] == answers(t));
        }
        if failed_tenants(candidates, replies).contains(t) {
            let i = choose|i: int|
                0 <= i < candidates.len() && (#[trigger] candidates[i]).tenant_id == t
                    && replies[i] is None;
            assert(replies[i] == answers(t));
        }
    }
    assert(unanswered(shards_seen, answers) =~= failed_tenants(candidates, replies));
}

/// Tenants do not affect one another.  Where the tenants that were seen are split in two,
/// and the controller answers the same for each tenant, the shards that are chosen of all
/// the tenants are those chosen of the one part and those chosen of the other, and so many
/// queries fail as in the two parts together.
pub proof fn tenants_do_not_affect_one_another(
    left: Map<TenantId, Set<ShardIndex>>,
    right: Map<TenantId, Set<ShardIndex>>,
    all: (Seq<AncestorCandidate>, Seq<Option<TenantDescribeResponse>>),
    of_left: (Seq<AncestorCandidate>, Seq<Option<TenantDescribeResponse>>),
    of_right: (Seq<AncestorCandidate>, Seq<Option<TenantDescribeResponse>>),
    answers: spec_fn(TenantId) -> Option<TenantDescribeResponse>,
)
    requires
        left.dom().disjoint(right.dom()),
        are_candidates_of(all.0, left.union_prefer_right(right)),
        are_candidates_of(of_left.0, left),
        are_candidates_of(of_right.0, right),
        are_answers_for(all.1, all.0, answers),
        are_answers_for(of_left.1, of_left.0, answers),
        are_answers_for(of_right.1, of_right.0, answers),
    ensures
        validated_ancestors(all.0, all.1).to_multiset() == validated_ancestors(
            of_left.0,
            of_left.1,
        ).to_multiset().add(validated_ancestors(of_right.0, of_right.1).to_multiset()),
        failed_queries(all.1) == failed_queries(of_left.1) + failed_queries(of_right.1),
{
    let both = left.union_prefer_right(right);
    let chosen = validated_ancestors(all.0, all.1);
    let l = validated_ancestors(of_left.0, of_left.1);
    let r = validated_ancestors(of_right.0, of_right.1);
    ancestors_are_chosen_once(both, all.0, all.1);
    ancestors_are_chosen_once(left, of_left.0, of_left.1);
    ancestors_are_chosen_once(right, of_right.0, of_right.1);
    chosen.lemma_multiset_has_no_duplicates();
    l.lemma_multiset_has_no_duplicates();
    r.lemma_multiset_has_no_duplicates();
    assert forall|shard: TenantShardId| #[trigger]
        chosen.to_multiset().count(shard) == l.to_multiset().count(shard) + r.to_multiset().count(
            shard,
        ) by {
        choice_depends_on_the_tenant_alone(both, all.0, all.1, answers, shard);
        choice_depends_on_the_tenant_alone(left, of_left.0, of_left.1, answers, shard);
        choice_depends_on_the_tenant_alone(right, of_right.0, of_right.1, answers, shard);
        let t = shard.tenant_id;
        assert(!(left.dom().contains(t) && right.dom().contains(t)));
        assert(chosen.contains(shard) <==> chosen.to_multiset().count(shard) > 0);
        assert(l.contains(shard) <==> l.to_multiset().count(shard) > 0);
        assert(r.contains(shard) <==> r.to_multiset().count(shard) > 0);
    }
    assert(chosen.to_multiset() =~= l.to_multiset().add(r.to_multiset()));

    lemma_failed_are_unanswered(both, all.0, all.1, answers);
    lemma_failed_are_unanswered(left, of_left.0, of_left.1, answers);
    lemma_failed_are_unanswered(right, of_right.0, of_right.1, answers);
    let a = unanswered(left, answers);
    let b = unanswered(right, answers);
    assert forall|t: TenantId| !(a.contains(t) && #[trigger] b.contains(t)) by {
        assert(!(left.dom().contains(t) && right.dom().contains(t)));
    }
    assert(unanswered(both, answers) =~= a + b) by {
        assert forall|t: TenantId| #[trigger]
            unanswered(both, answers).contains(t) == (a + b).contains(t) by {
            assert(!(left.dom().contains(t) && right.dom().contains(t)));
        }
    }
    vstd::set_lib::lemma_set_disjoint_lens(a, b);
}

/// The latest shards of a tenant are those that were seen and that no shard with a higher
/// count was seen beside; the ancestors are those that one with a higher count was seen
/// beside.
pub proof fn higher_counts_make_ancestors(shards: Set<ShardIndex>, shard: ShardIndex)
    ensures
        latest_shards_of(shards).contains(shard) <==> shards.contains(shard) && forall|
            other: ShardIndex,
        | #[trigger]
            shards.contains(other) ==> other.shard_count.0 <= shard.shard_count.0,
        ancestor_shards_of(shards).contains(shard) <==> shards.contains(shard) && exists|
            other: ShardIndex,
        | #[trigger]
            shards.contains(other) && other.shard_count.0 > shard.shard_count.0,
{
    if shards.contains(shard) {
        lemma_latest_count_exists(shards);
        let latest = latest_count_of(shards);
        let top = choose|other: ShardIndex| #[trigger]
            shards.contains(other) && other.shard_count == latest;
        assert(shards.contains(top));
        assert(shard.shard_count.0 <= latest.0);
    }
}

/// The highest count among the shards is the count of one of them, and none has a higher
/// one.
pub proof fn highest_count_is_the_latest(shards: Set<ShardIndex>, top: ShardIndex)
    requires
        shards.contains(top),
        forall|other: ShardIndex| #[trigger]
            shards.contains(other) ==> other.shard_count.0 <= top.shard_count.0,
    ensures
        latest_count_of(shards) == top.shard_count,
        is_latest_count(shards, top.shard_count),
        forall|count: ShardCount| #[trigger]
            is_latest_count(shards, count) ==> count == top.shard_count,
{
    assert(is_latest_count(shards, top.shard_count));
    lemma_latest_count(shards, top.shard_count);
    assert forall|count: ShardCount| #[trigger] is_latest_count(shards, count) implies count
        == top.shard_count by {
        lemma_latest_count(shards, count);
    }
}

/// A tenant was seen completely exactly if as many shards of the highest count were seen as
/// that count names, where a count of zero names one.
pub proof fn complete_views_have_as_many_shards_as_named(shards: Set<ShardIndex>, top: ShardIndex)
    requires
        shards.contains(top),
        forall|other: ShardIndex| #[trigger]
            shards.contains(other) ==> other.shard_count.0 <= top.shard_count.0,
    ensures
        top.shard_count.0 > 0 ==> (is_complete(shards) <==> shards.filter(
            |shard: ShardIndex| shard.shard_count == top.shard_count,
        ).len() == top.shard_count.0),
        top.shard_count.0 == 0 ==> (is_complete(shards) <==> shards.filter(
            |shard: ShardIndex| shard.shard_count == top.shard_count,
        ).len() == 1),
{
    highest_count_is_the_latest(shards, top);
    assert(latest_shards_of(shards) =~= shards.filter(
        |shard: ShardIndex| shard.shard_count == top.shard_count,
    ));
}

/// Where the numbers of the shards of the highest count are below that count, a tenant was
/// seen completely exactly if all of these shards were seen: one that is missing makes the
/// view incomplete.
pub proof fn complete_views_hold_every_latest_shard(shards: Set<ShardIndex>, top: ShardIndex)
    requires
        shards.finite(),
        shards.contains(top),
        top.shard_count.0 > 0,
        forall|other: ShardIndex| #[trigger]
            shards.contains(other) ==> other.shard_count.0 <= top.shard_count.0,
        forall|other: ShardIndex| #[trigger]
            shards.contains(other) && other.shard_count == top.shard_count ==> other.shard_number
                < top.shard_count.0,
    ensures
        is_complete(shards) <==> forall|n: u8|
            n < top.shard_count.0 ==> #[trigger] shards.contains(
                ShardIndex { shard_number: n, shard_count: top.shard_count },
            ),
{
    let count = top.shard_count;
    let every = Seq::new(
        count.0 as nat,
        |i: int| ShardIndex { shard_number: i as u8, shard_count: count },
    );
    assert(every.no_duplicates()) by {
        assert forall|i: int, j: int| 0 <= i < every.len() && 0 <= j < every.len() && i
            != j implies every[i] != every[j] by {
            assert(every[i].shard_number == i && every[j].shard_number == j);
        }
    }
    every.unique_seq_to_set();
    let latest = shards.filter(|shard: ShardIndex| shard.shard_count == count);
    complete_views_have_as_many_shards_as_named(shards, top);
    assert forall|shard: ShardIndex| latest.contains(shard) implies #[trigger]
        every.to_set().contains(shard) by {
        assert(shards.contains(shard));
        assert(every[shard.shard_number as int] == shard);
    }
    assert(latest.subset_of(every.to_set()));
    if is_complete(shards) {
        vstd::set_lib::lemma_subset_equality(latest, every.to_set());
        assert forall|n: u8| n < count.0 implies #[trigger] shards.contains(
            ShardIndex { shard_number: n, shard_count: count },
        ) by {
            assert(every[n as int] == ShardIndex { shard_number: n, shard_count: count });
            assert(every.to_set().contains(every[n as int]));
            assert(latest.contains(every[n as int]));
        }
    }
    if forall|n: u8|
        n < count.0 ==> #[trigger] shards.contains(
            ShardIndex { shard_number: n, shard_count: count },
        ) {
        assert forall|shard: ShardIndex| #[trigger] every.to_set().contains(shard) implies
            latest.contains(shard) by {
            let i = choose|i: int| 0 <= i < every.len() && every[i] == shard;
            assert(shards.contains(
                ShardIndex { shard_number: i as u8, shard_count: count },
            ));
        }
        assert(latest =~= every.to_set());
    }
}

/// A tenant has ancestor work exactly if it was seen completely and some shard with a lower
/// count was seen beside one with a higher.
pub proof fn ancestor_work_takes_ancestors(shards: Set<ShardIndex>)
    ensures
        has_ancestor_work(shards) <==> is_complete(shards) && exists|
            a: ShardIndex,
            b: ShardIndex,
        |
            #[trigger] shards.contains(a) && #[trigger] shards.contains(b) && a.shard_count.0
                < b.shard_count.0,
{
    if !ancestor_shards_of(shards).is_empty() {
        let a = choose|a: ShardIndex| ancestor_shards_of(shards).contains(a);
        assert(ancestor_shards_of(shards).contains(a));
        higher_counts_make_ancestors(shards, a);
    }
    if exists|a: ShardIndex, b: ShardIndex|
        #[trigger] shards.contains(a) && #[trigger] shards.contains(b) && a.shard_count.0
            < b.shard_count.0 {
        let (a, b) = choose|a: ShardIndex, b: ShardIndex|
            #[trigger] shards.contains(a) && #[trigger] shards.contains(b) && a.shard_count.0
                < b.shard_count.0;
        higher_counts_make_ancestors(shards, a);
        assert(ancestor_shards_of(shards).contains(a));
    }
}

/// Shards are in order exactly if each has a lower number than the one right after it.
pub proof fn order_goes_from_shard_to_shard(shards: Seq<ShardIndex>)
    ensures
        in_order(shards) <==> forall|i: int, j: int|
            0 <= i < shards.len() && 0 <= j < shards.len() && j == i + 1 ==> (
            #[trigger] shards[i]).shard_number < (#[trigger] shards[j]).shard_number,
    decreases shards.len(),
{
    if shards.len() > 0 {
        let rest = shards.drop_last();
        let n = shards.len() - 1;
        order_goes_from_shard_to_shard(rest);
        if forall|i: int, j: int|
            0 <= i < shards.len() && 0 <= j < shards.len() && j == i + 1 ==> (
            #[trigger] shards[i]).shard_number < (#[trigger] shards[j]).shard_number {
            assert forall|i: int, j: int|
                0 <= i < rest.len() && 0 <= j < rest.len() && j == i + 1 implies (
            #[trigger] rest[i]).shard_number < (#[trigger] rest[j]).shard_number by {
                assert(shards[i].shard_number < shards[j].shard_number);
            }
            assert(in_order(rest));
            assert forall|i: int, j: int| 0 <= i < j < shards.len() implies (
            #[trigger] shards[i]).shard_number < (#[trigger] shards[j]).shard_number by {
                if j == n {
                    assert(shards[n - 1].shard_number < shards[n].shard_number);
                    if i < n - 1 {
                        assert(rest[i].shard_number < rest[n - 1].shard_number);
                    }
                } else {
                    assert(rest[i].shard_number < rest[j].shard_number);
                }
            }
        }
    }
}

/// Of distinct elements, a selection is distinct as well, and is as large as the set of
/// those selected.
proof fn lemma_filter_distinct(shards: Seq<ShardIndex>, p: spec_fn(ShardIndex) -> bool)
    requires
        shards.no_duplicates(),
    ensures
        shards.filter(p).no_duplicates(),
        forall|shard: ShardIndex| #[trigger]
            shards.filter(p).contains(shard) <==> shards.contains(shard) && p(shard),
        shards.filter(p).len() == shards.to_set().filter(p).len(),
    decreases shards.len(),
{
    reveal(Seq::filter);
    if shards.len() > 0 {
        let rest = shards.drop_last();
        let last = shards.last();
        lemma_filter_distinct(rest, p);
        assert(shards =~= rest.push(last));
        assert forall|shard: ShardIndex| #[trigger]
            shards.filter(p).contains(shard) <==> shards.contains(shard) && p(shard) by {
            lemma_all_but_last(shards, shard);
            assert(shards[shards.len() - 1] == last);
            let kept = rest.filter(p);
            if kept.contains(shard) {
                let i = choose|i: int| 0 <= i < kept.len() && kept[i] == shard;
                assert(kept.push(last)[i] == shard);
            }
            assert(kept.push(last)[kept.len() as int] == last);
            if p(last) && shards.filter(p).contains(shard) && shard != last {
                let longer = kept.push(last);
                let i = choose|i: int| 0 <= i < longer.len() && longer[i] == shard;
                assert(kept[i] == shard);
            }
        }
        assert(!rest.filter(p).contains(last)) by {
            lemma_all_but_last(shards, last);
        }
    }
    shards.filter(p).unique_seq_to_set();
    assert(shards.filter(p).to_set() =~= shards.to_set().filter(p)) by {
        assert forall|shard: ShardIndex|
            shards.filter(p).to_set().contains(shard) == #[trigger] shards.to_set().filter(
                p,
            ).contains(shard) by {
            assert(shards.filter(p).to_set().contains(shard) == shards.filter(p).contains(shard));
            assert(shards.to_set().contains(shard) == shards.contains(shard));
        }
    }
}

/// What [`assess_tenant`] says of distinct shards, where `top` is one with the highest count:
/// shards were missed unless as many of that count are there as it names, where zero names
/// one; otherwise there are no ancestors unless some shard has another count; otherwise the
/// candidate holds the shards of that count, in order, and apart from them all the others.
pub proof fn assessment_goes_by_the_highest_count(
    tenant_id: TenantId,
    shards: Vec<ShardIndex>,
    r: TenantAssessment,
    top: int,
    shard: ShardIndex,
)
    requires
        shards@.no_duplicates(),
        0 <= top < shards@.len(),
        forall|i: int|
            0 <= i < shards@.len() ==> (#[trigger] shards@[i]).shard_count.0
                <= shards@[top].shard_count.0,
        call_ensures(assess_tenant, (tenant_id, shards), r),
    ensures
        call_requires(assess_tenant, (tenant_id, shards)),
        ({
            let count = shards@[top].shard_count;
            let seen = shards@.filter(|s: ShardIndex| s.shard_count == count).len();
            let named = if count.0 == 0 {
                1
            } else {
                count.0 as int
            };
            let others = exists|i: int|
                0 <= i < shards@.len() && (#[trigger] shards@[i]).shard_count != count;
            &&& r is MissedShards <==> seen != named
            &&& r is NoAncestors <==> seen == named && !others
            &&& r is AskController <==> seen == named && others
            &&& r matches TenantAssessment::AskController(candidate) ==> {
                &&& candidate.tenant_id == tenant_id
                &&& candidate.latest_shards@.contains(shard) <==> shards@.contains(shard)
                    && shard.shard_count == count
                &&& candidate.ancestor_shards@.contains(shard) <==> shards@.contains(shard)
                    && shard.shard_count != count
                &&& candidate.ancestor_shards@.no_duplicates()
                &&& forall|i: int, j: int|
                    0 <= i < candidate.latest_shards@.len() && 0 <= j
                        < candidate.latest_shards@.len() && j == i + 1 ==> (
                    #[trigger] candidate.latest_shards@[i]).shard_number < (
                    #[trigger] candidate.latest_shards@[j]).shard_number
            }
        }),
{
    let seen = shards@.to_set();
    let count = shards@[top].shard_count;
    let of_count = |s: ShardIndex| s.shard_count == count;
    assert forall|s: ShardIndex| #[trigger] seen.contains(s) == shards@.contains(s) by {}
    assert(seen.contains(shards@[top]));
    assert forall|s: ShardIndex| #[trigger] seen.contains(s) implies s.shard_count.0 <= count.0 by {
        let i = choose|i: int| 0 <= i < shards@.len() && shards@[i] == s;
        assert(shards@[i].shard_count.0 <= count.0);
    }
    lemma_filter_distinct(shards@, of_count);
    complete_views_have_as_many_shards_as_named(seen, shards@[top]);
    highest_count_is_the_latest(seen, shards@[top]);
    let ancestors = ancestor_shards_of(seen);
    if exists|i: int| 0 <= i < shards@.len() && (#[trigger] shards@[i]).shard_count != count {
        let i = choose|i: int| 0 <= i < shards@.len() && (#[trigger] shards@[i]).shard_count
            != count;
        assert(seen.contains(shards@[i]));
        assert(ancestors.contains(shards@[i]));
    }
    if !ancestors.is_empty() {
        let a = choose|a: ShardIndex| ancestors.contains(a);
        assert(ancestors.contains(a));
        let i = choose|i: int| 0 <= i < shards@.len() && shards@[i] == a;
        assert(shards@[i].shard_count != count);
    }
    if let TenantAssessment::AskController(candidate) = r {
        order_goes_from_shard_to_shard(candidate.latest_shards@);
        assert(candidate.latest_shards@.to_set().contains(shard)
            == candidate.latest_shards@.contains(shard));
        assert(candidate.ancestor_shards@.to_set().contains(shard)
            == candidate.ancestor_shards@.contains(shard));
    }
}

/// What [`AncestorCandidate::validate`] says: without a reply that the query failed;
/// otherwise that the shards differ unless the reply lists as many as there are latest
/// shards, each with the number and the count of the one in its place; otherwise that the
/// tenant is splitting if any of the listed shards is; otherwise that all is well.
pub proof fn validation_compares_shard_by_shard(
    candidate: AncestorCandidate,
    reply: Option<TenantDescribeResponse>,
    validation: Validation,
)
    requires
        call_ensures(AncestorCandidate::validate, (&candidate, &reply), validation),
    ensures
        validation == candidate.validation(reply),
        reply is None <==> validation is ControllerError,
        reply matches Some(desc) ==> {
            let named = desc.shards@;
            let latest = candidate.latest_shards@;
            let same = named.len() == latest.len() && forall|i: int|
                0 <= i < named.len() ==> (#[trigger] named[i]).tenant_shard_id.shard_number
                    == latest[i].shard_number && named[i].tenant_shard_id.shard_count
                    == latest[i].shard_count;
            let splitting = exists|i: int|
                0 <= i < named.len() && (#[trigger] named[i]).is_splitting;
            &&& validation is ShardsDiffer <==> !same
            &&& validation is Splitting <==> same && splitting
            &&& validation is Validated <==> same && !splitting
        },
{
    if let Some(desc) = reply {
        let named = desc.shards@;
        let latest = candidate.latest_shards@;
        descriptions_show_their_shards(desc);
        if named.len() == latest.len() && forall|i: int|
            0 <= i < named.len() ==> (#[trigger] named[i]).tenant_shard_id.shard_number
                == latest[i].shard_number && named[i].tenant_shard_id.shard_count
                == latest[i].shard_count {
            assert forall|i: int| 0 <= i < named.len() implies desc.indices()[i] == latest[i] by {
                assert(named[i].tenant_shard_id.shard_number == latest[i].shard_number);
            }
            assert(desc.indices() =~= latest);
        }
        if desc.indices() == latest {
            assert forall|i: int| 0 <= i < named.len() implies (
            #[trigger] named[i]).tenant_shard_id.shard_number == latest[i].shard_number
                && named[i].tenant_shard_id.shard_count == latest[i].shard_count by {
                assert(desc.indices()[i] == latest[i]);
            }
        }
    }
}

/// A description shows its shards in their order, each with its number and its count, and
/// a split where any of them is splitting.
pub proof fn descriptions_show_their_shards(desc: TenantDescribeResponse)
    ensures
        desc.indices().len() == desc.shards@.len(),
        forall|i: int|
            0 <= i < desc.shards@.len() ==> (#[trigger] desc.indices()[i]).shard_number
                == desc.shards@[i].tenant_shard_id.shard_number && desc.indices()[i].shard_count
                == desc.shards@[i].tenant_shard_id.shard_count,
        !desc.is_splitting() <==> forall|i: int|
            0 <= i < desc.shards@.len() ==> !(#[trigger] desc.shards@[i]).is_splitting,
{
}

/// The ancestors of a candidate are its ancestor shards, one by one, as shards of its
/// tenant.
pub proof fn ancestors_are_of_the_tenant(candidate: AncestorCandidate)
    ensures
        candidate.ancestors().len() == candidate.ancestor_shards@.len(),
        forall|i: int|
            0 <= i < candidate.ancestor_shards@.len() ==> {
                let ancestor = #[trigger] candidate.ancestors()[i];
                &&& ancestor.tenant_id == candidate.tenant_id
                &&& ancestor.shard_number == candidate.ancestor_shards@[i].shard_number
                &&& ancestor.shard_count == candidate.ancestor_shards@[i].shard_count
            },
{
}

/// One more candidate adds its ancestors to those chosen if the controller's reply names
/// exactly its latest shards and none of them is splitting, and adds nothing otherwise; one
/// more failed query adds one to the failures.
pub proof fn candidates_are_judged_one_by_one(
    candidates: Seq<AncestorCandidate>,
    replies: Seq<Option<TenantDescribeResponse>>,
    candidate: AncestorCandidate,
    reply: Option<TenantDescribeResponse>,
)
    requires
        candidates.len() == replies.len(),
    ensures
        validated_ancestors(Seq::empty(), replies) == Seq::<TenantShardId>::empty(),
        failed_queries(Seq::empty()) == 0,
        failed_queries(replies.push(reply)) == failed_queries(replies) + if reply is None {
            1nat
        } else {
            0nat
        },
        validated_ancestors(candidates.push(candidate), replies.push(reply))
            == validated_ancestors(candidates, replies) + if reply is Some && reply->0.indices()
            == candidate.latest_shards@ && !reply->0.is_splitting() {
            candidate.ancestors()
        } else {
            Seq::empty()
        },
{
    reveal(Seq::filter);
    assert(replies.push(reply).drop_last() =~= replies);
    assert(candidates.push(candidate).drop_last() =~= candidates);
    lemma_later_replies_do_not_matter(candidates, replies, replies.push(reply));
    let chosen = validated_ancestors(candidates, replies);
    assert(chosen + Seq::empty() =~= chosen);
}

/// Only the replies to the candidates count.
proof fn lemma_later_replies_do_not_matter(
    candidates: Seq<AncestorCandidate>,
    a: Seq<Option<TenantDescribeResponse>>,
    b: Seq<Option<TenantDescribeResponse>>,
)
    requires
        forall|i: int| 0 <= i < candidates.len() ==> a[i] == b[i],
    ensures
        validated_ancestors(candidates, a) == validated_ancestors(candidates, b),
    decreases candidates.len(),
{
    if candidates.len() > 0 {
        assert(a[candidates.len() - 1] == b[candidates.len() - 1]);
        lemma_later_replies_do_not_matter(candidates.drop_last(), a, b);
    }
}

/// What [`AncestorSurvey::into_gc_ancestors`] gives and counts.  It can be called with one
/// reply for each candidate, where the failures can be counted.  A shard is chosen exactly
/// if it is an ancestor of some candidate whose reply lists exactly the candidate's latest
/// shards, in their order, and no splitting one.  Each failed query counts as an error of
/// the controller, nothing else is counted, and the refcounts are handed on.
pub proof fn ancestors_are_chosen_by_the_replies(
    survey: AncestorSurvey,
    replies: Vec<Option<TenantDescribeResponse>>,
    summary: &mut GcSummary,
    r: (Vec<TenantShardId>, AncestorRefs),
    shard: TenantShardId,
)
    requires
        replies@.len() == survey.candidates@.len(),
    ensures
        old(summary).controller_api_errors + replies@.filter(
            |reply: Option<TenantDescribeResponse>| reply is None,
        ).len() <= usize::MAX ==> call_requires(
            AncestorSurvey::into_gc_ancestors,
            (survey, &replies, summary),
        ),
        call_ensures(AncestorSurvey::into_gc_ancestors, (survey, &replies, summary), r) ==> {
            &&& r.1@ == survey.ancestor_refs@
            &&& r.0@ == validated_ancestors(survey.candidates@, replies@)
            &&& final(summary).controller_api_errors == old(summary).controller_api_errors
                + replies@.filter(|reply: Option<TenantDescribeResponse>| reply is None).len()
            &&& final(summary).indices_deleted == old(summary).indices_deleted
            &&& final(summary).tenant_manifests_deleted == old(summary).tenant_manifests_deleted
            &&& final(summary).remote_storage_errors == old(summary).remote_storage_errors
            &&& final(summary).ancestor_layers_deleted == old(summary).ancestor_layers_deleted
            &&& r.0@.contains(shard) <==> exists|i: int|
                0 <= i < survey.candidates@.len() && {
                    let candidate = #[trigger] survey.candidates@[i];
                    &&& candidate.tenant_id == shard.tenant_id
                    &&& candidate.ancestor_shards@.contains(
                        ShardIndex {
                            shard_number: shard.shard_number,
                            shard_count: shard.shard_count,
                        },
                    )
                    &&& replies@[i] is Some
                    &&& replies@[i]->0.indices() == candidate.latest_shards@
                    &&& !replies@[i]->0.is_splitting()
                }
        },
{
    let candidates = survey.candidates@;
    validated_ancestors_are_chosen(candidates, replies@, shard);
    let index = ShardIndex { shard_number: shard.shard_number, shard_count: shard.shard_count };
    assert(shard.index() == index);
    assert forall|i: int| 0 <= i < candidates.len() implies #[trigger] is_validated_ancestor(
        candidates,
        replies@,
        i,
        shard,
    ) == ({
        let candidate = candidates[i];
        &&& candidate.tenant_id == shard.tenant_id
        &&& candidate.ancestor_shards@.contains(index)
        &&& replies@[i] is Some
        &&& replies@[i]->0.indices() == candidate.latest_shards@
        &&& !replies@[i]->0.is_splitting()
    }) by {}
    if exists|i: int|
        0 <= i < candidates.len() && {
            let candidate = #[trigger] candidates[i];
            &&& candidate.tenant_id == shard.tenant_id
            &&& candidate.ancestor_shards@.contains(index)
            &&& replies@[i] is Some
            &&& replies@[i]->0.indices() == candidate.latest_shards@
            &&& !replies@[i]->0.is_splitting()
        } {
        let i = choose|i: int|
            0 <= i < candidates.len() && {
                let candidate = #[trigger] candidates[i];
                &&& candidate.tenant_id == shard.tenant_id
                &&& candidate.ancestor_shards@.contains(index)
                &&& replies@[i] is Some
                &&& replies@[i]->0.indices() == candidate.latest_shards@
                &&& !replies@[i]->0.is_splitting()
            };
        assert(is_validated_ancestor(candidates, replies@, i, shard));
    }
}

/// What [`TenantRefAccumulator::survey`] says of a tenant that was seen, where `top` is one
/// of its shards with the highest count.  The tenant was missed unless as many shards of
/// that count were seen as it names, where zero names one.  It is a candidate exactly if it
/// was not missed and a shard of another count was seen, and then the candidate holds the
/// shards of that count, in order, and apart from them all the others.
pub proof fn survey_goes_by_the_highest_count(
    accumulator: TenantRefAccumulator,
    survey: AncestorSurvey,
    tenant_id: TenantId,
    top: ShardIndex,
    other: ShardIndex,
    k: int,
)
    requires
        accumulator.well_formed(),
        accumulator@.shards_seen.contains_key(tenant_id),
        accumulator@.shards_seen[tenant_id].contains(top),
        forall|s: ShardIndex| #[trigger]
            accumulator@.shards_seen[tenant_id].contains(s) ==> s.shard_count.0
                <= top.shard_count.0,
        call_ensures(TenantRefAccumulator::survey, (accumulator,), survey),
    ensures
        call_requires(TenantRefAccumulator::survey, (accumulator,)),
        survey.ancestor_refs@ == accumulator@.ancestor_refs,
        ({
            let shards = accumulator@.shards_seen[tenant_id];
            let seen = shards.filter(|s: ShardIndex| s.shard_count == top.shard_count).len();
            let named = if top.shard_count.0 == 0 {
                1
            } else {
                top.shard_count.0 as int
            };
            let others = exists|s: ShardIndex| #[trigger]
                shards.contains(s) && s.shard_count != top.shard_count;
            &&& survey.missed@.contains(tenant_id) <==> seen != named
            &&& (exists|i: int|
                0 <= i < survey.candidates@.len() && (#[trigger] survey.candidates@[i]).tenant_id
                    == tenant_id) <==> seen == named && others
            &&& 0 <= k < survey.candidates@.len() && survey.candidates@[k].tenant_id
                == tenant_id ==> {
                let candidate = survey.candidates@[k];
                &&& candidate.latest_shards@.contains(other) <==> shards.contains(other)
                    && other.shard_count == top.shard_count
                &&& candidate.ancestor_shards@.contains(other) <==> shards.contains(other)
                    && other.shard_count != top.shard_count
                &&& candidate.ancestor_shards@.no_duplicates()
                &&& forall|i: int, j: int|
                    0 <= i < candidate.latest_shards@.len() && 0 <= j
                        < candidate.latest_shards@.len() && j == i + 1 ==> (
                    #[trigger] candidate.latest_shards@[i]).shard_number < (
                    #[trigger] candidate.latest_shards@[j]).shard_number
            }
        }),
{
    let shards = accumulator@.shards_seen[tenant_id];
    complete_views_have_as_many_shards_as_named(shards, top);
    highest_count_is_the_latest(shards, top);
    ancestor_work_takes_ancestors(shards);
    if exists|s: ShardIndex| #[trigger] shards.contains(s) && s.shard_count != top.shard_count {
        let s = choose|s: ShardIndex| #[trigger]
            shards.contains(s) && s.shard_count != top.shard_count;
        assert(shards.contains(s) && shards.contains(top) && s.shard_count.0
            < top.shard_count.0);
    }
    if has_ancestor_work(shards) {
        let (a, b) = choose|a: ShardIndex, b: ShardIndex|
            #[trigger] shards.contains(a) && #[trigger] shards.contains(b) && a.shard_count.0
                < b.shard_count.0;
        assert(a.shard_count != top.shard_count);
        let i = choose|i: int|
            0 <= i < survey.candidates@.len() && (#[trigger] survey.candidates@[i]).tenant_id
                == tenant_id;
        assert(survey.candidates@[i].tenant_id == tenant_id);
    }
    if 0 <= k < survey.candidates@.len() && survey.candidates@[k].tenant_id == tenant_id {
        let candidate = survey.candidates@[k];
        order_goes_from_shard_to_shard(candidate.latest_shards@);
        assert(candidate.latest_shards@.to_set().contains(other)
            == candidate.latest_shards@.contains(other));
        assert(candidate.ancestor_shards@.to_set().contains(other)
            == candidate.ancestor_shards@.contains(other));
    }
}

/// [`TenantRefAccumulator::survey`] speaks of tenants that were seen only, and names each at
/// most once.
pub proof fn survey_names_tenants_once(
    accumulator: TenantRefAccumulator,
    survey: AncestorSurvey,
    i: int,
    j: int,
)
    requires
        call_ensures(TenantRefAccumulator::survey, (accumulator,), survey),
    ensures
        0 <= i < survey.candidates@.len() ==> accumulator@.shards_seen.contains_key(
            survey.candidates@[i].tenant_id,
        ),
        0 <= i < j < survey.candidates@.len() ==> survey.candidates@[i].tenant_id
            != survey.candidates@[j].tenant_id,
        0 <= i < survey.missed@.len() ==> accumulator@.shards_seen.contains_key(
            survey.missed@[i],
        ),
        0 <= i < j < survey.missed@.len() ==> survey.missed@[i] != survey.missed@[j],
{
    if 0 <= i < survey.missed@.len() {
        assert(survey.missed@.contains(survey.missed@[i]));
        assert(accumulator@.shards_seen.contains_key(survey.missed@[i]));
    }
}

} // verus!
