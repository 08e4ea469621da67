use crate::ids::{LayerName, ShardIndex, TenantShardTimelineId, TenantTimelineId};
use std::collections::HashMap;
use vstd::hash_map::StringHashMap;
use vstd::multiset::Multiset;
use vstd::prelude::*;

verus! {

broadcast use {vstd::std_specs::hash::group_hash_axioms, vstd::seq_lib::group_to_multiset_ensures};

/// A layer as descendants refer to it: the shard that owns it, and its name.
pub type LayerRef = (ShardIndex, Seq<char>);

/// What a shard's index says of a layer, as far as garbage collection reads it: the
/// shard that wrote the layer, which may be an ancestor of the one that lists it.
#[derive(Debug, Clone, Copy, PartialEq, Eq, Structural)]
pub struct LayerFileMetadata {
    pub shard: ShardIndex,
}

/// The references that a list of layers makes, in the order of the list.
pub open spec fn refs_of(layers: Seq<(LayerName, LayerFileMetadata)>) -> Seq<LayerRef> {
    layers.map_values(|layer: (LayerName, LayerFileMetadata)| (layer.1.shard, layer.0@))
}

/// How often `layer` occurs among `refs`.
pub open spec fn occurrences(refs: Seq<LayerRef>, layer: LayerRef) -> nat {
    refs.to_multiset().count(layer)
}

/// The count that `counts` keeps for `layer`: none at all is zero.
pub open spec fn count_in(counts: Map<LayerRef, nat>, layer: LayerRef) -> nat {
    if counts.contains_key(layer) {
        counts[layer]
    } else {
        0
    }
}

/// `counts` with one more reference for each occurrence in `refs`.
pub open spec fn with_refs(counts: Map<LayerRef, nat>, refs: Seq<LayerRef>) -> Map<
    LayerRef,
    nat,
> {
    Map::new(
        |layer: LayerRef| counts.contains_key(layer) || refs.contains(layer),
        |layer: LayerRef| count_in(counts, layer) + occurrences(refs, layer),
    )
}

/// Whether every count is at most `limit`.
pub open spec fn counts_at_most(counts: Map<LayerRef, nat>, limit: int) -> bool {
    forall|layer: LayerRef| #[trigger] count_in(counts, layer) <= limit
}

/// The refcounts of the layers of one timeline.
pub struct RefCounts {
    by_shard: HashMap<u16, StringHashMap<usize>>,
}

impl View for RefCounts {
    type V = Map<LayerRef, nat>;

    closed spec fn view(&self) -> Map<LayerRef, nat> {
        Map::new(
            |layer: LayerRef|
                self.by_shard@.contains_key(layer.0.spec_slot() as u16)
                    && self.by_shard@[layer.0.spec_slot() as u16]@.contains_key(layer.1),
            |layer: LayerRef| self.by_shard@[layer.0.spec_slot() as u16]@[layer.1] as nat,
        )
    }
}

impl RefCounts {
    /// No references.
    pub fn new() -> (counts: RefCounts)
        ensures
            counts@ == Map::<LayerRef, nat>::empty(),
    {
        let counts = RefCounts { by_shard: HashMap::new() };
        assert(counts@ =~= Map::<LayerRef, nat>::empty());
        counts
    }

    /// The refcount of a shard's layer, where it was ever referenced.
    pub fn get(&self, shard: ShardIndex, layer: &LayerName) -> (count: Option<usize>)
        ensures
            count is Some <==> self@.contains_key((shard, layer@)),
            count is Some ==> count->0 == self@[(shard, layer@)],
    {
        match self.by_shard.get(&shard.slot()) {
            Some(layers) => match layers.get(layer.name.as_str()) {
                Some(count) => Some(*count),
                None => None,
            },
            None => None,
        }
    }

    /// Counts one more reference to a shard's layer.
    fn increment(&mut self, shard: ShardIndex, layer: LayerName)
        requires
            count_in(old(self)@, (shard, layer@)) < usize::MAX,
        ensures
            final(self)@ == old(self)@.insert(
                (shard, layer@),
                count_in(old(self)@, (shard, layer@)) + 1,
            ),
    {
        let slot: u16 = shard.slot();
        let ghost key = (shard, layer@);
        let count: usize = match self.get(shard, &layer) {
            Some(count) => count,
            None => 0,
        };
        let layers = self.by_shard.entry(slot).or_insert(StringHashMap::new());
        layers.insert(layer.name, count + 1);
        proof {
            assert forall|other: ShardIndex| #[trigger] other.spec_slot() as u16 == slot
                implies other == shard by {
                crate::ids::slots_are_distinct(other, shard);
            }
            assert(self@ =~= old(self)@.insert(key, (count + 1) as nat));
        }
    }

    /// Counts the references that the layers make.
    fn count(layers: &Vec<(LayerName, LayerFileMetadata)>) -> (counts: RefCounts)
        ensures
            counts@ == with_refs(Map::empty(), refs_of(layers@)),
    {
        let mut counts = RefCounts::new();
        let ghost refs = refs_of(layers@);
        assert(counts@ =~= with_refs(Map::empty(), refs.take(0)));
        for i in 0..layers.len()
            invariant
                refs == refs_of(layers@),
                counts@ == with_refs(Map::empty(), refs.take(i as int)),
        {
            let (layer_name, layer_metadata) = &layers[i];
            proof {
                let seen = refs.take(i as int);
                assert(refs[i as int] == (layer_metadata.shard, layer_name@));
                assert(refs.take(i + 1) =~= seen.push(refs[i as int]));
                lemma_one_more_ref(Map::empty(), seen, refs[i as int]);
                assert(occurrences(seen, refs[i as int]) <= seen.to_multiset().len());
                assert(count_in(counts@, refs[i as int]) <= i);
            }
            counts.increment(layer_metadata.shard, layer_name.clone());
        }
        assert(refs.take(refs.len() as int) =~= refs);
        counts
    }

    /// Counts one more reference for each of the layers.
    fn record(&mut self, layers: Vec<(LayerName, LayerFileMetadata)>)
        requires
            counts_at_most(with_refs(old(self)@, refs_of(layers@)), usize::MAX as int),
        ensures
            final(self)@ == with_refs(old(self)@, refs_of(layers@)),
    {
        let ghost all = with_refs(self@, refs_of(layers@));
        let mut layers = layers;
        loop
            invariant_except_break
                with_refs(self@, refs_of(layers@)) == all,
            invariant
                counts_at_most(all, usize::MAX as int),
            ensures
                self@ == all,
            decreases layers@.len(),
        {
            let ghost before = layers@;
            let (layer_name, layer_metadata) = match layers.pop() {
                Some(layer) => layer,
                None => {
                    assert(self@ =~= with_refs(self@, refs_of(layers@)));
                    break;
                },
            };
            proof {
                let layer = (layer_metadata.shard, layer_name@);
                assert(refs_of(before) =~= refs_of(layers@).push(layer));
                lemma_with_one_more_ref(self@, refs_of(layers@), layer);
                assert(count_in(all, layer) <= usize::MAX);
            }
            self.increment(layer_metadata.shard, layer_name);
        }
    }
}

/// Counting one more reference last or first comes to the same.
proof fn lemma_with_one_more_ref(
    counts: Map<LayerRef, nat>,
    refs: Seq<LayerRef>,
    layer: LayerRef,
)
    ensures
        with_refs(counts, refs.push(layer)) == with_refs(
            counts.insert(layer, count_in(counts, layer) + 1),
            refs,
        ),
        count_in(with_refs(counts, refs.push(layer)), layer) > count_in(counts, layer),
{
    let left = with_refs(counts, refs.push(layer));
    let right = with_refs(counts.insert(layer, count_in(counts, layer) + 1), refs);
    assert(refs.push(layer).to_multiset() == refs.to_multiset().insert(layer));
    assert forall|l: LayerRef| #[trigger] refs.push(layer).contains(l) == (refs.contains(l) || l
        == layer) by {
        assert(refs.push(layer).contains(l) <==> refs.push(layer).to_multiset().count(l) > 0);
        assert(refs.contains(l) <==> refs.to_multiset().count(l) > 0);
    }
    assert(left =~= right);
}

/// One more reference is counted on top of the others.
proof fn lemma_one_more_ref(counts: Map<LayerRef, nat>, refs: Seq<LayerRef>, layer: LayerRef)
    ensures
        with_refs(counts, refs.push(layer)) == with_refs(counts, refs).insert(
            layer,
            count_in(with_refs(counts, refs), layer) + 1,
        ),
{
    lemma_with_one_more_ref(counts, refs, layer);
    let left = with_refs(counts.insert(layer, count_in(counts, layer) + 1), refs);
    let right = with_refs(counts, refs).insert(
        layer,
        count_in(with_refs(counts, refs), layer) + 1,
    );
    assert(refs.contains(layer) <==> refs.to_multiset().count(layer) > 0);
    assert(left =~= right);
}

/// Map of cross-shard layer references, giving a refcount for each layer in each shard
/// that is referenced by some other shard in the same tenant.  This is sparse: the vast
/// majority of timelines have no cross-shard references, and those that have some should
/// eventually drop most of them via compaction.
pub struct AncestorRefs {
    by_tenant: HashMap<u128, HashMap<u128, RefCounts>>,
}

impl View for AncestorRefs {
    type V = Map<TenantTimelineId, Map<LayerRef, nat>>;

    /// The timelines do not tell their shards apart, and the shard of a reference is
    /// the ancestor that is referred to.
    closed spec fn view(&self) -> Map<TenantTimelineId, Map<LayerRef, nat>> {
        Map::new(
            |ttid: TenantTimelineId|
                self.by_tenant@.contains_key(ttid.tenant_id.0)
                    && self.by_tenant@[ttid.tenant_id.0]@.contains_key(ttid.timeline_id.0),
            |ttid: TenantTimelineId| self.by_tenant@[ttid.tenant_id.0]@[ttid.timeline_id.0]@,
        )
    }
}

/// The refcounts that `refs` keeps for a timeline: none where it has none.
pub open spec fn counts_of(
    refs: Map<TenantTimelineId, Map<LayerRef, nat>>,
    ttid: TenantTimelineId,
) -> Map<LayerRef, nat> {
    if refs.contains_key(ttid) {
        refs[ttid]
    } else {
        Map::empty()
    }
}

/// What `known` becomes once the references of one more shard of a timeline are counted.
pub open spec fn after_update(
    known: Map<TenantTimelineId, Map<LayerRef, nat>>,
    ttid: TenantTimelineId,
    refs: Seq<LayerRef>,
) -> Map<TenantTimelineId, Map<LayerRef, nat>> {
    known.insert(ttid, with_refs(counts_of(known, ttid), refs))
}

impl Default for AncestorRefs {
    /// No references.
    fn default() -> (refs: AncestorRefs)
        ensures
            refs@ == Map::<TenantTimelineId, Map<LayerRef, nat>>::empty(),
    {
        let refs = AncestorRefs { by_tenant: HashMap::new() };
        assert(refs@ =~= Map::<TenantTimelineId, Map<LayerRef, nat>>::empty());
        refs
    }
}

impl AncestorRefs {
    /// Whether the references that the layers make can be counted for a timeline without
    /// overflowing a refcount.
    pub fn has_room(
        &self,
        ttid: &TenantTimelineId,
        layers: &Vec<(LayerName, LayerFileMetadata)>,
    ) -> (room: bool)
        ensures
            room == counts_at_most(
                with_refs(counts_of(self@, *ttid), refs_of(layers@)),
                usize::MAX as int,
            ),
    {
        let ghost refs = refs_of(layers@);
        let ghost before = counts_of(self@, *ttid);
        let ghost after = with_refs(before, refs);
        let counts = self.get_ttid_refcounts(ttid);
        let added = RefCounts::count(layers);
        for i in 0..layers.len()
            invariant
                refs == refs_of(layers@),
                before == counts_of(self@, *ttid),
                after == with_refs(before, refs),
                counts is Some <==> self@.contains_key(*ttid),
                counts matches Some(counts) ==> counts@ == self@[*ttid],
                added@ == with_refs(Map::empty(), refs),
                forall|j: int|
                    0 <= j < i ==> count_in(after, #[trigger] refs[j]) <= usize::MAX,
        {
            let (layer_name, layer_metadata) = &layers[i];
            let ghost layer = refs[i as int];
            assert(layer == (layer_metadata.shard, layer_name@));
            assert(refs.contains(layer));
            let count: usize = match counts {
                Some(counts) => match counts.get(layer_metadata.shard, layer_name) {
                    Some(count) => count,
                    None => 0,
                },
                None => 0,
            };
            let more: usize = match added.get(layer_metadata.shard, layer_name) {
                Some(more) => more,
                None => 0,
            };
            assert(count_in(after, layer) == count + more);
            if count > usize::MAX - more {
                return false;
            }
        }
        assert forall|layer: LayerRef| #[trigger] count_in(after, layer) <= usize::MAX by {
            assert(refs.contains(layer) <==> refs.to_multiset().count(layer) > 0);
            if refs.contains(layer) {
                let j = choose|j: int| 0 <= j < refs.len() && refs[j] == layer;
                assert(count_in(after, refs[j]) <= usize::MAX);
            }
        }
        true
    }

    /// Insert references for layers discovered in a particular shard-timeline that refer
    /// to an ancestral shard-timeline.
    pub fn update(
        &mut self,
        ttid: TenantShardTimelineId,
        layers: Vec<(LayerName, LayerFileMetadata)>,
    )
        requires
            counts_at_most(
                with_refs(counts_of(old(self)@, ttid.ttid()), refs_of(layers@)),
                usize::MAX as int,
            ),
        ensures
            final(self)@ == after_update(old(self)@, ttid.ttid(), refs_of(layers@)),
    {
        let ttid = ttid.as_tenant_timeline_id();
        let timelines = self.by_tenant.entry(ttid.tenant_id.0).or_insert(HashMap::new());
        let counts = timelines.entry(ttid.timeline_id.0).or_insert(RefCounts::new());
        counts.record(layers);
        assert(self@ =~= after_update(old(self)@, ttid, refs_of(layers@)));
    }

    /// For a particular timeline, return the refcounts of all ancestor layers referenced
    /// by a descendant.
    ///
    /// The shard in the result's key is that of the _ancestor_, not the descendant.
    pub fn get_ttid_refcounts(&self, ttid: &TenantTimelineId) -> (counts: Option<&RefCounts>)
        ensures
            counts is Some <==> self@.contains_key(*ttid),
            counts matches Some(counts) ==> counts@ == self@[*ttid],
    {
        match self.by_tenant.get(&ttid.tenant_id.0) {
            Some(timelines) => timelines.get(&ttid.timeline_id.0),
            None => None,
        }
    }
}

/// The references that one shard of a timeline makes, as they are handed in.
pub struct RefUpdate {
    pub ttid: TenantShardTimelineId,
    pub refs: Seq<LayerRef>,
}

impl RefUpdate {
    /// What the refcounts depend on: the timeline, whichever shard it is on, and the
    /// references, in whatever order.
    pub open spec fn effect(self) -> (TenantTimelineId, Multiset<LayerRef>) {
        (self.ttid.ttid(), self.refs.to_multiset())
    }
}

/// What `known` becomes once the given references have been counted, in their order.
pub open spec fn after_updates(
    known: Map<TenantTimelineId, Map<LayerRef, nat>>,
    updates: Seq<RefUpdate>,
) -> Map<TenantTimelineId, Map<LayerRef, nat>>
    decreases updates.len(),
{
    if updates.len() == 0 {
        known
    } else {
        let last = updates.last();
        after_update(after_updates(known, updates.drop_last()), last.ttid.ttid(), last.refs)
    }
}

/// `counts` with the given number of additional references to each layer.
spec fn with_multiset(counts: Map<LayerRef, nat>, refs: Multiset<LayerRef>) -> Map<LayerRef, nat> {
    Map::new(
        |layer: LayerRef| counts.contains_key(layer) || refs.count(layer) > 0,
        |layer: LayerRef| count_in(counts, layer) + refs.count(layer),
    )
}

/// What `known` becomes by the effect of one update.
spec fn after_effect(
    known: Map<TenantTimelineId, Map<LayerRef, nat>>,
    effect: (TenantTimelineId, Multiset<LayerRef>),
) -> Map<TenantTimelineId, Map<LayerRef, nat>> {
    known.insert(effect.0, with_multiset(counts_of(known, effect.0), effect.1))
}

/// Two effects come to the same in either order.
proof fn lemma_effects_commute(
    known: Map<TenantTimelineId, Map<LayerRef, nat>>,
    a: (TenantTimelineId, Multiset<LayerRef>),
    b: (TenantTimelineId, Multiset<LayerRef>),
)
    ensures
        after_effect(after_effect(known, a), b) == after_effect(after_effect(known, b), a),
{
    if a.0 == b.0 {
        let counts = counts_of(known, a.0);
        assert(with_multiset(with_multiset(counts, a.1), b.1) =~= with_multiset(
            with_multiset(counts, b.1),
            a.1,
        ));
    }
    assert(after_effect(after_effect(known, a), b) =~= after_effect(after_effect(known, b), a));
}

/// Updates change the refcounts by their effects alone.
proof fn lemma_updates_are_effects(
    known: Map<TenantTimelineId, Map<LayerRef, nat>>,
    updates: Seq<RefUpdate>,
)
    ensures
        after_updates(known, updates) == updates.map_values(|u: RefUpdate| u.effect()).fold_left(
            known,
            |k, e| after_effect(k, e),
        ),
    decreases updates.len(),
{
    let effects = updates.map_values(|u: RefUpdate| u.effect());
    if updates.len() > 0 {
        let rest = updates.drop_last();
        let last = updates.last();
        lemma_updates_are_effects(known, rest);
        assert(effects.drop_last() =~= rest.map_values(|u: RefUpdate| u.effect()));
        let before = counts_of(after_updates(known, rest), last.ttid.ttid());
        assert forall|layer: LayerRef| #[trigger] last.refs.contains(layer) == (
        last.refs.to_multiset().count(layer) > 0) by {}
        assert(with_refs(before, last.refs) =~= with_multiset(before, last.refs.to_multiset()));
    }
}

/// Neither the order in which the references of several shards are counted, nor the order
/// of the references of one shard, nor which shard of a timeline makes them changes the
/// refcounts of any timeline.
pub proof fn order_of_updates_is_irrelevant(
    known: Map<TenantTimelineId, Map<LayerRef, nat>>,
    a: Seq<RefUpdate>,
    b: Seq<RefUpdate>,
)
    requires
        a.map_values(|u: RefUpdate| u.effect()).to_multiset() == b.map_values(
            |u: RefUpdate| u.effect(),
        ).to_multiset(),
    ensures
        after_updates(known, a) == after_updates(known, b),
{
    let step = |k: Map<TenantTimelineId, Map<LayerRef, nat>>, e| after_effect(k, e);
    assert forall|x, y, k| #[trigger] step(step(k, x), y) == step(step(k, y), x) by {
        lemma_effects_commute(k, x, y);
    }
    lemma_updates_are_effects(known, a);
    lemma_updates_are_effects(known, b);
    vstd::seq_lib::lemma_fold_left_permutation(
        a.map_values(|u: RefUpdate| u.effect()),
        b.map_values(|u: RefUpdate| u.effect()),
        step,
        known,
    );
}

/// How many references to a layer a list of layers makes is how many of its entries bear the
/// layer's name and belong to its shard.
pub proof fn references_are_entries_of_the_list(
    layers: Seq<(LayerName, LayerFileMetadata)>,
    shard: ShardIndex,
    name: Seq<char>,
)
    ensures
        refs_of(layers).len() == layers.len(),
        forall|i: int|
            0 <= i < layers.len() ==> #[trigger] refs_of(layers)[i] == (
                layers[i].1.shard,
                layers[i].0.name@,
            ),
        occurrences(refs_of(layers), (shard, name)) == layers.filter(
            |entry: (LayerName, LayerFileMetadata)|
                entry.1.shard == shard && entry.0.name@ == name,
        ).len(),
    decreases layers.len(),
{
    reveal(Seq::filter);
    if layers.len() > 0 {
        let rest = layers.drop_last();
        references_are_entries_of_the_list(rest, shard, name);
        let last = (layers.last().1.shard, layers.last().0@);
        assert(refs_of(layers) =~= refs_of(rest).push(last));
        assert(refs_of(layers).to_multiset() == refs_of(rest).to_multiset().insert(last));
    } else {
        assert(refs_of(layers) =~= Seq::empty());
    }
}

/// A layer occurs once more in a longer sequence exactly if it is the one that was added.
pub proof fn occurrences_go_one_by_one(refs: Seq<LayerRef>, added: LayerRef, layer: LayerRef)
    ensures
        occurrences(Seq::empty(), layer) == 0,
        occurrences(refs.push(added), layer) == occurrences(refs, layer) + if added == layer {
            1nat
        } else {
            0nat
        },
{
    assert(refs.push(added).to_multiset() == refs.to_multiset().insert(added));
}

/// A layer without a count has none, and one with a count has that.
pub proof fn missing_counts_are_zero(
    counts: Map<LayerRef, nat>,
    layer: LayerRef,
    known: Map<TenantTimelineId, Map<LayerRef, nat>>,
    ttid: TenantTimelineId,
)
    ensures
        counts.contains_key(layer) ==> count_in(counts, layer) == counts[layer],
        !counts.contains_key(layer) ==> count_in(counts, layer) == 0,
        known.contains_key(ttid) ==> counts_of(known, ttid) == known[ttid],
        !known.contains_key(ttid) ==> !counts_of(known, ttid).contains_key(layer),
{
}

/// Counting no references changes nothing, and each reference adds one to the count of its
/// layer and leaves the others alone.
pub proof fn each_reference_counts_once(
    counts: Map<LayerRef, nat>,
    refs: Seq<LayerRef>,
    added: LayerRef,
    other: LayerRef,
)
    requires
        other != added,
    ensures
        with_refs(counts, Seq::empty()) == counts,
        with_refs(counts, refs.push(added)).contains_key(added),
        with_refs(counts, refs.push(added))[added] == 1 + if with_refs(counts, refs).contains_key(
            added,
        ) {
            with_refs(counts, refs)[added]
        } else {
            0
        },
        with_refs(counts, refs.push(added)).contains_key(other) <==> with_refs(
            counts,
            refs,
        ).contains_key(other),
        with_refs(counts, refs).contains_key(other) ==> with_refs(
            counts,
            refs.push(added),
        )[other] == with_refs(counts, refs)[other],
{
    assert(with_refs(counts, Seq::empty()) =~= counts);
    lemma_one_more_ref(counts, refs, added);
}

/// All counts are within a limit exactly if each that is kept is.
pub proof fn limits_hold_for_each_count(counts: Map<LayerRef, nat>, limit: int)
    requires
        0 <= limit,
    ensures
        counts_at_most(counts, limit) <==> forall|layer: LayerRef| #[trigger]
            counts.contains_key(layer) ==> counts[layer] <= limit,
{
    if counts_at_most(counts, limit) {
        assert forall|layer: LayerRef| #[trigger] counts.contains_key(layer) implies counts[layer]
            <= limit by {
            assert(count_in(counts, layer) <= limit);
        }
    }
}

/// What a call of [`AncestorRefs::update`] does to the refcount of a layer, and what
/// [`AncestorRefs::get_ttid_refcounts`] and [`RefCounts::get`] then give.  The refcounts of
/// the shard's timeline grow, for each layer, by the number of entries with its name and
/// shard; those of other timelines stay.  The call is possible where no count can grow past
/// the machine's limit even if all entries were of one layer.
pub proof fn update_counts_entries(
    refs: &mut AncestorRefs,
    ttid: TenantShardTimelineId,
    layers: Vec<(LayerName, LayerFileMetadata)>,
    key: TenantTimelineId,
    shard: ShardIndex,
    name: Seq<char>,
)
    ensures
        (forall|t: TenantTimelineId, l: LayerRef|
            old(refs)@.contains_key(t) && #[trigger] old(refs)@[t].contains_key(l) ==> old(
                refs,
            )@[t][l] + layers@.len() <= usize::MAX) && layers@.len() <= usize::MAX
            ==> call_requires(AncestorRefs::update, (refs, ttid, layers)),
        call_ensures(AncestorRefs::update, (refs, ttid, layers), ()) ==> {
            let entries = layers@.filter(
                |entry: (LayerName, LayerFileMetadata)|
                    entry.1.shard == shard && entry.0.name@ == name,
            ).len();
            let layer = (shard, name);
            let before = old(refs)@;
            let after = final(refs)@;
            let had = before.contains_key(key) && before[key].contains_key(layer);
            if key.tenant_id == ttid.tenant_shard_id.tenant_id && key.timeline_id
                == ttid.timeline_id {
                &&& after.contains_key(key)
                &&& after[key].contains_key(layer) <==> had || entries > 0
                &&& after[key].contains_key(layer) ==> after[key][layer] == entries + if had {
                    before[key][layer]
                } else {
                    0
                }
            } else {
                &&& after.contains_key(key) <==> before.contains_key(key)
                &&& before.contains_key(key) ==> after[key] == before[key]
            }
        },
{
    references_are_entries_of_the_list(layers@, shard, name);
    let list = refs_of(layers@);
    assert(list.contains((shard, name)) <==> list.to_multiset().count((shard, name)) > 0);
    let counts = counts_of(old(refs)@, ttid.ttid());
    if (forall|t: TenantTimelineId, l: LayerRef|
        old(refs)@.contains_key(t) && #[trigger] old(refs)@[t].contains_key(l) ==> old(
            refs,
        )@[t][l] + layers@.len() <= usize::MAX) && layers@.len() <= usize::MAX {
        assert forall|l: LayerRef| #[trigger] count_in(with_refs(counts, list), l) <= usize::MAX by {
            assert(occurrences(list, l) <= list.to_multiset().len());
            if old(refs)@.contains_key(ttid.ttid()) {
                assert(old(refs)@[ttid.ttid()] == counts);
            }
        }
    }
}

/// What is read back of the refcounts: a timeline that has none gives nothing, and a layer's
/// count is the one kept for its shard and name.  New refcounts are empty, be it of all
/// timelines or of one.
pub proof fn refcounts_are_read_back(
    refs: AncestorRefs,
    ttid: TenantTimelineId,
    counts: Option<&RefCounts>,
    shard: ShardIndex,
    layer: LayerName,
    count: Option<usize>,
    fresh: AncestorRefs,
    fresh_counts: RefCounts,
)
    requires
        call_ensures(AncestorRefs::get_ttid_refcounts, (&refs, &ttid), counts),
        counts is Some ==> call_ensures(RefCounts::get, (counts->0, shard, &layer), count),
        call_ensures(AncestorRefs::default, (), fresh),
        call_ensures(RefCounts::new, (), fresh_counts),
    ensures
        counts is Some <==> refs@.contains_key(ttid),
        counts is Some ==> (count is Some <==> refs@[ttid].contains_key((shard, layer.name@))),
        counts is Some && count is Some ==> count->0 == refs@[ttid][(shard, layer.name@)],
        !fresh@.contains_key(ttid),
        !fresh_counts@.contains_key((shard, layer.name@)),
{
}

/// [`AncestorRefs::has_room`] says no exactly if some entry of the list belongs to a layer
/// whose count and whose entries together go past the machine's limit.
pub proof fn room_is_for_each_entry(
    refs: AncestorRefs,
    ttid: TenantTimelineId,
    layers: Vec<(LayerName, LayerFileMetadata)>,
    room: bool,
)
    requires
        call_ensures(AncestorRefs::has_room, (&refs, &ttid, &layers), room),
        forall|t: TenantTimelineId, l: LayerRef|
            refs@.contains_key(t) && #[trigger] refs@[t].contains_key(l) ==> refs@[t][l]
                <= usize::MAX,
    ensures
        room <==> forall|i: int|
            0 <= i < layers@.len() ==> {
                let layer = ((#[trigger] layers@[i]).1.shard, layers@[i].0.name@);
                occurrences(refs_of(layers@), layer) + (if refs@.contains_key(ttid)
                    && refs@[ttid].contains_key(layer) {
                    refs@[ttid][layer]
                } else {
                    0
                }) <= usize::MAX
            },
{
    let list = refs_of(layers@);
    let counts = counts_of(refs@, ttid);
    let after = with_refs(counts, list);
    assert forall|i: int| 0 <= i < layers@.len() implies ({
        let layer = ((#[trigger] layers@[i]).1.shard, layers@[i].0.name@);
        &&& list.contains(layer)
        &&& count_in(after, layer) == count_in(counts, layer) + occurrences(list, layer)
    }) by {
        assert(list[i] == (layers@[i].1.shard, layers@[i].0.name@));
    }
    assert forall|l: LayerRef| !(#[trigger] list.contains(l)) implies count_in(after, l)
        <= usize::MAX by {
        assert(list.contains(l) <==> list.to_multiset().count(l) > 0);
        if refs@.contains_key(ttid) && refs@[ttid].contains_key(l) {
            assert(refs@[ttid][l] <= usize::MAX);
        }
    }
    if room {
        assert forall|i: int| 0 <= i < layers@.len() implies count_in(
            after,
            ((#[trigger] layers@[i]).1.shard, layers@[i].0.name@),
        ) <= usize::MAX by {}
    } else {
        let l = choose|l: LayerRef| !(#[trigger] count_in(after, l) <= usize::MAX);
        assert(list.contains(l));
        let i = choose|i: int| 0 <= i < list.len() && list[i] == l;
        assert(l == (layers@[i].1.shard, layers@[i].0.name@));
    }
}

/// One update after another: the later one starts from what the earlier ones left.
pub proof fn updates_go_one_by_one(
    known: Map<TenantTimelineId, Map<LayerRef, nat>>,
    updates: Seq<RefUpdate>,
    next: RefUpdate,
    key: TenantTimelineId,
)
    ensures
        after_updates(known, Seq::empty()) == known,
        next.effect().0.tenant_id == next.ttid.tenant_shard_id.tenant_id,
        next.effect().0.timeline_id == next.ttid.timeline_id,
        next.effect().1 == next.refs.to_multiset(),
        ({
            let before = after_updates(known, updates);
            let after = after_updates(known, updates.push(next));
            if key.tenant_id == next.ttid.tenant_shard_id.tenant_id && key.timeline_id
                == next.ttid.timeline_id {
                after.contains_key(key) && after[key] == with_refs(
                    if before.contains_key(key) {
                        before[key]
                    } else {
                        Map::empty()
                    },
                    next.refs,
                )
            } else {
                &&& after.contains_key(key) <==> before.contains_key(key)
                &&& before.contains_key(key) ==> after[key] == before[key]
            }
        }),
{
    assert(updates.push(next).drop_last() =~= updates);
}

} // verus!
