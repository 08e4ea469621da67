use crate::ids::{
    LayerName, ShardIndex, TenantId, TenantShardId, TenantShardTimelineId, TenantTimelineId,
};
use crate::refs::{
    after_update, count_in, counts_at_most, counts_of, occurrences, refs_of,
    AncestorRefs, LayerFileMetadata, LayerRef,
};
use std::collections::HashMap;
use vstd::prelude::*;

verus! {

broadcast use {vstd::std_specs::hash::group_hash_axioms, vstd::seq_lib::group_to_multiset_ensures};

/// The index of a timeline on one shard, as far as garbage collection reads it: the
/// layers that make up the timeline there.
pub struct IndexPart {
    pub layer_metadata: Vec<(LayerName, LayerFileMetadata)>,
}

impl View for IndexPart {
    type V = Seq<LayerRef>;

    open spec fn view(&self) -> Seq<LayerRef> {
        refs_of(self.layer_metadata@)
    }
}

/// Those of a shard's layers that belong to another shard.
pub open spec fn cross_shard_refs(layers: Seq<LayerRef>, shard: ShardIndex) -> Seq<LayerRef> {
    layers.filter(|layer: LayerRef| layer.0 != shard)
}

/// What is known of the tenants' shards: which were seen, and how often one refers to
/// another's layers.
#[verifier::ext_equal]
pub struct TenantRefs {
    pub shards_seen: Map<TenantId, Set<ShardIndex>>,
    pub ancestor_refs: Map<TenantTimelineId, Map<LayerRef, nat>>,
}

impl TenantRefs {
    /// Nothing is known.
    pub open spec fn empty() -> TenantRefs {
        TenantRefs { shards_seen: Map::empty(), ancestor_refs: Map::empty() }
    }

    /// The shards seen of a tenant.
    pub open spec fn shards_of(self, tenant_id: TenantId) -> Set<ShardIndex> {
        if self.shards_seen.contains_key(tenant_id) {
            self.shards_seen[tenant_id]
        } else {
            Set::empty()
        }
    }

    /// What is known once the index of a timeline on one shard has been seen as well.
    pub open spec fn after(self, ttid: TenantShardTimelineId, layers: Seq<LayerRef>) -> TenantRefs {
        let tenant_id = ttid.tenant_shard_id.tenant_id;
        let shard = ttid.tenant_shard_id.index();
        let refs = cross_shard_refs(layers, shard);
        TenantRefs {
            shards_seen: self.shards_seen.insert(
                tenant_id,
                self.shards_of(tenant_id).insert(shard),
            ),
            ancestor_refs: if refs.len() == 0 {
                self.ancestor_refs
            } else {
                after_update(self.ancestor_refs, ttid.ttid(), refs)
            },
        }
    }
}

impl TenantRefs {
    /// Whether the refcounts that the index of a timeline on one shard changes, if any, still
    /// fit the machine integers that they are kept in.
    pub open spec fn has_room_for(
        self,
        ttid: TenantShardTimelineId,
        layers: Seq<LayerRef>,
    ) -> bool {
        cross_shard_refs(layers, ttid.tenant_shard_id.index()).len() > 0 ==> counts_at_most(
            counts_of(self.after(ttid, layers).ancestor_refs, ttid.ttid()),
            usize::MAX as int,
        )
    }
}

/// As shards of a tenant are seen, accumulates the knowledge needed for cross-shard
/// garbage collection: whether there are any ancestor shards, and whether there are any
/// references to ancestor shards' layers.
pub struct TenantRefAccumulator {
    shards_seen: HashMap<u128, Vec<ShardIndex>>,
    ancestor_ref_shards: AncestorRefs,
}

impl View for TenantRefAccumulator {
    type V = TenantRefs;

    closed spec fn view(&self) -> TenantRefs {
        TenantRefs {
            shards_seen: Map::new(
                |tenant_id: TenantId| self.shards_seen@.contains_key(tenant_id.0),
                |tenant_id: TenantId| self.shards_seen@[tenant_id.0]@.to_set(),
            ),
            ancestor_refs: self.ancestor_ref_shards@,
        }
    }
}

/// Adds a shard to a list of distinct shards.
fn insert_shard(shards: &mut Vec<ShardIndex>, shard: ShardIndex)
    requires
        old(shards)@.no_duplicates(),
    ensures
        final(shards)@.no_duplicates(),
        final(shards)@.len() > 0,
        final(shards)@.to_set() == old(shards)@.to_set().insert(shard),
{
    for i in 0..shards.len()
        invariant
            shards@ == old(shards)@,
            shards@.no_duplicates(),
            forall|j: int| 0 <= j < i ==> shards@[j] != shard,
    {
        if shards[i] == shard {
            assert(shards@.to_set() =~= shards@.to_set().insert(shard));
            return;
        }
    }
    shards.push(shard);
    proof {
        let before = old(shards)@;
        assert(before.push(shard).to_set() =~= before.to_set().insert(shard)) by {
            assert forall|s: ShardIndex| before.to_set().insert(shard).contains(s) implies
                #[trigger] before.push(shard).to_set().contains(s) by {
                if before.contains(s) {
                    let j = choose|j: int| 0 <= j < before.len() && before[j] == s;
                    assert(before.push(shard)[j] == s);
                } else {
                    assert(before.push(shard)[before.len() as int] == s);
                }
            }
        }
    }
}

impl Default for TenantRefAccumulator {
    /// Nothing is known.
    fn default() -> (accumulator: TenantRefAccumulator)
        ensures
            accumulator.well_formed(),
            accumulator@ == TenantRefs::empty(),
    {
        let accumulator = TenantRefAccumulator {
            shards_seen: HashMap::new(),
            ancestor_ref_shards: AncestorRefs::default(),
        };
        assert(accumulator@ =~= TenantRefs::empty());
        accumulator
    }
}

impl TenantRefAccumulator {
    /// Each tenant seen has at least one shard, and none of its shards is listed twice.
    pub closed spec fn well_formed(self) -> bool {
        forall|tenant: u128| #[trigger]
            self.shards_seen@.contains_key(tenant) ==> self.shards_seen@[tenant]@.len() > 0
                && self.shards_seen@[tenant]@.no_duplicates()
    }

    /// Whether the index of the given timeline can be taken in without overflowing a
    /// refcount.
    pub fn has_room(&self, ttid: TenantShardTimelineId, index_part: &IndexPart) -> (room: bool)
        ensures
            room == self@.has_room_for(ttid, index_part@),
    {
        let this_shard_idx = ttid.tenant_shard_id.to_index();
        let ancestor_refs = layers_of_other_shards(&index_part.layer_metadata, this_shard_idx);
        ancestor_refs.len() == 0 || self.ancestor_ref_shards.has_room(
            &ttid.as_tenant_timeline_id(),
            &ancestor_refs,
        )
    }

    /// Takes in the index of a timeline on one shard.
    pub fn update(&mut self, ttid: TenantShardTimelineId, index_part: &IndexPart)
        requires
            old(self).well_formed(),
            old(self)@.has_room_for(ttid, index_part@),
        ensures
            final(self).well_formed(),
            final(self)@ == old(self)@.after(ttid, index_part@),
    {
        let this_shard_idx = ttid.tenant_shard_id.to_index();
        let shards = self.shards_seen.entry(ttid.tenant_shard_id.tenant_id.0).or_insert(
            Vec::new(),
        );
        assert(Seq::<ShardIndex>::empty().to_set() =~= Set::empty());
        insert_shard(shards, this_shard_idx);

        let ancestor_refs = layers_of_other_shards(&index_part.layer_metadata, this_shard_idx);
        if ancestor_refs.len() > 0 {
            self.ancestor_ref_shards.update(ttid, ancestor_refs);
        }
        proof {
            let expected = old(self)@.after(ttid, index_part@);
            assert(self@.shards_seen =~= expected.shards_seen);
            assert(self@.ancestor_refs =~= expected.ancestor_refs);
        }
    }
}

/// Whether a list gives each tenant that was seen once, with its shards, none of them
/// twice.
pub open spec fn lists_shards_seen(
    list: Seq<(TenantId, Vec<ShardIndex>)>,
    shards_seen: Map<TenantId, Set<ShardIndex>>,
) -> bool {
    &&& forall|i: int|
        0 <= i < list.len() ==> {
            let (tenant_id, shards) = #[trigger] list[i];
            &&& shards_seen.contains_key(tenant_id)
            &&& shards_seen[tenant_id] == shards@.to_set()
            &&& shards@.no_duplicates()
            &&& shards@.len() > 0
        }
    &&& forall|i: int, j: int|
        0 <= i < j < list.len() ==> (#[trigger] list[i]).0 != (#[trigger] list[j]).0
    &&& forall|tenant_id: TenantId| #[trigger]
        shards_seen.contains_key(tenant_id) ==> exists|i: int|
            0 <= i < list.len() && (#[trigger] list[i]).0 == tenant_id
}

impl TenantRefAccumulator {
    /// The tenants that were seen, in no particular order, and the references between
    /// their shards.
    pub fn into_parts(self) -> (parts: (Vec<(TenantId, Vec<ShardIndex>)>, AncestorRefs))
        requires
            self.well_formed(),
        ensures
            lists_shards_seen(parts.0@, self@.shards_seen),
            parts.1@ == self@.ancestor_refs,
    {
        let ghost seen = self.shards_seen@;
        let mut tenants: Vec<u128> = Vec::new();
        for tenant in it: self.shards_seen.keys()
            invariant
                it.seq().unref().to_set() == seen.dom(),
                it.seq().no_duplicates(),
                tenants@ == it.seq().unref().take(it.index()),
                it.index() == it.seq().len() ==> tenants@ == it.seq().unref(),
        {
            tenants.push(*tenant);
        }
        assert(tenants@.to_set() == seen.dom());
        assert(tenants@.no_duplicates());

        let mut shards_seen = self.shards_seen;
        let mut list: Vec<(TenantId, Vec<ShardIndex>)> = Vec::new();
        for i in 0..tenants.len()
            invariant
                tenants@.no_duplicates(),
                tenants@.to_set() == seen.dom(),
                list@.len() == i,
                forall|j: int|
                    0 <= j < i ==> (#[trigger] list@[j]).0.0 == tenants@[j] && list@[j].1
                        == seen[tenants@[j]],
                forall|j: int|
                    i <= j < tenants@.len() ==> shards_seen@.contains_key(#[trigger] tenants@[j])
                        && shards_seen@[tenants@[j]] == seen[tenants@[j]],
        {
            let tenant: u128 = tenants[i];
            assert(shards_seen@.contains_key(tenants@[i as int]));
            match shards_seen.remove(&tenant) {
                Some(shards) => {
                    list.push((TenantId(tenant), shards));
                },
                None => {},
            }
        }
        proof {
            assert forall|i: int| 0 <= i < list@.len() implies seen.contains_key(
                (#[trigger] list@[i]).0.0,
            ) by {
                assert(tenants@.to_set().contains(tenants@[i]));
            }
            assert forall|tenant_id: TenantId| #[trigger]
                self@.shards_seen.contains_key(tenant_id) implies exists|i: int|
                0 <= i < list@.len() && (#[trigger] list@[i]).0 == tenant_id by {
                assert(tenants@.to_set().contains(tenant_id.0));
                let i = choose|i: int| 0 <= i < tenants@.len() && tenants@[i] == tenant_id.0;
                assert(list@[i].0 == tenant_id);
            }
        }
        (list, self.ancestor_ref_shards)
    }
}

/// Those of a shard's layers that belong to another shard: references from this shard to
/// a layer in an ancestor shard, which must be kept there.
fn layers_of_other_shards(
    layer_metadata: &Vec<(LayerName, LayerFileMetadata)>,
    this_shard_idx: ShardIndex,
) -> (ancestor_refs: Vec<(LayerName, LayerFileMetadata)>)
    ensures
        refs_of(ancestor_refs@) == cross_shard_refs(refs_of(layer_metadata@), this_shard_idx),
{
    let mut ancestor_refs: Vec<(LayerName, LayerFileMetadata)> = Vec::new();
    let ghost layers = refs_of(layer_metadata@);
    assert(layers.take(0) =~= Seq::<LayerRef>::empty());
    reveal(Seq::filter);
    assert(refs_of(ancestor_refs@) =~= cross_shard_refs(layers.take(0), this_shard_idx));
    for i in 0..layer_metadata.len()
        invariant
            layers == refs_of(layer_metadata@),
            refs_of(ancestor_refs@) == cross_shard_refs(layers.take(i as int), this_shard_idx),
    {
        let (layer_name, metadata) = &layer_metadata[i];
        proof {
            reveal(Seq::filter);
            assert(layers.take(i + 1).drop_last() =~= layers.take(i as int));
            assert(layers.take(i + 1).last() == layers[i as int]);
        }
        if metadata.shard != this_shard_idx {
            let ghost before = ancestor_refs@;
            let copy = layer_name.clone();
            ancestor_refs.push((copy, *metadata));
            assert(refs_of(ancestor_refs@) =~= refs_of(before).push(layers[i as int]));
        }
    }
    assert(layers.take(layers.len() as int) =~= layers);
    ancestor_refs
}

/// The index of a timeline as it was seen on one shard.
pub struct Sighting {
    pub ttid: TenantShardTimelineId,
    pub layers: Seq<LayerRef>,
}

impl TenantRefs {
    /// What is known once all the given indices have been seen, in their order.
    pub open spec fn after_all(self, sightings: Seq<Sighting>) -> TenantRefs
        decreases sightings.len(),
    {
        if sightings.len() == 0 {
            self
        } else {
            let last = sightings.last();
            self.after_all(sightings.drop_last()).after(last.ttid, last.layers)
        }
    }
}

/// How often an index refers to a layer of the given timeline that belongs to another
/// shard than the one that the index is for.
pub open spec fn references_in(
    sighting: Sighting,
    ttid: TenantTimelineId,
    layer: LayerRef,
) -> nat {
    if sighting.ttid.ttid() == ttid && sighting.ttid.tenant_shard_id.index() != layer.0 {
        occurrences(sighting.layers, layer)
    } else {
        0
    }
}

/// How often the indices refer, all together, to a layer of another shard.
pub open spec fn references(
    sightings: Seq<Sighting>,
    ttid: TenantTimelineId,
    layer: LayerRef,
) -> nat
    decreases sightings.len(),
{
    if sightings.len() == 0 {
        0
    } else {
        references(sightings.drop_last(), ttid, layer) + references_in(
            sightings.last(),
            ttid,
            layer,
        )
    }
}

/// Whether one of the indices is for the given shard of the given tenant.
pub open spec fn is_sighted(
    sightings: Seq<Sighting>,
    tenant_id: TenantId,
    shard: ShardIndex,
) -> bool {
    exists|i: int|
        0 <= i < sightings.len() && (#[trigger] sightings[i]).ttid.tenant_shard_id
            == TenantShardId::of(tenant_id, shard)
}

/// Of the layers of other shards, filtering keeps every occurrence.
proof fn lemma_cross_shard_occurrences(layers: Seq<LayerRef>, shard: ShardIndex, layer: LayerRef)
    ensures
        occurrences(cross_shard_refs(layers, shard), layer) == if layer.0 != shard {
            occurrences(layers, layer)
        } else {
            0
        },
    decreases layers.len(),
{
    reveal(Seq::filter);
    if layers.len() > 0 {
        lemma_cross_shard_occurrences(layers.drop_last(), shard, layer);
        assert(layers =~= layers.drop_last().push(layers.last()));
        let rest = cross_shard_refs(layers.drop_last(), shard);
        if layers.last().0 != shard {
            assert(cross_shard_refs(layers, shard) =~= rest.push(layers.last()));
        } else {
            assert(cross_shard_refs(layers, shard) =~= rest);
        }
    } else {
        assert(cross_shard_refs(layers, shard) =~= layers);
    }
}

/// Seeing one more index adds its references to the refcounts, and nothing else.
proof fn lemma_after_counts(
    known: TenantRefs,
    sighting: Sighting,
    ttid: TenantTimelineId,
    layer: LayerRef,
)
    ensures
        ({
            let before = counts_of(known.ancestor_refs, ttid);
            let after = counts_of(
                known.after(sighting.ttid, sighting.layers).ancestor_refs,
                ttid,
            );
            &&& count_in(after, layer) == count_in(before, layer) + references_in(
                sighting,
                ttid,
                layer,
            )
            &&& after.contains_key(layer) <==> before.contains_key(layer) || references_in(
                sighting,
                ttid,
                layer,
            ) > 0
        }),
{
    let shard = sighting.ttid.tenant_shard_id.index();
    let refs = cross_shard_refs(sighting.layers, shard);
    lemma_cross_shard_occurrences(sighting.layers, shard, layer);
    assert(refs.contains(layer) <==> refs.to_multiset().count(layer) > 0);
    if refs.len() == 0 {
        assert(!refs.contains(layer));
    }
}

/// The refcount of an ancestor's layer is the number of references to it in all the
/// indices that were seen of the timeline's other shards.
pub proof fn refcounts_count_references(
    sightings: Seq<Sighting>,
    ttid: TenantTimelineId,
    layer: LayerRef,
)
    ensures
        ({
            let counts = counts_of(
                TenantRefs::empty().after_all(sightings).ancestor_refs,
                ttid,
            );
            &&& count_in(counts, layer) == references(sightings, ttid, layer)
            &&& counts.contains_key(layer) <==> references(sightings, ttid, layer) > 0
        }),
    decreases sightings.len(),
{
    if sightings.len() > 0 {
        let rest = sightings.drop_last();
        refcounts_count_references(rest, ttid, layer);
        lemma_after_counts(
            TenantRefs::empty().after_all(rest),
            sightings.last(),
            ttid,
            layer,
        );
    }
}

/// A timeline has refcounts exactly where some index referred to a layer of another
/// shard.
pub proof fn refcounts_exist_where_referenced(sightings: Seq<Sighting>, ttid: TenantTimelineId)
    ensures
        TenantRefs::empty().after_all(sightings).ancestor_refs.contains_key(ttid) <==> (exists|
            layer: LayerRef,
        | #[trigger]
            references(sightings, ttid, layer) > 0),
    decreases sightings.len(),
{
    let known = TenantRefs::empty().after_all(sightings);
    if sightings.len() > 0 {
        let rest = sightings.drop_last();
        let last = sightings.last();
        refcounts_exist_where_referenced(rest, ttid);
        let refs = cross_shard_refs(last.layers, last.ttid.tenant_shard_id.index());
        if known.ancestor_refs.contains_key(ttid) {
            if TenantRefs::empty().after_all(rest).ancestor_refs.contains_key(ttid) {
                let layer = choose|layer: LayerRef| #[trigger] references(rest, ttid, layer) > 0;
                assert(references(sightings, ttid, layer) > 0);
            } else {
                let layer = refs[0];
                assert(refs.contains(layer));
                lemma_cross_shard_occurrences(
                    last.layers,
                    last.ttid.tenant_shard_id.index(),
                    layer,
                );
                assert(references(sightings, ttid, layer) > 0);
            }
        }
        assert forall|layer: LayerRef| #[trigger]
            references(sightings, ttid, layer) > 0 implies known.ancestor_refs.contains_key(
            ttid,
        ) by {
            refcounts_count_references(sightings, ttid, layer);
        }
    }
}

/// The shards seen of a tenant are those that some index was for, and a tenant is known
/// exactly where one of its shards was seen.
pub proof fn shards_seen_are_those_sighted(sightings: Seq<Sighting>, tenant_id: TenantId)
    ensures
        ({
            let known = TenantRefs::empty().after_all(sightings);
            &&& forall|shard: ShardIndex|
                known.shards_of(tenant_id).contains(shard) <==> #[trigger] is_sighted(
                    sightings,
                    tenant_id,
                    shard,
                )
            &&& known.shards_seen.contains_key(tenant_id) <==> (exists|shard: ShardIndex|
                #[trigger]
                is_sighted(sightings, tenant_id, shard))
        }),
    decreases sightings.len(),
{
    let known = TenantRefs::empty().after_all(sightings);
    if sightings.len() > 0 {
        let rest = sightings.drop_last();
        let last = sightings.last().ttid.tenant_shard_id;
        shards_seen_are_those_sighted(rest, tenant_id);
        assert forall|shard: ShardIndex| #[trigger]
            is_sighted(sightings, tenant_id, shard) == (is_sighted(rest, tenant_id, shard)
            || last == TenantShardId::of(tenant_id, shard)) by {
            if is_sighted(rest, tenant_id, shard) {
                let i = choose|i: int|
                    0 <= i < rest.len() && (#[trigger] rest[i]).ttid.tenant_shard_id
                        == TenantShardId::of(tenant_id, shard);
                assert(sightings[i] == rest[i]);
            }
            if last == TenantShardId::of(tenant_id, shard) {
                assert(sightings[sightings.len() - 1].ttid.tenant_shard_id == last);
            }
            if is_sighted(sightings, tenant_id, shard) {
                let i = choose|i: int|
                    0 <= i < sightings.len() && (#[trigger] sightings[i]).ttid.tenant_shard_id
                        == TenantShardId::of(tenant_id, shard);
                if i < rest.len() {
                    assert(rest[i] == sightings[i]);
                }
            }
        }
        if known.shards_seen.contains_key(tenant_id) {
            if last.tenant_id == tenant_id {
                assert(is_sighted(sightings, tenant_id, last.index()));
            } else {
                let shard = choose|shard: ShardIndex| #[trigger]
                    is_sighted(rest, tenant_id, shard);
                assert(is_sighted(sightings, tenant_id, shard));
            }
        }
    }
}

/// References are counted no matter where in the order an index comes.
proof fn lemma_references_without(
    sightings: Seq<Sighting>,
    i: int,
    ttid: TenantTimelineId,
    layer: LayerRef,
)
    requires
        0 <= i < sightings.len(),
    ensures
        references(sightings, ttid, layer) == references(sightings.remove(i), ttid, layer)
            + references_in(sightings[i], ttid, layer),
    decreases sightings.len(),
{
    if i == sightings.len() - 1 {
        assert(sightings.remove(i) =~= sightings.drop_last());
    } else {
        lemma_references_without(sightings.drop_last(), i, ttid, layer);
        assert(sightings.remove(i).drop_last() =~= sightings.drop_last().remove(i));
        assert(sightings.remove(i).last() == sightings.last());
    }
}

/// The same indices in another order make the same references.
proof fn lemma_references_permuted(
    a: Seq<Sighting>,
    b: Seq<Sighting>,
    ttid: TenantTimelineId,
    layer: LayerRef,
)
    requires
        a.to_multiset() == b.to_multiset(),
    ensures
        references(a, ttid, layer) == references(b, ttid, layer),
    decreases a.len(),
{
    assert(a.len() == a.to_multiset().len());
    assert(b.len() == b.to_multiset().len());
    if a.len() > 0 {
        let last = a.last();
        assert(a[a.len() - 1] == last);
        assert(a.contains(last));
        assert(b.to_multiset().count(last) > 0);
        assert(b.contains(last));
        let i = choose|i: int| 0 <= i < b.len() && b[i] == last;
        assert(a.remove(a.len() - 1) =~= a.drop_last());
        lemma_references_permuted(a.drop_last(), b.remove(i), ttid, layer);
        lemma_references_without(b, i, ttid, layer);
    }
}

/// The order in which the indices are seen does not matter: the same indices lead to the
/// same knowledge.
pub proof fn order_of_sightings_is_irrelevant(a: Seq<Sighting>, b: Seq<Sighting>)
    requires
        a.to_multiset() == b.to_multiset(),
    ensures
        TenantRefs::empty().after_all(a) == TenantRefs::empty().after_all(b),
{
    let left = TenantRefs::empty().after_all(a);
    let right = TenantRefs::empty().after_all(b);
    assert forall|tenant_id: TenantId|
        left.shards_seen.contains_key(tenant_id) == #[trigger] right.shards_seen.contains_key(
            tenant_id,
        ) && left.shards_of(tenant_id) == right.shards_of(tenant_id) by {
        shards_seen_are_those_sighted(a, tenant_id);
        shards_seen_are_those_sighted(b, tenant_id);
        assert forall|shard: ShardIndex| #[trigger]
            is_sighted(a, tenant_id, shard) == is_sighted(b, tenant_id, shard) by {
            lemma_sighted_permuted(a, b, tenant_id, shard);
            lemma_sighted_permuted(b, a, tenant_id, shard);
        }
        assert forall|shard: ShardIndex|
            left.shards_of(tenant_id).contains(shard) == #[trigger] right.shards_of(
                tenant_id,
            ).contains(shard) by {
            assert(is_sighted(a, tenant_id, shard) == is_sighted(b, tenant_id, shard));
        }
        assert(left.shards_of(tenant_id) =~= right.shards_of(tenant_id));
    }
    assert(left.shards_seen =~= right.shards_seen) by {
        assert forall|tenant_id: TenantId| #[trigger]
            left.shards_seen.contains_key(tenant_id) implies left.shards_seen[tenant_id]
            == right.shards_seen[tenant_id] by {
            assert(right.shards_seen.contains_key(tenant_id));
            assert(left.shards_of(tenant_id) == right.shards_of(tenant_id));
        }
    }
    assert forall|ttid: TenantTimelineId|
        left.ancestor_refs.contains_key(ttid) == #[trigger] right.ancestor_refs.contains_key(
            ttid,
        ) && counts_of(left.ancestor_refs, ttid) == counts_of(right.ancestor_refs, ttid) by {
        refcounts_exist_where_referenced(a, ttid);
        refcounts_exist_where_referenced(b, ttid);
        let l = counts_of(left.ancestor_refs, ttid);
        let r = counts_of(right.ancestor_refs, ttid);
        assert forall|layer: LayerRef|
            l.contains_key(layer) == #[trigger] r.contains_key(layer) && count_in(l, layer)
                == count_in(r, layer) && references(a, ttid, layer) == references(
                b,
                ttid,
                layer,
            ) by {
            refcounts_count_references(a, ttid, layer);
            refcounts_count_references(b, ttid, layer);
            lemma_references_permuted(a, b, ttid, layer);
        }
        assert forall|layer: LayerRef| #[trigger]
            references(a, ttid, layer) == references(b, ttid, layer) by {
            lemma_references_permuted(a, b, ttid, layer);
        }
        if left.ancestor_refs.contains_key(ttid) {
            let layer = choose|layer: LayerRef| #[trigger] references(a, ttid, layer) > 0;
            assert(references(b, ttid, layer) > 0);
        }
        if right.ancestor_refs.contains_key(ttid) {
            let layer = choose|layer: LayerRef| #[trigger] references(b, ttid, layer) > 0;
            assert(references(a, ttid, layer) > 0);
        }
        assert(l =~= r) by {
            assert forall|layer: LayerRef| #[trigger] l.contains_key(layer) implies l[layer]
                == r[layer] by {
                assert(r.contains_key(layer));
                assert(count_in(l, layer) == count_in(r, layer));
            }
        }
    }
    assert(left.ancestor_refs =~= right.ancestor_refs) by {
        assert forall|ttid: TenantTimelineId| #[trigger]
            left.ancestor_refs.contains_key(ttid) implies left.ancestor_refs[ttid]
            == right.ancestor_refs[ttid] by {
            assert(right.ancestor_refs.contains_key(ttid));
            assert(counts_of(left.ancestor_refs, ttid) == counts_of(right.ancestor_refs, ttid));
        }
    }
}

/// The same indices in another order are for the same shards.
proof fn lemma_sighted_permuted(
    a: Seq<Sighting>,
    b: Seq<Sighting>,
    tenant_id: TenantId,
    shard: ShardIndex,
)
    requires
        a.to_multiset() == b.to_multiset(),
    ensures
        is_sighted(a, tenant_id, shard) ==> is_sighted(b, tenant_id, shard),
{
    if is_sighted(a, tenant_id, shard) {
        let i = choose|i: int|
            0 <= i < a.len() && (#[trigger] a[i]).ttid.tenant_shard_id == TenantShardId::of(
                tenant_id,
                shard,
            );
        assert(a.contains(a[i]));
        assert(b.to_multiset().count(a[i]) > 0);
        assert(b.contains(a[i]));
        let j = choose|j: int| 0 <= j < b.len() && b[j] == a[i];
        assert(b[j].ttid.tenant_shard_id == TenantShardId::of(tenant_id, shard));
    }
}

/// Where each refcount of a timeline can grow by the number of layers in an index, the
/// index can be taken in.
pub proof fn room_for_every_layer_is_enough(
    known: TenantRefs,
    ttid: TenantShardTimelineId,
    layers: Seq<LayerRef>,
)
    requires
        counts_at_most(counts_of(known.ancestor_refs, ttid.ttid()), usize::MAX - layers.len()),
    ensures
        known.has_room_for(ttid, layers),
{
    let counts = counts_of(known.after(ttid, layers).ancestor_refs, ttid.ttid());
    let sighting = Sighting { ttid, layers };
    assert forall|layer: LayerRef| #[trigger] count_in(counts, layer) <= usize::MAX by {
        lemma_after_counts(known, sighting, ttid.ttid(), layer);
        assert(count_in(counts_of(known.ancestor_refs, ttid.ttid()), layer) <= usize::MAX
            - layers.len());
        assert(occurrences(layers, layer) <= layers.to_multiset().len());
    }
}

/// Once any indices have been seen, no tenant is known without a shard, no refcount is
/// zero, no timeline has refcounts without a layer, and the tenant of a timeline with
/// refcounts is known.
pub proof fn nothing_empty_is_kept(sightings: Seq<Sighting>)
    ensures
        ({
            let known = TenantRefs::empty().after_all(sightings);
            &&& forall|tenant_id: TenantId| #[trigger]
                known.shards_seen.contains_key(tenant_id) ==> exists|shard: ShardIndex|
                    known.shards_seen[tenant_id].contains(shard)
            &&& forall|ttid: TenantTimelineId, layer: LayerRef|
                known.ancestor_refs.contains_key(ttid) && #[trigger] known.ancestor_refs[ttid].contains_key(
                    layer,
                ) ==> known.ancestor_refs[ttid][layer] >= 1
            &&& forall|ttid: TenantTimelineId| #[trigger]
                known.ancestor_refs.contains_key(ttid) ==> known.shards_seen.contains_key(
                    ttid.tenant_id,
                ) && exists|layer: LayerRef| known.ancestor_refs[ttid].contains_key(layer)
        }),
    decreases sightings.len(),
{
    let known = TenantRefs::empty().after_all(sightings);
    assert forall|tenant_id: TenantId| #[trigger]
        known.shards_seen.contains_key(tenant_id) implies exists|shard: ShardIndex|
        known.shards_seen[tenant_id].contains(shard) by {
        shards_seen_are_those_sighted(sightings, tenant_id);
        let shard = choose|shard: ShardIndex| #[trigger] is_sighted(sightings, tenant_id, shard);
        assert(known.shards_seen[tenant_id].contains(shard));
    }
    assert forall|ttid: TenantTimelineId, layer: LayerRef|
        known.ancestor_refs.contains_key(ttid) && #[trigger] known.ancestor_refs[ttid].contains_key(
            layer,
        ) implies known.ancestor_refs[ttid][layer] >= 1 by {
        refcounts_count_references(sightings, ttid, layer);
    }
    assert forall|ttid: TenantTimelineId| #[trigger]
        known.ancestor_refs.contains_key(ttid) implies known.shards_seen.contains_key(
        ttid.tenant_id,
    ) && exists|layer: LayerRef| known.ancestor_refs[ttid].contains_key(layer) by {
        refcounts_exist_where_referenced(sightings, ttid);
        let layer = choose|layer: LayerRef| #[trigger] references(sightings, ttid, layer) > 0;
        refcounts_count_references(sightings, ttid, layer);
        assert(known.ancestor_refs[ttid].contains_key(layer));
        let rest = TenantRefs::empty().after_all(sightings.drop_last());
        nothing_empty_is_kept(sightings.drop_last());
        if rest.ancestor_refs.contains_key(ttid) {
            assert(rest.shards_seen.contains_key(ttid.tenant_id));
        } else {
            assert(sightings.last().ttid.ttid() == ttid);
        }
        assert(known.shards_seen.contains_key(ttid.tenant_id));
    }
}

/// An index shows its layers in their order, each with the shard that owns it and its name.
pub proof fn indices_show_their_layers(index_part: IndexPart)
    ensures
        index_part@.len() == index_part.layer_metadata@.len(),
        forall|i: int|
            0 <= i < index_part@.len() ==> #[trigger] index_part@[i] == (
                index_part.layer_metadata@[i].1.shard,
                index_part.layer_metadata@[i].0.name@,
            ),
{
}

/// Of a shard's layers exactly those of other shards count as references, in their order.
pub proof fn references_are_to_other_shards(
    layers: Seq<LayerRef>,
    shard: ShardIndex,
    next: LayerRef,
)
    ensures
        cross_shard_refs(Seq::empty(), shard) == Seq::<LayerRef>::empty(),
        next.0 != shard ==> cross_shard_refs(layers.push(next), shard) == cross_shard_refs(
            layers,
            shard,
        ).push(next),
        next.0 == shard ==> cross_shard_refs(layers.push(next), shard) == cross_shard_refs(
            layers,
            shard,
        ),
        cross_shard_refs(layers, shard).contains(next) <==> layers.contains(next) && next.0
            != shard,
{
    reveal(Seq::filter);
    assert(layers.push(next).drop_last() =~= layers);
    lemma_cross_shard_occurrences(layers, shard, next);
    let refs = cross_shard_refs(layers, shard);
    assert(refs.contains(next) <==> refs.to_multiset().count(next) > 0);
    assert(layers.contains(next) <==> layers.to_multiset().count(next) > 0);
}

/// What an index adds to what is known.  Its shard is seen, and no other.  The refcount of a
/// layer grows by how often the index lists the layer, if the index is of the layer's
/// timeline and the layer belongs to another shard; otherwise it stays.
pub proof fn index_adds_its_shard_and_references(
    known: TenantRefs,
    ttid: TenantShardTimelineId,
    layers: Seq<LayerRef>,
    seen: TenantShardId,
    key: TenantTimelineId,
    layer: LayerRef,
)
    ensures
        ({
            let after = known.after(ttid, layers);
            let index = ShardIndex {
                shard_number: seen.shard_number,
                shard_count: seen.shard_count,
            };
            let tenant = seen.tenant_id;
            &&& after.shards_seen.contains_key(tenant) <==> known.shards_seen.contains_key(tenant)
                || tenant == ttid.tenant_shard_id.tenant_id
            &&& after.shards_seen.contains_key(tenant) && after.shards_seen[tenant].contains(
                index,
            ) <==> (known.shards_seen.contains_key(tenant) && known.shards_seen[tenant].contains(
                index,
            )) || seen == ttid.tenant_shard_id
        }),
        ({
            let after = known.after(ttid, layers).ancestor_refs;
            let before = known.ancestor_refs;
            let own = layer.0.shard_number == ttid.tenant_shard_id.shard_number
                && layer.0.shard_count == ttid.tenant_shard_id.shard_count;
            let this = key.tenant_id == ttid.tenant_shard_id.tenant_id && key.timeline_id
                == ttid.timeline_id;
            let added = if this && !own {
                layers.to_multiset().count(layer)
            } else {
                0
            };
            let had = before.contains_key(key) && before[key].contains_key(layer);
            let has = after.contains_key(key) && after[key].contains_key(layer);
            &&& has <==> had || added > 0
            &&& has ==> after[key][layer] == added + if had {
                before[key][layer]
            } else {
                0
            }
            &&& before.contains_key(key) ==> after.contains_key(key)
            &&& !this ==> (after.contains_key(key) <==> before.contains_key(key))
            &&& !this && before.contains_key(key) ==> after[key] == before[key]
        }),
{
    let sighting = Sighting { ttid, layers };
    lemma_after_counts(known, sighting, key, layer);
    assert(seen == ttid.tenant_shard_id <==> seen.tenant_id == ttid.tenant_shard_id.tenant_id
        && seen.shard_number == ttid.tenant_shard_id.shard_number && seen.shard_count
        == ttid.tenant_shard_id.shard_count);
}

/// What a call of [`TenantRefAccumulator::update`] does.  The shard of the index is seen, and
/// no other.  The refcount of a layer of the timeline that belongs to another shard grows by
/// the number of the index' entries with its name and shard; every other refcount stays.
/// The call is possible where no count can grow past the machine's limit even if all entries
/// were of one layer.
pub proof fn update_takes_an_index_in(
    accumulator: &mut TenantRefAccumulator,
    ttid: TenantShardTimelineId,
    index_part: IndexPart,
    seen: TenantShardId,
    key: TenantTimelineId,
    shard: ShardIndex,
    name: Seq<char>,
)
    ensures
        old(accumulator).well_formed() && index_part.layer_metadata@.len() <= usize::MAX && (
        forall|t: TenantTimelineId, l: LayerRef|
            old(accumulator)@.ancestor_refs.contains_key(t) && #[trigger] old(
                accumulator,
            )@.ancestor_refs[t].contains_key(l) ==> old(accumulator)@.ancestor_refs[t][l]
                + index_part.layer_metadata@.len() <= usize::MAX) ==> call_requires(
            TenantRefAccumulator::update,
            (accumulator, ttid, &index_part),
        ),
        call_ensures(TenantRefAccumulator::update, (accumulator, ttid, &index_part), ()) ==> {
            let before = old(accumulator)@;
            let after = final(accumulator)@;
            let index = ShardIndex {
                shard_number: seen.shard_number,
                shard_count: seen.shard_count,
            };
            let entries = index_part.layer_metadata@.filter(
                |entry: (LayerName, LayerFileMetadata)|
                    entry.1.shard == shard && entry.0.name@ == name,
            ).len();
            let layer = (shard, name);
            let own = shard.shard_number == ttid.tenant_shard_id.shard_number
                && shard.shard_count == ttid.tenant_shard_id.shard_count;
            let this = key.tenant_id == ttid.tenant_shard_id.tenant_id && key.timeline_id
                == ttid.timeline_id;
            let added = if this && !own {
                entries
            } else {
                0
            };
            let had = before.ancestor_refs.contains_key(key)
                && before.ancestor_refs[key].contains_key(layer);
            let has = after.ancestor_refs.contains_key(key)
                && after.ancestor_refs[key].contains_key(layer);
            &&& final(accumulator).well_formed()
            &&& after.shards_seen.contains_key(seen.tenant_id)
                && after.shards_seen[seen.tenant_id].contains(index) <==> (
            before.shards_seen.contains_key(seen.tenant_id)
                && before.shards_seen[seen.tenant_id].contains(index)) || seen
                == ttid.tenant_shard_id
            &&& has <==> had || added > 0
            &&& has ==> after.ancestor_refs[key][layer] == added + if had {
                before.ancestor_refs[key][layer]
            } else {
                0
            }
        },
{
    let layers = index_part.layer_metadata@;
    let before = old(accumulator)@;
    crate::refs::references_are_entries_of_the_list(layers, shard, name);
    index_adds_its_shard_and_references(before, ttid, index_part@, seen, key, (shard, name));
    if layers.len() <= usize::MAX && (forall|t: TenantTimelineId, l: LayerRef|
        before.ancestor_refs.contains_key(t) && #[trigger] before.ancestor_refs[t].contains_key(l)
            ==> before.ancestor_refs[t][l] + layers.len() <= usize::MAX) {
        let counts = counts_of(before.ancestor_refs, ttid.ttid());
        assert forall|l: LayerRef| #[trigger] count_in(counts, l) <= usize::MAX - layers.len() by {
            if before.ancestor_refs.contains_key(ttid.ttid()) {
                assert(before.ancestor_refs[ttid.ttid()] == counts);
            }
        }
        room_for_every_layer_is_enough(before, ttid, index_part@);
    }
}

/// Where [`TenantRefAccumulator::has_room`] says yes, the index can be taken in; it says yes
/// to an index without references to other shards, and where no count can grow past the
/// machine's limit even if all entries were of one layer.
pub proof fn room_lets_an_index_in(
    accumulator: &mut TenantRefAccumulator,
    ttid: TenantShardTimelineId,
    index_part: IndexPart,
    room: bool,
)
    requires
        old(accumulator).well_formed(),
        call_ensures(
            TenantRefAccumulator::has_room,
            (&*old(accumulator), ttid, &index_part),
            room,
        ),
    ensures
        room ==> call_requires(TenantRefAccumulator::update, (accumulator, ttid, &index_part)),
        (forall|i: int|
            0 <= i < index_part.layer_metadata@.len() ==> (
            #[trigger] index_part.layer_metadata@[i]).1.shard.shard_number
                == ttid.tenant_shard_id.shard_number
                && index_part.layer_metadata@[i].1.shard.shard_count
                == ttid.tenant_shard_id.shard_count) ==> room,
        (forall|t: TenantTimelineId, l: LayerRef|
            old(accumulator)@.ancestor_refs.contains_key(t) && #[trigger] old(
                accumulator,
            )@.ancestor_refs[t].contains_key(l) ==> old(accumulator)@.ancestor_refs[t][l]
                + index_part.layer_metadata@.len() <= usize::MAX)
            && index_part.layer_metadata@.len() <= usize::MAX ==> room,
{
    let known = old(accumulator)@.ancestor_refs;
    let n = index_part.layer_metadata@.len();
    if n <= usize::MAX && (forall|t: TenantTimelineId, l: LayerRef|
        known.contains_key(t) && #[trigger] known[t].contains_key(l) ==> known[t][l] + n
            <= usize::MAX) {
        let counts = counts_of(known, ttid.ttid());
        assert forall|l: LayerRef| #[trigger] count_in(counts, l) <= usize::MAX - n by {
            if known.contains_key(ttid.ttid()) {
                assert(known[ttid.ttid()] == counts);
            }
        }
        room_for_every_layer_is_enough(old(accumulator)@, ttid, index_part@);
    }
    let shard = ttid.tenant_shard_id.index();
    let refs = cross_shard_refs(index_part@, shard);
    if refs.len() > 0 {
        assert(refs.contains(refs[0]));
        references_are_to_other_shards(index_part@, shard, refs[0]);
        let i = choose|i: int| 0 <= i < index_part@.len() && index_part@[i] == refs[0];
        assert(index_part.layer_metadata@[i].1.shard != shard);
    }
}

/// A new accumulator knows no tenant and no reference.
pub proof fn nothing_is_known_at_first(
    accumulator: TenantRefAccumulator,
    tenant_id: TenantId,
    ttid: TenantTimelineId,
)
    requires
        call_ensures(TenantRefAccumulator::default, (), accumulator),
    ensures
        accumulator.well_formed(),
        !accumulator@.shards_seen.contains_key(tenant_id),
        !accumulator@.ancestor_refs.contains_key(ttid),
{
}

/// What [`TenantRefAccumulator::into_parts`] gives: each tenant that was seen once, with
/// exactly its shards, none of them twice, and all the refcounts.
pub proof fn parts_are_all_that_is_known(
    accumulator: TenantRefAccumulator,
    parts: (Vec<(TenantId, Vec<ShardIndex>)>, AncestorRefs),
    tenant_id: TenantId,
    i: int,
    j: int,
    shard: ShardIndex,
)
    requires
        accumulator.well_formed(),
        call_ensures(TenantRefAccumulator::into_parts, (accumulator,), parts),
    ensures
        call_requires(TenantRefAccumulator::into_parts, (accumulator,)),
        accumulator@.shards_seen.contains_key(tenant_id) <==> exists|k: int|
            0 <= k < parts.0@.len() && (#[trigger] parts.0@[k]).0 == tenant_id,
        0 <= i < parts.0@.len() ==> parts.0@[i].1@.no_duplicates() && parts.0@[i].1@.len() > 0
            && (parts.0@[i].1@.contains(shard)
            <==> accumulator@.shards_seen[parts.0@[i].0].contains(shard)),
        0 <= i < j < parts.0@.len() ==> parts.0@[i].0 != parts.0@[j].0,
        parts.1@ == accumulator@.ancestor_refs,
{
    if 0 <= i < parts.0@.len() {
        let shards = parts.0@[i].1@;
        assert(shards.to_set().contains(shard) <==> shards.contains(shard));
    }
}

/// Indices are taken in one after another; references are counted, and shards are sighted,
/// index by index.
pub proof fn sightings_go_one_by_one(
    known: TenantRefs,
    sightings: Seq<Sighting>,
    next: Sighting,
    ttid: TenantTimelineId,
    layer: LayerRef,
    seen: TenantShardId,
)
    ensures
        known.after_all(Seq::empty()) == known,
        known.after_all(sightings.push(next)) == known.after_all(sightings).after(
            next.ttid,
            next.layers,
        ),
        references(Seq::empty(), ttid, layer) == 0,
        references(sightings.push(next), ttid, layer) == references(sightings, ttid, layer)
            + references_in(next, ttid, layer),
        references_in(next, ttid, layer) == if next.ttid.tenant_shard_id.tenant_id
            == ttid.tenant_id && next.ttid.timeline_id == ttid.timeline_id && !(
        next.ttid.tenant_shard_id.shard_number == layer.0.shard_number
            && next.ttid.tenant_shard_id.shard_count == layer.0.shard_count) {
            next.layers.to_multiset().count(layer)
        } else {
            0
        },
        is_sighted(
            sightings,
            seen.tenant_id,
            ShardIndex { shard_number: seen.shard_number, shard_count: seen.shard_count },
        ) <==> exists|i: int|
            0 <= i < sightings.len() && (#[trigger] sightings[i]).ttid.tenant_shard_id == seen,
{
    assert(sightings.push(next).drop_last() =~= sightings);
    let index = ShardIndex { shard_number: seen.shard_number, shard_count: seen.shard_count };
    assert(TenantShardId::of(seen.tenant_id, index) == seen);
}

} // verus!
