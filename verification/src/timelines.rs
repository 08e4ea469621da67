use crate::accumulator::{
    index_adds_its_shard_and_references, references, references_in, refcounts_count_references,
    room_for_every_layer_is_enough, IndexPart, Sighting, TenantRefAccumulator, TenantRefs,
};
use crate::generation::Generation;
use crate::ids::{
    LayerName, ShardIndex, TenantShardId, TenantShardTimelineId, TenantTimelineId,
};
use crate::mode::{GcMode, ObjectKind};
use crate::refs::{count_in, counts_of, AncestorRefs, LayerRef};
use crate::retention::{
    after_deletion, after_lookup, check_is_old_enough, decides, old_enough, Deletion, Kept,
};
use crate::summary::{GcSummary, Tally};
use vstd::prelude::*;

verus! {

broadcast use vstd::seq_lib::group_to_multiset_ensures;

/// What the objects of a timeline on one shard add up to.
pub enum BlobDataParseResult {
    /// The timeline's latest index, its generation, and the layers that are there.
    Parsed {
        index_part: IndexPart,
        index_part_generation: Generation,
        s3_layers: Vec<(LayerName, Generation)>,
    },
    /// What is left of a timeline after its deletion.
    Relic,
    /// Bad metadata.
    Incorrect { errors: Vec<String> },
}

/// The objects of a timeline on one shard.  `T` is whatever stands for a listed object.
pub struct RemoteTimelineBlobData<T> {
    pub blob_data: BlobDataParseResult,
    /// The indices of older generations.
    pub unused_index_keys: Vec<T>,
}

/// Looks at a timeline on one shard: takes in its index, and tells which old indices may
/// be deleted, with the latest generation.  A relic or a timeline with bad metadata is
/// left alone.
pub fn gc_timeline<T>(
    data: RemoteTimelineBlobData<T>,
    ttid: TenantShardTimelineId,
    accumulator: &mut TenantRefAccumulator,
) -> (r: Option<(Generation, Vec<T>)>)
    requires
        old(accumulator).well_formed(),
        data.blob_data is Parsed ==> old(accumulator)@.has_room_for(
            ttid,
            data.blob_data->index_part@,
        ),
    ensures
        final(accumulator).well_formed(),
        r is Some <==> data.blob_data is Parsed,
        r matches Some(sweep) ==> {
            &&& sweep.0 == data.blob_data->index_part_generation
            &&& sweep.1 == data.unused_index_keys
            &&& final(accumulator)@ == old(accumulator)@.after(
                ttid,
                data.blob_data->index_part@,
            )
        },
        r is None ==> final(accumulator)@ == old(accumulator)@,
{
    match data.blob_data {
        BlobDataParseResult::Parsed { index_part, index_part_generation, s3_layers: _ } => {
            accumulator.update(ttid, &index_part);
            Some((index_part_generation, data.unused_index_keys))
        },
        BlobDataParseResult::Relic => None,
        BlobDataParseResult::Incorrect { errors: _ } => None,
    }
}

/// Layers with their generations, as plain values.
pub open spec fn layers_view(layers: Seq<(LayerName, Generation)>) -> Seq<
    (Seq<char>, Generation),
> {
    layers.map_values(|layer: (LayerName, Generation)| (layer.0@, layer.1))
}

/// The layers that are there of a timeline: none unless its metadata is in order.
pub open spec fn layers_of(data: BlobDataParseResult) -> Seq<(Seq<char>, Generation)> {
    match data {
        BlobDataParseResult::Parsed { s3_layers, .. } => layers_view(s3_layers@),
        _ => Seq::empty(),
    }
}

/// Whether nothing refers to the given layer of an ancestor.
pub open spec fn is_unreferenced(
    refcounts: Map<LayerRef, nat>,
    ancestor: TenantShardTimelineId,
    name: Seq<char>,
) -> bool {
    count_in(refcounts, (ancestor.tenant_shard_id.index(), name)) == 0
}

/// How often the descendants of a shard refer to one of its layers.
fn ref_count(
    refs: &AncestorRefs,
    ancestor: TenantShardTimelineId,
    layer_name: &LayerName,
) -> (count: usize)
    ensures
        count == count_in(
            counts_of(refs@, ancestor.ttid()),
            (ancestor.tenant_shard_id.index(), layer_name@),
        ),
{
    match refs.get_ttid_refcounts(&ancestor.as_tenant_timeline_id()) {
        Some(counts) => match counts.get(ancestor.tenant_shard_id.to_index(), layer_name) {
            Some(count) => count,
            None => 0,
        },
        None => 0,
    }
}

/// Finds those layers of a timeline on an ancestor shard that no descendant refers to.
/// Of a relic or a timeline with bad metadata there are none.
pub fn unreferenced_layers(
    data: BlobDataParseResult,
    ttid: TenantShardTimelineId,
    refs: &AncestorRefs,
) -> (unreferenced: Vec<(LayerName, Generation)>)
    ensures
        layers_view(unreferenced@) == layers_of(data).filter(
            |layer: (Seq<char>, Generation)|
                is_unreferenced(counts_of(refs@, ttid.ttid()), ttid, layer.0),
        ),
{
    let ghost counts = counts_of(refs@, ttid.ttid());
    let ghost keep = |layer: (Seq<char>, Generation)| is_unreferenced(counts, ttid, layer.0);
    let mut unreferenced: Vec<(LayerName, Generation)> = Vec::new();
    proof {
        reveal(Seq::filter);
        assert(layers_view(unreferenced@) =~= Seq::empty());
        assert(Seq::<(Seq<char>, Generation)>::empty().filter(keep) =~= Seq::empty());
    }
    match data {
        BlobDataParseResult::Parsed { index_part: _, index_part_generation: _, s3_layers } => {
            let ghost layers = layers_view(s3_layers@);
            assert(layers.take(0) =~= Seq::empty());
            for i in 0..s3_layers.len()
                invariant
                    layers == layers_view(s3_layers@),
                    counts == counts_of(refs@, ttid.ttid()),
                    keep == |layer: (Seq<char>, Generation)|
                        is_unreferenced(counts, ttid, layer.0),
                    layers_view(unreferenced@) == layers.take(i as int).filter(keep),
            {
                let (layer_name, layer_gen) = &s3_layers[i];
                proof {
                    reveal(Seq::filter);
                    assert(layers.take(i + 1).drop_last() =~= layers.take(i as int));
                    assert(layers.take(i + 1).last() == layers[i as int]);
                    assert(layers[i as int] == (layer_name@, *layer_gen));
                }
                if ref_count(refs, ttid, layer_name) == 0 {
                    let ghost before = unreferenced@;
                    let copy = layer_name.clone();
                    unreferenced.push((copy, *layer_gen));
                    assert(layers_view(unreferenced@) =~= layers_view(before).push(
                        layers[i as int],
                    ));
                }
            }
            assert(layers.take(layers.len() as int) =~= layers);
        },
        BlobDataParseResult::Relic => {},
        BlobDataParseResult::Incorrect { errors: _ } => {},
    }
    unreferenced
}

/// A key without the slash that it may begin with.
pub open spec fn without_slash(key: Seq<char>) -> Seq<char> {
    if key.len() > 0 && key[0] == '/' {
        key.skip(1)
    } else {
        key
    }
}

/// The path of an object within the bucket: its key, without the slash that the key may
/// begin with.
pub fn object_path(key: &String) -> (path: String)
    ensures
        path@ == without_slash(key@),
{
    let key = key.as_str();
    let len: usize = key.unicode_len();
    if len > 0 && key.get_char(0) == '/' {
        assert(key@.subrange(1, len as int) =~= key@.skip(1));
        key.substring_char(1, len).to_owned()
    } else {
        key.to_owned()
    }
}

/// Why a layer of an ancestor shard is kept, if it is.
pub open spec fn layer_kept_because(
    refcounts: Map<LayerRef, nat>,
    ancestor: TenantShardTimelineId,
    name: Seq<char>,
    head: Option<Option<u128>>,
    min_age: u128,
    mode: GcMode,
) -> Option<Kept> {
    if !is_unreferenced(refcounts, ancestor, name) {
        Some(Kept::Referenced)
    } else if head is None || !old_enough(min_age, head->0) {
        Some(Kept::NotOldEnough)
    } else if !mode.enables(ObjectKind::AncestorLayer) {
        Some(Kept::DryRun)
    } else {
        None
    }
}

/// The tally once it has been decided whether to delete a layer of an ancestor shard: the
/// age of a layer that is referred to is not looked at.
pub open spec fn after_layer_decision(
    tally: Tally,
    refcounts: Map<LayerRef, nat>,
    ancestor: TenantShardTimelineId,
    name: Seq<char>,
    head: Option<Option<u128>>,
) -> Tally {
    if is_unreferenced(refcounts, ancestor, name) {
        after_lookup(tally, head)
    } else {
        tally
    }
}

/// Decides whether a layer of an ancestor shard is to be deleted.  `key` is the absolute key
/// of the layer, and `head` is the age that looking the layer up gave, if the lookup
/// succeeded.
///
/// There is a time threshold for unreferenced objects: this preserves the ability to roll
/// back a shard split, by not deleting ancestor layers right away.
pub fn maybe_delete_layer(
    refs: &AncestorRefs,
    ttid: TenantShardTimelineId,
    layer_name: &LayerName,
    key: &String,
    head: Option<Option<u128>>,
    min_age: u128,
    mode: GcMode,
    summary: &mut GcSummary,
) -> (r: Result<Deletion, Kept>)
    requires
        after_layer_decision(
            old(summary)@,
            counts_of(refs@, ttid.ttid()),
            ttid,
            layer_name@,
            head,
        ).fits(),
    ensures
        r is Ok ==> is_unreferenced(counts_of(refs@, ttid.ttid()), ttid, layer_name@),
        decides(
            r,
            ObjectKind::AncestorLayer,
            without_slash(key@),
            layer_kept_because(
                counts_of(refs@, ttid.ttid()),
                ttid,
                layer_name@,
                head,
                min_age,
                mode,
            ),
        ),
        final(summary)@ == after_layer_decision(
            old(summary)@,
            counts_of(refs@, ttid.ttid()),
            ttid,
            layer_name@,
            head,
        ),
{
    if ref_count(refs, ttid, layer_name) > 0 {
        return Err(Kept::Referenced);
    }
    match check_is_old_enough(head, min_age, summary) {
        Some(true) => {},
        _ => {
            return Err(Kept::NotOldEnough);
        },
    }
    if !mode.is_enabled(ObjectKind::AncestorLayer) {
        return Err(Kept::DryRun);
    }
    // All validations passed: erase the object.
    Ok(Deletion::permit(ObjectKind::AncestorLayer, object_path(key)))
}

/// A layer of an ancestor shard that the index of another shard of the timeline refers to
/// is never among those that may be deleted, and is kept for that reason whatever else is
/// known of it.
pub proof fn referenced_layers_are_kept(
    sightings: Seq<Sighting>,
    seen: int,
    data: BlobDataParseResult,
    ancestor: TenantShardTimelineId,
    name: Seq<char>,
    generation: Generation,
    head: Option<Option<u128>>,
    min_age: u128,
    mode: GcMode,
)
    requires
        0 <= seen < sightings.len(),
        sightings[seen].ttid.tenant_shard_id.tenant_id == ancestor.tenant_shard_id.tenant_id,
        sightings[seen].ttid.timeline_id == ancestor.timeline_id,
        sightings[seen].ttid.tenant_shard_id != ancestor.tenant_shard_id,
        sightings[seen].layers.contains(
            (
                ShardIndex {
                    shard_number: ancestor.tenant_shard_id.shard_number,
                    shard_count: ancestor.tenant_shard_id.shard_count,
                },
                name,
            ),
        ),
    ensures
        ({
            let refs = TenantRefs::empty().after_all(sightings).ancestor_refs;
            let counts = counts_of(refs, ancestor.ttid());
            &&& !layers_of(data).filter(
                |layer: (Seq<char>, Generation)|
                    is_unreferenced(counts, ancestor, layer.0),
            ).contains((name, generation))
            &&& layer_kept_because(counts, ancestor, name, head, min_age, mode) == Some(
                Kept::Referenced,
            )
        }),
{
    let refs = TenantRefs::empty().after_all(sightings).ancestor_refs;
    let layer = (ancestor.tenant_shard_id.index(), name);
    let unreferenced = |l: (Seq<char>, Generation)|
        is_unreferenced(counts_of(refs, ancestor.ttid()), ancestor, l.0);
    refcounts_count_references(sightings, ancestor.ttid(), layer);
    lemma_reference_counts(sightings, seen, ancestor, layer);
    let left = layers_of(data).filter(unreferenced);
    if left.contains((name, generation)) {
        let i = choose|i: int| 0 <= i < left.len() && left[i] == (name, generation);
        layers_of(data).lemma_filter_pred(unreferenced, i);
    }
}

/// A reference in one index is a reference in all of them together.
proof fn lemma_reference_counts(
    sightings: Seq<Sighting>,
    seen: int,
    ancestor: TenantShardTimelineId,
    layer: LayerRef,
)
    requires
        0 <= seen < sightings.len(),
    ensures
        references(sightings, ancestor.ttid(), layer) >= references_in(
            sightings[seen],
            ancestor.ttid(),
            layer,
        ),
    decreases sightings.len(),
{
    if seen < sightings.len() - 1 {
        lemma_reference_counts(sightings.drop_last(), seen, ancestor, layer);
    }
}

/// A layer of an ancestor shard that no index refers to may be deleted.
pub proof fn unreferenced_layers_are_found(
    sightings: Seq<Sighting>,
    data: BlobDataParseResult,
    ancestor: TenantShardTimelineId,
    name: Seq<char>,
    generation: Generation,
)
    requires
        layers_of(data).contains((name, generation)),
        forall|i: int|
            0 <= i < sightings.len() && (
            #[trigger] sightings[i]).ttid.tenant_shard_id.tenant_id
                == ancestor.tenant_shard_id.tenant_id && sightings[i].ttid.timeline_id
                == ancestor.timeline_id && sightings[i].ttid.tenant_shard_id
                != ancestor.tenant_shard_id ==> !sightings[i].layers.contains(
                (
                    ShardIndex {
                        shard_number: ancestor.tenant_shard_id.shard_number,
                        shard_count: ancestor.tenant_shard_id.shard_count,
                    },
                    name,
                ),
            ),
    ensures
        ({
            let refs = TenantRefs::empty().after_all(sightings).ancestor_refs;
            layers_of(data).filter(
                |layer: (Seq<char>, Generation)|
                    is_unreferenced(counts_of(refs, ancestor.ttid()), ancestor, layer.0),
            ).contains((name, generation))
        }),
{
    let refs = TenantRefs::empty().after_all(sightings).ancestor_refs;
    let layer = (ancestor.tenant_shard_id.index(), name);
    let unreferenced = |l: (Seq<char>, Generation)|
        is_unreferenced(counts_of(refs, ancestor.ttid()), ancestor, l.0);
    refcounts_count_references(sightings, ancestor.ttid(), layer);
    lemma_no_reference(sightings, ancestor, layer);
    let layers = layers_of(data);
    let i = choose|i: int| 0 <= i < layers.len() && layers[i] == (name, generation);
    layers.lemma_filter_contains(unreferenced, i);
}

/// What no index refers to has no references.
proof fn lemma_no_reference(
    sightings: Seq<Sighting>,
    ancestor: TenantShardTimelineId,
    layer: LayerRef,
)
    requires
        forall|i: int|
            0 <= i < sightings.len() && (#[trigger] sightings[i]).ttid.ttid() == ancestor.ttid()
                && sightings[i].ttid.tenant_shard_id.index() != layer.0
                ==> !sightings[i].layers.contains(layer),
    ensures
        references(sightings, ancestor.ttid(), layer) == 0,
    decreases sightings.len(),
{
    if sightings.len() > 0 {
        let rest = sightings.drop_last();
        assert forall|i: int|
            0 <= i < rest.len() && (#[trigger] rest[i]).ttid.ttid() == ancestor.ttid()
                && rest[i].ttid.tenant_shard_id.index() != layer.0 implies !rest[i].layers.contains(
        layer) by {
            assert(rest[i] == sightings[i]);
        }
        lemma_no_reference(rest, ancestor, layer);
        let last = sightings[sightings.len() - 1];
        assert(last.layers.contains(layer) <==> last.layers.to_multiset().count(layer) > 0);
    }
}

/// An ancestor layer is deleted exactly if nothing refers to it, it is known to be old
/// enough, and the mode enables all garbage collection.
pub proof fn layer_deletion_takes_full_mode(
    refcounts: Map<LayerRef, nat>,
    ancestor: TenantShardTimelineId,
    name: Seq<char>,
    head: Option<Option<u128>>,
    min_age: u128,
    mode: GcMode,
)
    ensures
        layer_kept_because(refcounts, ancestor, name, head, min_age, mode) is None <==> {
            &&& is_unreferenced(refcounts, ancestor, name)
            &&& mode == GcMode::Full
            &&& head is Some
            &&& head->0 is Some
            &&& head->0->0 > min_age
        },
{
}

/// One layer of an ancestor shard, as garbage collection came upon it, and whether it could
/// be deleted, if that was tried.
pub struct LayerEncounter {
    pub name: Seq<char>,
    pub head: Option<Option<u128>>,
    pub deleted: bool,
}

/// The tally once it has been decided whether to delete a layer and, where it is to be
/// deleted, how that went has been recorded.
pub open spec fn after_layer_encounter(
    tally: Tally,
    refcounts: Map<LayerRef, nat>,
    ancestor: TenantShardTimelineId,
    min_age: u128,
    mode: GcMode,
    layer: LayerEncounter,
) -> Tally {
    let judged = after_layer_decision(tally, refcounts, ancestor, layer.name, layer.head);
    if layer_kept_because(refcounts, ancestor, layer.name, layer.head, min_age, mode) is None {
        after_deletion(judged, ObjectKind::AncestorLayer, layer.deleted)
    } else {
        judged
    }
}

/// The tally once the layers of a timeline have been gone through, in their order.
pub open spec fn after_layer_sweep(
    tally: Tally,
    refcounts: Map<LayerRef, nat>,
    ancestor: TenantShardTimelineId,
    min_age: u128,
    mode: GcMode,
    layers: Seq<LayerEncounter>,
) -> Tally
    decreases layers.len(),
{
    if layers.len() == 0 {
        tally
    } else {
        after_layer_encounter(
            after_layer_sweep(tally, refcounts, ancestor, min_age, mode, layers.drop_last()),
            refcounts,
            ancestor,
            min_age,
            mode,
            layers.last(),
        )
    }
}

/// Every attempt to delete a layer is counted exactly once, as a deletion or as an error;
/// besides these only the unreferenced layers of unknown age count as errors, and a layer
/// that could not be looked up does not.
pub proof fn every_layer_attempt_is_counted(
    tally: Tally,
    refcounts: Map<LayerRef, nat>,
    ancestor: TenantShardTimelineId,
    min_age: u128,
    mode: GcMode,
    layers: Seq<LayerEncounter>,
)
    ensures
        ({
            let end = after_layer_sweep(tally, refcounts, ancestor, min_age, mode, layers);
            let attempts = layers.filter(
                |layer: LayerEncounter|
                    layer_kept_because(
                        refcounts,
                        ancestor,
                        layer.name,
                        layer.head,
                        min_age,
                        mode,
                    ) is None,
            );
            let ageless = layers.filter(
                |layer: LayerEncounter|
                    is_unreferenced(refcounts, ancestor, layer.name) && layer.head == Some(
                        None::<u128>,
                    ),
            );
            &&& end.ancestor_layers_deleted + end.remote_storage_errors
                == tally.ancestor_layers_deleted + tally.remote_storage_errors + attempts.len()
                + ageless.len()
            &&& end.ancestor_layers_deleted >= tally.ancestor_layers_deleted
            &&& end.remote_storage_errors >= tally.remote_storage_errors
            &&& end.indices_deleted == tally.indices_deleted
            &&& end.tenant_manifests_deleted == tally.tenant_manifests_deleted
            &&& end.controller_api_errors == tally.controller_api_errors
        }),
    decreases layers.len(),
{
    reveal(Seq::filter);
    if layers.len() > 0 {
        every_layer_attempt_is_counted(
            tally,
            refcounts,
            ancestor,
            min_age,
            mode,
            layers.drop_last(),
        );
    }
}

/// Unless all garbage collection is enabled, no layer is deleted.
pub proof fn lesser_modes_count_no_layer(
    tally: Tally,
    refcounts: Map<LayerRef, nat>,
    ancestor: TenantShardTimelineId,
    min_age: u128,
    mode: GcMode,
    layers: Seq<LayerEncounter>,
)
    requires
        mode != GcMode::Full,
    ensures
        after_layer_sweep(
            tally,
            refcounts,
            ancestor,
            min_age,
            mode,
            layers,
        ).ancestor_layers_deleted == tally.ancestor_layers_deleted,
    decreases layers.len(),
{
    if layers.len() > 0 {
        lesser_modes_count_no_layer(
            tally,
            refcounts,
            ancestor,
            min_age,
            mode,
            layers.drop_last(),
        );
    }
}

/// The layers of a timeline are those listed, in their order, each with its name and its
/// generation; of a relic or a timeline with bad metadata there are none.
pub proof fn layers_are_those_listed(data: BlobDataParseResult, i: int)
    ensures
        data matches BlobDataParseResult::Parsed { s3_layers, .. } ==> {
            &&& layers_of(data).len() == s3_layers@.len()
            &&& 0 <= i < s3_layers@.len() ==> layers_of(data)[i] == (
                s3_layers@[i].0.name@,
                s3_layers@[i].1,
            )
        },
        !(data is Parsed) ==> layers_of(data).len() == 0,
{
}

/// Nothing refers to a layer of an ancestor exactly if no count is kept for the ancestor's
/// shard and the layer's name, or a count of zero.
pub proof fn unreferenced_means_not_counted(
    refcounts: Map<LayerRef, nat>,
    ancestor: TenantShardTimelineId,
    name: Seq<char>,
)
    ensures
        ({
            let layer = (
                ShardIndex {
                    shard_number: ancestor.tenant_shard_id.shard_number,
                    shard_count: ancestor.tenant_shard_id.shard_count,
                },
                name,
            );
            is_unreferenced(refcounts, ancestor, name) <==> !refcounts.contains_key(layer)
                || refcounts[layer] == 0
        }),
{
}

/// A path keeps every character of the key but one leading slash: the key is the path, or a
/// slash and the path, and the latter exactly if the key begins with a slash.
pub proof fn paths_lose_one_slash_alone(key: Seq<char>, other: Seq<char>)
    ensures
        key.len() > 0 && key[0] == '/' ==> key == seq!['/'] + without_slash(key),
        !(key.len() > 0 && key[0] == '/') ==> without_slash(key) == key,
        without_slash(seq!['/'] + key) == key,
        without_slash(seq!['/'] + key) == without_slash(seq!['/'] + other) ==> key == other,
{
    if key.len() > 0 && key[0] == '/' {
        assert(key =~= seq!['/'] + without_slash(key));
    }
    assert((seq!['/'] + key).skip(1) =~= key);
    assert((seq!['/'] + other).skip(1) =~= other);
}

/// [`object_path`] gives back every character of the key but one leading slash.
pub proof fn object_paths_lose_one_slash_alone(key: String, path: String)
    requires
        call_ensures(object_path, (&key,), path),
    ensures
        call_requires(object_path, (&key,)),
        key@.len() > 0 && key@[0] == '/' ==> key@ == seq!['/'] + path@,
        key@.len() == 0 || key@[0] != '/' ==> key@ == path@,
{
    paths_lose_one_slash_alone(key@, key@);
}

/// What [`gc_timeline`] gives and takes in.  There is something to go through exactly if the
/// metadata is in order: the generation of the index and all old indices.  Then the shard of
/// the timeline is seen, and no other, and the refcount of a layer of the timeline that
/// belongs to another shard grows by how often the index lists it; otherwise nothing
/// changes.
pub proof fn timelines_in_order_are_taken_in<T>(
    data: RemoteTimelineBlobData<T>,
    ttid: TenantShardTimelineId,
    accumulator: &mut TenantRefAccumulator,
    r: Option<(Generation, Vec<T>)>,
    seen: TenantShardId,
    key: TenantTimelineId,
    layer: LayerRef,
)
    ensures
        old(accumulator).well_formed() && !(data.blob_data is Parsed) ==> call_requires(
            gc_timeline::<T>,
            (data, ttid, accumulator),
        ),
        call_ensures(gc_timeline::<T>, (data, ttid, accumulator), r) ==> {
            let before = old(accumulator)@;
            let after = final(accumulator)@;
            &&& final(accumulator).well_formed()
            &&& r is Some <==> data.blob_data is Parsed
            &&& r is None ==> after == before
            &&& r matches Some(sweep) ==> {
                let index = ShardIndex {
                    shard_number: seen.shard_number,
                    shard_count: seen.shard_count,
                };
                let own = layer.0.shard_number == ttid.tenant_shard_id.shard_number
                    && layer.0.shard_count == ttid.tenant_shard_id.shard_count;
                let this = key.tenant_id == ttid.tenant_shard_id.tenant_id && key.timeline_id
                    == ttid.timeline_id;
                let added = if this && !own {
                    data.blob_data->index_part@.to_multiset().count(layer)
                } else {
                    0
                };
                let had = before.ancestor_refs.contains_key(key)
                    && before.ancestor_refs[key].contains_key(layer);
                let has = after.ancestor_refs.contains_key(key)
                    && after.ancestor_refs[key].contains_key(layer);
                &&& sweep.0 == data.blob_data->index_part_generation
                &&& sweep.1@ == data.unused_index_keys@
                &&& after.shards_seen.contains_key(seen.tenant_id)
                    && after.shards_seen[seen.tenant_id].contains(index) <==> (
                before.shards_seen.contains_key(seen.tenant_id)
                    && before.shards_seen[seen.tenant_id].contains(index)) || seen
                    == ttid.tenant_shard_id
                &&& has <==> had || added > 0
                &&& has ==> after.ancestor_refs[key][layer] == added + if had {
                    before.ancestor_refs[key][layer]
                } else {
                    0
                }
            }
        },
{
    if data.blob_data is Parsed {
        index_adds_its_shard_and_references(
            old(accumulator)@,
            ttid,
            data.blob_data->index_part@,
            seen,
            key,
            layer,
        );
    }
}

/// Where there is room for the index of a timeline, [`gc_timeline`] can take it in: it is
/// enough that no count can grow past the machine's limit even if all entries were of one
/// layer.
pub proof fn timelines_with_room_can_be_taken_in<T>(
    data: RemoteTimelineBlobData<T>,
    ttid: TenantShardTimelineId,
    accumulator: &mut TenantRefAccumulator,
)
    requires
        old(accumulator).well_formed(),
        data.blob_data is Parsed,
        data.blob_data->index_part.layer_metadata@.len() <= usize::MAX,
        forall|t: TenantTimelineId, l: LayerRef|
            old(accumulator)@.ancestor_refs.contains_key(t) && #[trigger] old(
                accumulator,
            )@.ancestor_refs[t].contains_key(l) ==> old(accumulator)@.ancestor_refs[t][l]
                + data.blob_data->index_part.layer_metadata@.len() <= usize::MAX,
    ensures
        call_requires(gc_timeline::<T>, (data, ttid, accumulator)),
{
    let known = old(accumulator)@.ancestor_refs;
    let n = data.blob_data->index_part.layer_metadata@.len();
    let counts = counts_of(known, ttid.ttid());
    assert forall|l: LayerRef| #[trigger] count_in(counts, l) <= usize::MAX - n by {
        if known.contains_key(ttid.ttid()) {
            assert(known[ttid.ttid()] == counts);
        }
    }
    room_for_every_layer_is_enough(old(accumulator)@, ttid, data.blob_data->index_part@);
}

/// What [`unreferenced_layers`] gives: of a timeline whose metadata is in order the layers
/// listed, in their order, without those for whose name and shard the refcounts of the
/// timeline keep a count above zero; of another timeline none.
pub proof fn layers_without_a_count_are_found(
    data: BlobDataParseResult,
    ttid: TenantShardTimelineId,
    refs: AncestorRefs,
    unreferenced: Vec<(LayerName, Generation)>,
)
    requires
        call_ensures(unreferenced_layers, (data, ttid, &refs), unreferenced),
    ensures
        call_requires(unreferenced_layers, (data, ttid, &refs)),
        !(data is Parsed) ==> unreferenced@.len() == 0,
        data matches BlobDataParseResult::Parsed { s3_layers, .. } ==> unreferenced@.map_values(
            |layer: (LayerName, Generation)| (layer.0.name@, layer.1),
        ) == s3_layers@.map_values(
            |layer: (LayerName, Generation)| (layer.0.name@, layer.1),
        ).filter(
            |layer: (Seq<char>, Generation)|
                {
                    let key = TenantTimelineId {
                        tenant_id: ttid.tenant_shard_id.tenant_id,
                        timeline_id: ttid.timeline_id,
                    };
                    let shard = ShardIndex {
                        shard_number: ttid.tenant_shard_id.shard_number,
                        shard_count: ttid.tenant_shard_id.shard_count,
                    };
                    !(refs@.contains_key(key) && refs@[key].contains_key((shard, layer.0))
                        && refs@[key][(shard, layer.0)] > 0)
                },
        ),
{
    let names = |layer: (LayerName, Generation)| (layer.0.name@, layer.1);
    let uncounted = |layer: (Seq<char>, Generation)|
        {
            let key = TenantTimelineId {
                tenant_id: ttid.tenant_shard_id.tenant_id,
                timeline_id: ttid.timeline_id,
            };
            let shard = ShardIndex {
                shard_number: ttid.tenant_shard_id.shard_number,
                shard_count: ttid.tenant_shard_id.shard_count,
            };
            !(refs@.contains_key(key) && refs@[key].contains_key((shard, layer.0))
                && refs@[key][(shard, layer.0)] > 0)
        };
    let counts = counts_of(refs@, ttid.ttid());
    let found = |layer: (Seq<char>, Generation)| is_unreferenced(counts, ttid, layer.0);
    let timeline = ttid.ttid();
    let shard = ttid.tenant_shard_id.index();
    assert forall|name: Seq<char>| #[trigger]
        is_unreferenced(counts, ttid, name) == !(refs@.contains_key(timeline)
            && refs@[timeline].contains_key((shard, name)) && refs@[timeline][(shard, name)]
            > 0) by {
        unreferenced_means_not_counted(counts, ttid, name);
    }
    assert(uncounted =~= found);
    assert(layers_view(unreferenced@) =~= unreferenced@.map_values(names));
    if data is Parsed {
        assert(layers_of(data) =~= data->s3_layers@.map_values(names));
    } else {
        reveal(Seq::filter);
        assert(unreferenced@.len() == layers_view(unreferenced@).len());
    }
}

/// What [`maybe_delete_layer`] decides and counts.  A layer for whose name and shard the
/// refcounts of its timeline keep a count above zero is kept for that, and nothing is
/// counted.  Any other is deleted exactly if it could be looked up, is known to be old
/// enough, and all garbage collection is enabled; the permission is for its key without a
/// leading slash.  The call is possible where one more error can be counted.
pub proof fn old_unreferenced_layers_are_deleted(
    refs: AncestorRefs,
    ttid: TenantShardTimelineId,
    layer_name: LayerName,
    key: String,
    head: Option<Option<u128>>,
    min_age: u128,
    mode: GcMode,
    summary: &mut GcSummary,
    r: Result<Deletion, Kept>,
)
    ensures
        head != Some(None::<u128>) || old(summary).remote_storage_errors < usize::MAX
            ==> call_requires(
            maybe_delete_layer,
            (&refs, ttid, &layer_name, &key, head, min_age, mode, summary),
        ),
        call_ensures(
            maybe_delete_layer,
            (&refs, ttid, &layer_name, &key, head, min_age, mode, summary),
            r,
        ) ==> {
            let timeline = TenantTimelineId {
                tenant_id: ttid.tenant_shard_id.tenant_id,
                timeline_id: ttid.timeline_id,
            };
            let layer = (
                ShardIndex {
                    shard_number: ttid.tenant_shard_id.shard_number,
                    shard_count: ttid.tenant_shard_id.shard_count,
                },
                layer_name.name@,
            );
            let referenced = refs@.contains_key(timeline) && refs@[timeline].contains_key(layer)
                && refs@[timeline][layer] > 0;
            let aged = head is Some && head->0 is Some && head->0->0 > min_age;
            &&& r == Err::<Deletion, Kept>(Kept::Referenced) <==> referenced
            &&& r == Err::<Deletion, Kept>(Kept::NotOldEnough) <==> !referenced && !aged
            &&& r == Err::<Deletion, Kept>(Kept::DryRun) <==> !referenced && aged && !(
            mode is Full)
            &&& r is Ok <==> !referenced && aged && mode is Full
            &&& r is Ok ==> {
                &&& r->Ok_0.kind() is AncestorLayer
                &&& key@.len() > 0 && key@[0] == '/' ==> key@ == seq!['/']
                    + r->Ok_0.spec_key()
                &&& key@.len() == 0 || key@[0] != '/' ==> key@ == r->Ok_0.spec_key()
            }
            &&& final(summary).remote_storage_errors == old(summary).remote_storage_errors + (
            if !referenced && head == Some(None::<u128>) {
                1int
            } else {
                0int
            })
            &&& final(summary).indices_deleted == old(summary).indices_deleted
            &&& final(summary).tenant_manifests_deleted == old(summary).tenant_manifests_deleted
            &&& final(summary).controller_api_errors == old(summary).controller_api_errors
            &&& final(summary).ancestor_layers_deleted == old(summary).ancestor_layers_deleted
        },
{
    paths_lose_one_slash_alone(key@, key@);
    unreferenced_means_not_counted(counts_of(refs@, ttid.ttid()), ttid, layer_name@);
}

/// Layers are gone through one after another: first the age of each unreferenced one is
/// counted, and then the deletion, where nothing speaks against it.
pub proof fn layer_sweeps_go_one_by_one(
    tally: Tally,
    refcounts: Map<LayerRef, nat>,
    ancestor: TenantShardTimelineId,
    min_age: u128,
    mode: GcMode,
    layers: Seq<LayerEncounter>,
    next: LayerEncounter,
)
    ensures
        after_layer_sweep(tally, refcounts, ancestor, min_age, mode, Seq::empty()) == tally,
        ({
            let before = after_layer_sweep(tally, refcounts, ancestor, min_age, mode, layers);
            let judged = after_layer_decision(before, refcounts, ancestor, next.name, next.head);
            after_layer_sweep(tally, refcounts, ancestor, min_age, mode, layers.push(next)) == if layer_kept_because(
                refcounts,
                ancestor,
                next.name,
                next.head,
                min_age,
                mode,
            ) is None {
                after_deletion(judged, ObjectKind::AncestorLayer, next.deleted)
            } else {
                judged
            }
        }),
{
    assert(layers.push(next).drop_last() =~= layers);
}

} // verus!
