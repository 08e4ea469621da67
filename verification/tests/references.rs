use physical_gc::accumulator::{IndexPart, TenantRefAccumulator};
use physical_gc::generation::Generation;
use physical_gc::ids::{
    LayerName, ShardCount, ShardIndex, TenantId, TenantShardId, TenantShardTimelineId,
    TenantTimelineId, TimelineId,
};
use physical_gc::refs::{AncestorRefs, LayerFileMetadata};
use physical_gc::timelines::{
    gc_timeline, object_path, unreferenced_layers, BlobDataParseResult, RemoteTimelineBlobData,
};

fn shard(number: u8, count: u8) -> ShardIndex {
    ShardIndex { shard_number: number, shard_count: ShardCount(count) }
}

fn timeline(tenant: u128, number: u8, count: u8, timeline: u128) -> TenantShardTimelineId {
    TenantShardTimelineId {
        tenant_shard_id: TenantShardId {
            tenant_id: TenantId(tenant),
            shard_number: number,
            shard_count: ShardCount(count),
        },
        timeline_id: TimelineId(timeline),
    }
}

fn layer(name: &str) -> LayerName {
    LayerName { name: name.to_string() }
}

fn index(layers: &[(&str, ShardIndex)]) -> IndexPart {
    IndexPart {
        layer_metadata: layers
            .iter()
            .map(|(name, owner)| (layer(name), LayerFileMetadata { shard: *owner }))
            .collect(),
    }
}

fn parsed(layers: &[(&str, u32)]) -> BlobDataParseResult {
    BlobDataParseResult::Parsed {
        index_part: index(&[]),
        index_part_generation: Generation::Valid(9),
        s3_layers: layers
            .iter()
            .map(|(name, generation)| (layer(name), Generation::Valid(*generation)))
            .collect(),
    }
}

fn names(layers: &[(LayerName, Generation)]) -> Vec<(String, Generation)> {
    layers.iter().map(|(name, generation)| (name.name.clone(), *generation)).collect()
}

fn count(refs: &AncestorRefs, tenant: u128, timeline: u128, owner: ShardIndex, name: &str) -> Option<usize> {
    refs.get_ttid_refcounts(&TenantTimelineId {
        tenant_id: TenantId(tenant),
        timeline_id: TimelineId(timeline),
    })
    .and_then(|counts| counts.get(owner, &layer(name)))
}

#[test]
fn refs_are_counted_per_layer_and_shard() {
    let mut refs = AncestorRefs::default();
    let metadata = |owner| LayerFileMetadata { shard: owner };
    refs.update(
        timeline(1, 0, 2, 7),
        vec![
            (layer("a"), metadata(shard(0, 0))),
            (layer("b"), metadata(shard(0, 0))),
            (layer("a"), metadata(shard(0, 1))),
        ],
    );
    refs.update(timeline(1, 1, 2, 7), vec![(layer("a"), metadata(shard(0, 0)))]);
    assert_eq!(count(&refs, 1, 7, shard(0, 0), "a"), Some(2));
    assert_eq!(count(&refs, 1, 7, shard(0, 0), "b"), Some(1));
    assert_eq!(count(&refs, 1, 7, shard(0, 1), "a"), Some(1));
    assert_eq!(count(&refs, 1, 7, shard(0, 1), "b"), None);
    assert_eq!(count(&refs, 1, 8, shard(0, 0), "a"), None);
    assert_eq!(count(&refs, 2, 7, shard(0, 0), "a"), None);
}

#[test]
fn refs_update_without_layers_makes_an_empty_entry() {
    let mut refs = AncestorRefs::default();
    let ttid = timeline(1, 0, 2, 7).as_tenant_timeline_id();
    assert!(refs.get_ttid_refcounts(&ttid).is_none());
    refs.update(timeline(1, 0, 2, 7), vec![]);
    assert!(refs.get_ttid_refcounts(&ttid).is_some());
    assert_eq!(count(&refs, 1, 7, shard(0, 0), "a"), None);
}

#[test]
fn refs_have_room_for_ordinary_indices() {
    let mut refs = AncestorRefs::default();
    let ttid = timeline(1, 0, 2, 7).as_tenant_timeline_id();
    let metadata = LayerFileMetadata { shard: shard(0, 0) };
    let layers = || vec![(layer("a"), metadata), (layer("a"), metadata), (layer("b"), metadata)];
    assert!(refs.has_room(&ttid, &layers()));
    refs.update(timeline(1, 0, 2, 7), layers());
    assert!(refs.has_room(&ttid, &layers()));
    assert_eq!(count(&refs, 1, 7, shard(0, 0), "a"), Some(2));
    assert!(refs.has_room(&ttid, &vec![]));
}

#[test]
fn order_of_updates_does_not_change_refcounts() {
    let metadata = |owner| LayerFileMetadata { shard: owner };
    let mut left = AncestorRefs::default();
    left.update(
        timeline(1, 0, 2, 7),
        vec![(layer("a"), metadata(shard(0, 0))), (layer("b"), metadata(shard(0, 1)))],
    );
    left.update(timeline(1, 1, 2, 7), vec![(layer("a"), metadata(shard(0, 0)))]);
    let mut right = AncestorRefs::default();
    right.update(timeline(1, 1, 2, 7), vec![(layer("a"), metadata(shard(0, 0)))]);
    right.update(
        timeline(1, 1, 4, 7),
        vec![(layer("b"), metadata(shard(0, 1))), (layer("a"), metadata(shard(0, 0)))],
    );
    for refs in [&left, &right] {
        assert_eq!(count(refs, 1, 7, shard(0, 0), "a"), Some(2));
        assert_eq!(count(refs, 1, 7, shard(0, 1), "b"), Some(1));
        assert_eq!(count(refs, 1, 7, shard(0, 0), "b"), None);
    }
}

#[test]
fn accumulator_counts_only_layers_of_other_shards() {
    let mut accumulator = TenantRefAccumulator::default();
    let part = index(&[("own", shard(0, 2)), ("inherited", shard(0, 0))]);
    assert!(accumulator.has_room(timeline(1, 0, 2, 7), &part));
    accumulator.update(timeline(1, 0, 2, 7), &part);
    let (tenants, refs) = accumulator.into_parts();
    assert_eq!(tenants, vec![(TenantId(1), vec![shard(0, 2)])]);
    assert_eq!(count(&refs, 1, 7, shard(0, 0), "inherited"), Some(1));
    assert_eq!(count(&refs, 1, 7, shard(0, 2), "own"), None);
}

#[test]
fn accumulator_keeps_no_entry_without_cross_shard_refs() {
    let mut accumulator = TenantRefAccumulator::default();
    accumulator.update(timeline(1, 0, 2, 7), &index(&[("own", shard(0, 2))]));
    let (_, refs) = accumulator.into_parts();
    assert!(refs
        .get_ttid_refcounts(&timeline(1, 0, 2, 7).as_tenant_timeline_id())
        .is_none());
}

#[test]
fn accumulator_lists_each_shard_once() {
    let mut accumulator = TenantRefAccumulator::default();
    for ttid in [
        timeline(1, 0, 2, 7),
        timeline(1, 0, 2, 8),
        timeline(1, 1, 2, 7),
        timeline(2, 0, 0, 7),
        timeline(1, 0, 2, 7),
    ] {
        accumulator.update(ttid, &index(&[]));
    }
    let (mut tenants, _) = accumulator.into_parts();
    tenants.sort_by_key(|tenant| tenant.0 .0);
    assert_eq!(
        tenants,
        vec![
            (TenantId(1), vec![shard(0, 2), shard(1, 2)]),
            (TenantId(2), vec![shard(0, 0)]),
        ]
    );
}

#[test]
fn order_of_indices_does_not_change_refcounts() {
    let first = (timeline(1, 0, 2, 7), index(&[("a", shard(0, 0)), ("b", shard(0, 0))]));
    let second = (timeline(1, 1, 2, 7), index(&[("a", shard(0, 0)), ("c", shard(1, 2))]));
    let mut forward = TenantRefAccumulator::default();
    forward.update(first.0, &first.1);
    forward.update(second.0, &second.1);
    let mut backward = TenantRefAccumulator::default();
    backward.update(second.0, &second.1);
    backward.update(first.0, &first.1);
    let (_, forward) = forward.into_parts();
    let (_, backward) = backward.into_parts();
    for (owner, name, expected) in [
        (shard(0, 0), "a", Some(2)),
        (shard(0, 0), "b", Some(1)),
        (shard(1, 2), "c", None),
    ] {
        assert_eq!(count(&forward, 1, 7, owner, name), expected);
        assert_eq!(count(&backward, 1, 7, owner, name), expected);
    }
}

#[test]
fn referenced_ancestor_layers_are_not_candidates() {
    let mut accumulator = TenantRefAccumulator::default();
    accumulator.update(timeline(1, 0, 2, 7), &index(&[("kept", shard(0, 0))]));
    accumulator.update(timeline(1, 0, 0, 7), &index(&[("own", shard(0, 0))]));
    let (_, refs) = accumulator.into_parts();
    let layers = [("kept", 1), ("own", 2), ("stray", 3)];
    let found = unreferenced_layers(parsed(&layers), timeline(1, 0, 0, 7), &refs);
    assert_eq!(
        names(&found),
        vec![
            ("own".to_string(), Generation::Valid(2)),
            ("stray".to_string(), Generation::Valid(3)),
        ]
    );
    // Another timeline, another tenant and another shard share no references.
    for other in [timeline(1, 0, 0, 8), timeline(2, 0, 0, 7), timeline(1, 0, 1, 7)] {
        let found = unreferenced_layers(parsed(&layers), other, &refs);
        assert_eq!(found.len(), 3);
    }
}

#[test]
fn relics_and_bad_metadata_have_no_candidate_layers() {
    let refs = AncestorRefs::default();
    let ttid = timeline(1, 0, 0, 7);
    assert!(unreferenced_layers(BlobDataParseResult::Relic, ttid, &refs).is_empty());
    let bad = BlobDataParseResult::Incorrect { errors: vec!["no index".to_string()] };
    assert!(unreferenced_layers(bad, ttid, &refs).is_empty());
    assert_eq!(unreferenced_layers(parsed(&[("a", 1)]), ttid, &refs).len(), 1);
}

#[test]
fn parsed_timelines_are_taken_in() {
    let mut accumulator = TenantRefAccumulator::default();
    let data = RemoteTimelineBlobData {
        blob_data: BlobDataParseResult::Parsed {
            index_part: index(&[("a", shard(0, 0))]),
            index_part_generation: Generation::Valid(4),
            s3_layers: vec![],
        },
        unused_index_keys: vec!["old-1", "old-2"],
    };
    let sweep = gc_timeline(data, timeline(1, 0, 2, 7), &mut accumulator);
    assert_eq!(sweep, Some((Generation::Valid(4), vec!["old-1", "old-2"])));
    let (tenants, refs) = accumulator.into_parts();
    assert_eq!(tenants, vec![(TenantId(1), vec![shard(0, 2)])]);
    assert_eq!(count(&refs, 1, 7, shard(0, 0), "a"), Some(1));
}

#[test]
fn relics_and_bad_timelines_are_left_alone() {
    let mut accumulator = TenantRefAccumulator::default();
    for blob_data in [
        BlobDataParseResult::Relic,
        BlobDataParseResult::Incorrect { errors: vec!["bad".to_string()] },
    ] {
        let data = RemoteTimelineBlobData { blob_data, unused_index_keys: vec!["old"] };
        assert_eq!(gc_timeline(data, timeline(1, 0, 2, 7), &mut accumulator), None);
    }
    let (tenants, _) = accumulator.into_parts();
    assert!(tenants.is_empty());
}

#[test]
fn object_paths_lose_one_slash() {
    assert_eq!(object_path(&"/tenants/x".to_string()), "tenants/x");
    assert_eq!(object_path(&"tenants/x".to_string()), "tenants/x");
    assert_eq!(object_path(&"//x".to_string()), "/x");
    assert_eq!(object_path(&"/".to_string()), "");
    assert_eq!(object_path(&"".to_string()), "");
    assert_eq!(object_path(&"/\u{e9}/\u{4e2d}".to_string()), "\u{e9}/\u{4e2d}");
}
