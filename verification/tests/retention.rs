use physical_gc::generation::Generation;
use physical_gc::ids::{
    LayerName, ShardCount, TenantId, TenantShardId, TenantShardTimelineId, TimelineId,
};
use physical_gc::manifests::{gc_tenant_manifests, ListTenantManifestResult};
use physical_gc::mode::{GcMode, ObjectKind};
use physical_gc::refs::{AncestorRefs, LayerFileMetadata};
use physical_gc::retention::{
    check_is_old_enough, is_old_enough, maybe_delete_index, maybe_delete_tenant_manifest, Deletion,
    Kept,
};
use physical_gc::run::{absorb, select_tenants, summaries_from_manifests, TenantSelection};
use physical_gc::summary::GcSummary;
use physical_gc::timelines::maybe_delete_layer;

const WEEK: u128 = 7 * 24 * 3600 * 1_000_000_000;

fn valid(n: u32) -> Generation {
    Generation::Valid(n)
}

fn index_kept(
    name: &str,
    parsed: Option<Generation>,
    latest: Generation,
    elapsed: Option<u128>,
    mode: GcMode,
) -> (Option<Kept>, GcSummary) {
    let mut summary = GcSummary::default();
    let decision = maybe_delete_index(
        WEEK,
        latest,
        &format!("tenants/1/timelines/2/{name}"),
        &name.to_string(),
        &"index_part.json".to_string(),
        parsed,
        elapsed,
        mode,
        &mut summary,
    );
    (decision.err(), summary)
}

fn manifest_kept(
    parsed: Option<Generation>,
    latest: Generation,
    elapsed: Option<u128>,
    mode: GcMode,
) -> (Option<Kept>, GcSummary) {
    let mut summary = GcSummary::default();
    let decision =
        maybe_delete_tenant_manifest(WEEK, latest, &"m".to_string(), parsed, elapsed, mode, &mut summary);
    (decision.err(), summary)
}

fn ancestor() -> TenantShardTimelineId {
    TenantShardTimelineId {
        tenant_shard_id: TenantShardId {
            tenant_id: TenantId(1),
            shard_number: 0,
            shard_count: ShardCount(1),
        },
        timeline_id: TimelineId(2),
    }
}

fn decide_layer(
    head: Option<Option<u128>>,
    mode: GcMode,
    summary: &mut GcSummary,
) -> Result<Deletion, Kept> {
    maybe_delete_layer(
        &AncestorRefs::default(),
        ancestor(),
        &LayerName { name: "a".to_string() },
        &"/a".to_string(),
        head,
        WEEK,
        mode,
        summary,
    )
}

fn layer_kept(
    head: Option<Option<u128>>,
    mode: GcMode,
    summary: &mut GcSummary,
) -> Option<Kept> {
    decide_layer(head, mode, summary).err()
}

#[test]
fn summaries_start_at_zero_and_add_up() {
    let mut summary = GcSummary::default();
    assert_eq!(
        summary,
        GcSummary {
            indices_deleted: 0,
            tenant_manifests_deleted: 0,
            remote_storage_errors: 0,
            controller_api_errors: 0,
            ancestor_layers_deleted: 0,
        }
    );
    let one = GcSummary {
        indices_deleted: 1,
        tenant_manifests_deleted: 2,
        remote_storage_errors: 3,
        controller_api_errors: 4,
        ancestor_layers_deleted: 5,
    };
    summary.merge(one);
    summary.merge(one);
    assert_eq!(
        summary,
        GcSummary {
            indices_deleted: 2,
            tenant_manifests_deleted: 4,
            remote_storage_errors: 6,
            controller_api_errors: 8,
            ancestor_layers_deleted: 10,
        }
    );
}

#[test]
fn order_of_merging_does_not_matter() {
    let a = GcSummary { indices_deleted: 1, remote_storage_errors: 5, ..GcSummary::default() };
    let b = GcSummary { indices_deleted: 7, ancestor_layers_deleted: 2, ..GcSummary::default() };
    let (mut left, mut right) = (a, b);
    left.merge(b);
    right.merge(a);
    assert_eq!(left, right);
    assert_eq!(left.indices_deleted, 8);
}

#[test]
fn merging_is_refused_before_it_overflows() {
    let full = GcSummary { remote_storage_errors: usize::MAX, ..GcSummary::default() };
    let one = GcSummary { remote_storage_errors: 1, ..GcSummary::default() };
    assert!(!full.can_merge(&one));
    assert!(full.can_merge(&GcSummary::default()));
    let other = GcSummary { indices_deleted: usize::MAX, ..GcSummary::default() };
    assert!(full.can_merge(&other));
}

#[test]
fn modes_have_their_names() {
    assert_eq!(GcMode::DryRun.to_string(), "dry-run");
    assert_eq!(GcMode::IndicesOnly.to_string(), "indices-only");
    assert_eq!(GcMode::Full.to_string(), "full");
}

#[test]
fn generations_are_ordered_and_followed() {
    assert!(Generation::none().older_than(&valid(0)));
    assert!(!valid(0).older_than(&Generation::none()));
    assert!(!Generation::none().older_than(&Generation::none()));
    assert!(valid(3).older_than(&valid(4)));
    assert!(!valid(4).older_than(&valid(4)));
    assert_eq!(valid(3).next(), valid(4));
    assert_eq!(Generation::none().next(), valid(1));
    assert_eq!(valid(u32::MAX - 1).next(), valid(u32::MAX));
}

#[test]
fn age_must_exceed_the_threshold() {
    let mut summary = GcSummary::default();
    assert!(is_old_enough(WEEK, Some(WEEK + 1), &mut summary));
    assert!(!is_old_enough(WEEK, Some(WEEK), &mut summary));
    assert!(!is_old_enough(WEEK, Some(0), &mut summary));
    assert_eq!(summary, GcSummary::default());
    assert!(!is_old_enough(WEEK, None, &mut summary));
    assert_eq!(summary.remote_storage_errors, 1);
}

#[test]
fn failed_lookups_give_no_age() {
    let mut summary = GcSummary::default();
    assert_eq!(check_is_old_enough(None, WEEK, &mut summary), None);
    assert_eq!(summary, GcSummary::default());
    assert_eq!(check_is_old_enough(Some(Some(WEEK + 1)), WEEK, &mut summary), Some(true));
    assert_eq!(check_is_old_enough(Some(Some(1)), WEEK, &mut summary), Some(false));
    assert_eq!(check_is_old_enough(Some(None), WEEK, &mut summary), Some(false));
    assert_eq!(summary.remote_storage_errors, 1);
}

#[test]
fn old_indices_are_deleted() {
    let found = index_kept(
        "index_part.json-00000003",
        Some(valid(3)),
        valid(5),
        Some(WEEK + 1),
        GcMode::IndicesOnly,
    );
    assert_eq!(found, (None, GcSummary::default()));
}

#[test]
fn legacy_indices_are_deleted() {
    let old = Some(WEEK + 1);
    let (kept, _) = index_kept("index_part.json", None, valid(2), old, GcMode::Full);
    assert_eq!(kept, None);
    let (kept, _) = index_kept("index_part.json", None, valid(1), old, GcMode::Full);
    assert_eq!(kept, Some(Kept::PreviousGeneration));
    let latest = Generation::none();
    let (kept, _) = index_kept("index_part.json", None, latest, old, GcMode::Full);
    assert_eq!(kept, Some(Kept::NotOlder));
}

#[test]
fn strange_keys_are_left_alone() {
    let (kept, summary) =
        index_kept("index_part.json.tmp", None, valid(9), None, GcMode::Full);
    assert_eq!(kept, Some(Kept::StrangeKey));
    assert_eq!(summary, GcSummary::default());
    let (kept, _) = manifest_kept(None, valid(9), Some(WEEK + 1), GcMode::Full);
    assert_eq!(kept, Some(Kept::StrangeKey));
}

#[test]
fn recent_generations_are_left_alone() {
    let old = Some(WEEK + 1);
    for (generation, expected) in [
        (3, None),
        (4, Some(Kept::PreviousGeneration)),
        (5, Some(Kept::NotOlder)),
        (6, Some(Kept::NotOlder)),
        (u32::MAX, Some(Kept::NotOlder)),
    ] {
        let (kept, _) = index_kept("i", Some(valid(generation)), valid(5), old, GcMode::Full);
        assert_eq!(kept, expected);
        let (kept, _) = manifest_kept(Some(valid(generation)), valid(5), old, GcMode::Full);
        assert_eq!(kept, expected);
    }
}

#[test]
fn young_objects_are_left_alone() {
    let (kept, summary) =
        index_kept("i", Some(valid(1)), valid(5), Some(WEEK), GcMode::Full);
    assert_eq!((kept, summary), (Some(Kept::NotOldEnough), GcSummary::default()));
    let (kept, summary) = manifest_kept(Some(valid(1)), valid(5), None, GcMode::Full);
    assert_eq!(kept, Some(Kept::NotOldEnough));
    assert_eq!(summary, GcSummary { remote_storage_errors: 1, ..GcSummary::default() });
    // The age of an object that is kept anyway is not looked at.
    let (kept, summary) = manifest_kept(Some(valid(5)), valid(5), None, GcMode::Full);
    assert_eq!((kept, summary), (Some(Kept::NotOlder), GcSummary::default()));
}

#[test]
fn dry_runs_delete_nothing() {
    let old = Some(WEEK + 1);
    let (kept, _) = index_kept("i", Some(valid(1)), valid(5), old, GcMode::DryRun);
    assert_eq!(kept, Some(Kept::DryRun));
    let (kept, _) = manifest_kept(Some(valid(1)), valid(5), old, GcMode::DryRun);
    assert_eq!(kept, Some(Kept::DryRun));
    let mut summary = GcSummary::default();
    let kept = layer_kept(Some(old), GcMode::DryRun, &mut summary);
    assert_eq!(kept, Some(Kept::DryRun));
}

#[test]
fn old_manifests_are_deleted_in_full_mode_only() {
    let old = Some(WEEK + 1);
    let (kept, _) = manifest_kept(Some(valid(1)), valid(5), old, GcMode::Full);
    assert_eq!(kept, None);
    for mode in [GcMode::DryRun, GcMode::IndicesOnly] {
        let (kept, summary) = manifest_kept(Some(valid(1)), valid(5), old, mode);
        assert_eq!((kept, summary), (Some(Kept::DryRun), GcSummary::default()));
    }
}

#[test]
fn modes_enable_kinds_of_objects() {
    for kind in [ObjectKind::Index, ObjectKind::TenantManifest, ObjectKind::AncestorLayer] {
        assert!(!GcMode::DryRun.is_enabled(kind));
        assert_eq!(GcMode::IndicesOnly.is_enabled(kind), kind == ObjectKind::Index);
        assert!(GcMode::Full.is_enabled(kind));
    }
}

#[test]
fn permission_names_the_object_judged() {
    let mut summary = GcSummary::default();
    let key = "tenants/1/timelines/2/index_part.json-00000001".to_string();
    let index = maybe_delete_index(
        WEEK,
        valid(5),
        &key,
        &"index_part.json-00000001".to_string(),
        &"index_part.json".to_string(),
        Some(valid(1)),
        Some(WEEK + 1),
        GcMode::IndicesOnly,
        &mut summary,
    );
    assert_eq!(index.unwrap().key(), &key);
    let key = "tenants/1/tenant-manifest-00000001.json".to_string();
    let manifest = maybe_delete_tenant_manifest(
        WEEK,
        valid(5),
        &key,
        Some(valid(1)),
        Some(WEEK + 1),
        GcMode::Full,
        &mut summary,
    );
    assert_eq!(manifest.unwrap().key(), &key);
    let layer = maybe_delete_layer(
        &AncestorRefs::default(),
        ancestor(),
        &LayerName { name: "a".to_string() },
        &"/tenants/1/timelines/2/a".to_string(),
        Some(Some(WEEK + 1)),
        WEEK,
        GcMode::Full,
        &mut summary,
    );
    assert_eq!(layer.unwrap().key(), "tenants/1/timelines/2/a");
}

#[test]
fn referenced_layers_are_left_alone() {
    let mut refs = AncestorRefs::default();
    let owner = ancestor().tenant_shard_id.to_index();
    let descendant = TenantShardTimelineId {
        tenant_shard_id: TenantShardId {
            shard_count: ShardCount(2),
            ..ancestor().tenant_shard_id
        },
        ..ancestor()
    };
    refs.update(
        descendant,
        vec![(LayerName { name: "a".to_string() }, LayerFileMetadata { shard: owner })],
    );
    for (name, expected) in [("a", Some(Kept::Referenced)), ("b", Some(Kept::NotOldEnough))] {
        let mut summary = GcSummary::default();
        let decision = maybe_delete_layer(
            &refs,
            ancestor(),
            &LayerName { name: name.to_string() },
            &format!("/{name}"),
            Some(None),
            WEEK,
            GcMode::Full,
            &mut summary,
        );
        assert_eq!(decision.err(), expected);
        // The age of a layer that is referred to is not looked at.
        assert_eq!(summary.remote_storage_errors, if name == "a" { 0 } else { 1 });
    }
}

#[test]
fn records_are_refused_before_they_overflow() {
    let mut summary = GcSummary::default();
    let index = maybe_delete_index(
        WEEK,
        valid(5),
        &"i".to_string(),
        &"i".to_string(),
        &"index_part.json".to_string(),
        Some(valid(1)),
        Some(WEEK + 1),
        GcMode::Full,
        &mut summary,
    )
    .unwrap();
    let full = GcSummary { indices_deleted: usize::MAX, ..GcSummary::default() };
    assert!(!index.can_record(true, &full));
    assert!(index.can_record(false, &full));
    let full = GcSummary { remote_storage_errors: usize::MAX, ..GcSummary::default() };
    assert!(index.can_record(true, &full));
    assert!(!index.can_record(false, &full));
}

#[test]
fn layers_are_deleted_in_full_mode_only() {
    let old = Some(Some(WEEK + 1));
    let mut summary = GcSummary::default();
    assert_eq!(layer_kept(old, GcMode::Full, &mut summary), None);
    assert_eq!(
        layer_kept(old, GcMode::IndicesOnly, &mut summary),
        Some(Kept::DryRun)
    );
    let young = Some(Some(WEEK));
    assert_eq!(
        layer_kept(young, GcMode::Full, &mut summary),
        Some(Kept::NotOldEnough)
    );
    assert_eq!(
        layer_kept(None, GcMode::Full, &mut summary),
        Some(Kept::NotOldEnough)
    );
    assert_eq!(summary, GcSummary::default());
    assert_eq!(
        layer_kept(Some(None), GcMode::Full, &mut summary),
        Some(Kept::NotOldEnough)
    );
    assert_eq!(summary.remote_storage_errors, 1);
}

#[test]
fn every_deletion_is_counted_once() {
    let mut summary = GcSummary::default();
    let old = Some(WEEK + 1);
    for deleted in [true, false] {
        let index = maybe_delete_index(
            WEEK,
            valid(5),
            &"i".to_string(),
            &"i".to_string(),
            &"index_part.json".to_string(),
            Some(valid(1)),
            old,
            GcMode::Full,
            &mut summary,
        );
        index.unwrap().record(deleted, &mut summary);
        let layer = decide_layer(Some(old), GcMode::Full, &mut summary);
        layer.unwrap().record(deleted, &mut summary);
    }
    for deleted in [true, true, false] {
        let manifest = maybe_delete_tenant_manifest(
            WEEK,
            valid(5),
            &"m".to_string(),
            Some(valid(1)),
            old,
            GcMode::Full,
            &mut summary,
        );
        manifest.unwrap().record(deleted, &mut summary);
    }
    assert_eq!(
        summary,
        GcSummary {
            indices_deleted: 1,
            tenant_manifests_deleted: 2,
            remote_storage_errors: 3,
            controller_api_errors: 0,
            ancestor_layers_deleted: 1,
        }
    );
}

#[test]
fn two_latest_manifests_are_skipped() {
    let listing = ListTenantManifestResult::NoErrors {
        latest_generation: Some(valid(9)),
        manifests: vec![
            (valid(2), "b"),
            (valid(9), "e"),
            (Generation::none(), "a"),
            (valid(5), "d"),
            (valid(2), "c"),
        ],
    };
    assert_eq!(
        gc_tenant_manifests(listing),
        Some((valid(9), vec![(valid(2), "c"), (valid(2), "b"), (Generation::none(), "a")]))
    );
}

#[test]
fn few_manifests_are_all_kept() {
    for n in 0..3u32 {
        let manifests: Vec<(Generation, u32)> = (0..n).map(|i| (valid(i), i)).collect();
        let listing = ListTenantManifestResult::NoErrors {
            latest_generation: Some(valid(9)),
            manifests,
        };
        assert_eq!(gc_tenant_manifests(listing), Some((valid(9), vec![])));
    }
}

#[test]
fn manifests_without_a_latest_generation_are_kept() {
    let manifests = vec![(valid(1), 1), (valid(2), 2), (valid(3), 3)];
    let listing = ListTenantManifestResult::NoErrors { latest_generation: None, manifests };
    assert_eq!(gc_tenant_manifests(listing), None);
}

#[test]
fn manifest_listings_with_errors_are_left_alone() {
    let listing: ListTenantManifestResult<u8> =
        ListTenantManifestResult::WithErrors { errors: vec!["bad key".to_string()] };
    assert_eq!(gc_tenant_manifests(listing), None);
}

#[test]
fn all_tenants_are_selected_unless_some_are_named() {
    assert!(matches!(select_tenants(vec![]), TenantSelection::All));
    let id = TenantShardId { tenant_id: TenantId(1), shard_number: 0, shard_count: ShardCount(0) };
    match select_tenants(vec![id, id]) {
        TenantSelection::Listed(ids) => assert_eq!(ids, vec![id, id]),
        TenantSelection::All => panic!("all tenants selected"),
    }
}

#[test]
fn failed_manifests_contribute_nothing() {
    assert!(summaries_from_manifests(None).is_empty());
    let summary = GcSummary { tenant_manifests_deleted: 3, ..GcSummary::default() };
    assert_eq!(summaries_from_manifests(Some(summary)), vec![summary]);
}

#[test]
fn failures_end_the_run() {
    let mut summary = GcSummary { indices_deleted: 1, ..GcSummary::default() };
    let other = GcSummary { indices_deleted: 2, ..GcSummary::default() };
    assert_eq!(absorb(&mut summary, Ok::<GcSummary, String>(other)), Ok(()));
    assert_eq!(summary.indices_deleted, 3);
    assert_eq!(absorb(&mut summary, Err("listing failed")), Err("listing failed"));
    assert_eq!(summary.indices_deleted, 3);
}
