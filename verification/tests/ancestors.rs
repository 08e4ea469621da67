use physical_gc::accumulator::{IndexPart, TenantRefAccumulator};
use physical_gc::ancestors::{
    assess_tenant, AncestorCandidate, AncestorSurvey, TenantAssessment, TenantDescribeResponse,
    TenantDescribeResponseShard, Validation,
};
use physical_gc::ids::{
    ShardCount, ShardIndex, TenantId, TenantShardId, TenantShardTimelineId, TimelineId,
};
use physical_gc::refs::AncestorRefs;
use physical_gc::run::ancestor_phase;
use physical_gc::summary::GcSummary;

fn shard(number: u8, count: u8) -> ShardIndex {
    ShardIndex { shard_number: number, shard_count: ShardCount(count) }
}

fn tenant_shard(tenant: u128, number: u8, count: u8) -> TenantShardId {
    TenantShardId {
        tenant_id: TenantId(tenant),
        shard_number: number,
        shard_count: ShardCount(count),
    }
}

fn description(shards: &[(u8, u8, bool)]) -> TenantDescribeResponse {
    TenantDescribeResponse {
        shards: shards
            .iter()
            .map(|(number, count, is_splitting)| TenantDescribeResponseShard {
                tenant_shard_id: tenant_shard(1, *number, *count),
                is_splitting: *is_splitting,
            })
            .collect(),
    }
}

fn assess(shards: &[(u8, u8)]) -> TenantAssessment {
    let shards = shards.iter().map(|(number, count)| shard(*number, *count)).collect();
    assess_tenant(TenantId(1), shards)
}

fn candidate(shards: &[(u8, u8)]) -> AncestorCandidate {
    match assess(shards) {
        TenantAssessment::AskController(candidate) => candidate,
        _ => panic!("no candidate"),
    }
}

fn numbers(shards: &[ShardIndex]) -> Vec<(u8, u8)> {
    let mut numbers: Vec<(u8, u8)> =
        shards.iter().map(|s| (s.shard_number, s.shard_count.0)).collect();
    numbers.sort();
    numbers
}

fn seen(shards: &[TenantShardId]) -> AncestorSurvey {
    let mut accumulator = TenantRefAccumulator::default();
    for tenant_shard_id in shards {
        let ttid = TenantShardTimelineId {
            tenant_shard_id: *tenant_shard_id,
            timeline_id: TimelineId(7),
        };
        accumulator.update(ttid, &IndexPart { layer_metadata: vec![] });
    }
    accumulator.survey()
}

#[test]
fn latest_shards_are_told_from_ancestors() {
    let found = candidate(&[(0, 0), (1, 2), (3, 4), (1, 4), (0, 2), (0, 4), (2, 4)]);
    assert_eq!(found.tenant_id, TenantId(1));
    assert_eq!(
        found.latest_shards,
        vec![shard(0, 4), shard(1, 4), shard(2, 4), shard(3, 4)]
    );
    assert_eq!(numbers(&found.ancestor_shards), vec![(0, 0), (0, 2), (1, 2)]);
}

#[test]
fn missed_shards_stop_the_cleanup() {
    assert!(matches!(assess(&[(0, 0), (0, 2)]), TenantAssessment::MissedShards));
    assert!(matches!(assess(&[(0, 0), (1, 2), (0, 4)]), TenantAssessment::MissedShards));
}

#[test]
fn tenants_without_ancestors_need_no_cleanup() {
    assert!(matches!(assess(&[(0, 0)]), TenantAssessment::NoAncestors));
    assert!(matches!(assess(&[(0, 1)]), TenantAssessment::NoAncestors));
    assert!(matches!(assess(&[(1, 2), (0, 2)]), TenantAssessment::NoAncestors));
}

#[test]
fn unsharded_tenants_count_as_one_shard() {
    assert_eq!(ShardCount(0).count(), 1);
    assert_eq!(ShardCount(1).count(), 1);
    assert_eq!(ShardCount(8).count(), 8);
    let found = candidate(&[(0, 0), (0, 1)]);
    assert_eq!(found.latest_shards, vec![shard(0, 1)]);
    assert_eq!(found.ancestor_shards, vec![shard(0, 0)]);
}

#[test]
fn controller_errors_leave_a_tenant_alone() {
    let found = candidate(&[(0, 0), (0, 2), (1, 2)]);
    assert_eq!(found.validate(&None), Validation::ControllerError);
}

#[test]
fn controller_must_name_the_same_shards_in_order() {
    let found = candidate(&[(0, 0), (1, 2), (0, 2)]);
    for shards in [
        vec![],
        vec![(0, 2, false)],
        vec![(1, 2, false), (0, 2, false)],
        vec![(0, 0, false)],
        vec![(0, 2, false), (1, 2, false), (2, 2, false)],
        vec![(0, 4, true), (1, 4, false)],
    ] {
        assert_eq!(found.validate(&Some(description(&shards))), Validation::ShardsDiffer);
    }
}

#[test]
fn splitting_tenants_are_left_alone() {
    let found = candidate(&[(0, 0), (0, 2), (1, 2)]);
    let splitting = description(&[(0, 2, false), (1, 2, true)]);
    assert_eq!(found.validate(&Some(splitting)), Validation::Splitting);
    let settled = description(&[(0, 2, false), (1, 2, false)]);
    assert_eq!(found.validate(&Some(settled)), Validation::Validated);
}

#[test]
fn survey_finds_candidates_and_missed_tenants() {
    let survey = seen(&[
        tenant_shard(1, 0, 0),
        tenant_shard(1, 1, 2),
        tenant_shard(1, 0, 2),
        tenant_shard(2, 0, 0),
        tenant_shard(3, 0, 0),
        tenant_shard(3, 0, 2),
    ]);
    assert_eq!(survey.candidates.len(), 1);
    assert_eq!(survey.candidates[0].tenant_id, TenantId(1));
    assert_eq!(survey.candidates[0].latest_shards, vec![shard(0, 2), shard(1, 2)]);
    assert_eq!(survey.candidates[0].ancestor_shards, vec![shard(0, 0)]);
    assert_eq!(survey.missed, vec![TenantId(3)]);
}

#[test]
fn ancestors_are_left_alone_without_a_controller() {
    assert!(ancestor_phase(TenantRefAccumulator::default(), false).is_none());
    assert!(ancestor_phase(TenantRefAccumulator::default(), true).is_some());
}

#[test]
fn survey_of_nothing_is_empty() {
    let survey = seen(&[]);
    assert!(survey.candidates.is_empty());
    assert!(survey.missed.is_empty());
}

#[test]
fn validated_ancestors_are_collected() {
    let survey = AncestorSurvey {
        candidates: vec![
            AncestorCandidate {
                tenant_id: TenantId(1),
                latest_shards: vec![shard(0, 2), shard(1, 2)],
                ancestor_shards: vec![shard(0, 0)],
            },
            AncestorCandidate {
                tenant_id: TenantId(2),
                latest_shards: vec![shard(0, 2), shard(1, 2)],
                ancestor_shards: vec![shard(0, 0)],
            },
            AncestorCandidate {
                tenant_id: TenantId(3),
                latest_shards: vec![shard(0, 2), shard(1, 2)],
                ancestor_shards: vec![shard(0, 0), shard(0, 1)],
            },
            AncestorCandidate {
                tenant_id: TenantId(4),
                latest_shards: vec![shard(0, 2), shard(1, 2)],
                ancestor_shards: vec![shard(0, 0)],
            },
        ],
        missed: vec![],
        ancestor_refs: AncestorRefs::default(),
    };
    let replies = vec![
        Some(description(&[(0, 2, false), (1, 2, false)])),
        None,
        Some(description(&[(0, 2, false), (1, 2, false)])),
        Some(description(&[(0, 2, true), (1, 2, false)])),
    ];
    let mut summary = GcSummary::default();
    let (ancestors, _) = survey.into_gc_ancestors(&replies, &mut summary);
    assert_eq!(
        ancestors,
        vec![tenant_shard(1, 0, 0), tenant_shard(3, 0, 0), tenant_shard(3, 0, 1)]
    );
    assert_eq!(summary, GcSummary { controller_api_errors: 1, ..GcSummary::default() });
}

#[test]
fn latest_shards_are_never_collected() {
    let survey = seen(&[
        tenant_shard(1, 0, 0),
        tenant_shard(1, 0, 2),
        tenant_shard(1, 1, 2),
        tenant_shard(1, 0, 4),
        tenant_shard(1, 1, 4),
        tenant_shard(1, 2, 4),
        tenant_shard(1, 3, 4),
    ]);
    let shards = [(0, 4, false), (1, 4, false), (2, 4, false), (3, 4, false)];
    let replies = vec![Some(description(&shards))];
    let mut summary = GcSummary::default();
    let (mut ancestors, _) = survey.into_gc_ancestors(&replies, &mut summary);
    ancestors.sort_by_key(|id| (id.shard_count.0, id.shard_number));
    assert_eq!(
        ancestors,
        vec![tenant_shard(1, 0, 0), tenant_shard(1, 0, 2), tenant_shard(1, 1, 2)]
    );
    assert_eq!(summary, GcSummary::default());
}

#[test]
fn tenants_are_judged_on_their_own() {
    let split = |tenant| {
        [tenant_shard(tenant, 0, 0), tenant_shard(tenant, 0, 2), tenant_shard(tenant, 1, 2)]
    };
    // The query about the second tenant fails, and the third tenant is splitting.
    let answer = |tenant: TenantId| match tenant.0 {
        2 => None,
        3 => Some(description(&[(0, 2, true), (1, 2, false)])),
        _ => Some(description(&[(0, 2, false), (1, 2, false)])),
    };
    let run = |tenants: &[u128]| {
        let shards: Vec<TenantShardId> = tenants.iter().flat_map(|t| split(*t)).collect();
        let survey = seen(&shards);
        let replies = survey.candidates.iter().map(|c| answer(c.tenant_id)).collect();
        let mut summary = GcSummary::default();
        let (mut chosen, _) = survey.into_gc_ancestors(&replies, &mut summary);
        chosen.sort_by_key(|id| id.tenant_id.0);
        (chosen, summary.controller_api_errors)
    };
    assert_eq!(run(&[1, 3]), (vec![tenant_shard(1, 0, 0)], 0));
    assert_eq!(run(&[2, 4]), (vec![tenant_shard(4, 0, 0)], 1));
    assert_eq!(
        run(&[1, 2, 3, 4]),
        (vec![tenant_shard(1, 0, 0), tenant_shard(4, 0, 0)], 1)
    );
}
