use crate::accumulator::TenantRefAccumulator;
use crate::ancestors::{are_candidates_of, are_missed_of, AncestorSurvey};
use crate::ids::TenantShardId;
use crate::summary::GcSummary;
use vstd::prelude::*;

verus! {

/// The tenant shards that a run looks at.
pub enum TenantSelection {
    /// All that the bucket holds.
    All,
    /// Those that were asked for, in the order given.
    Listed(Vec<TenantShardId>),
}

/// Selects the tenant shards to look at: all of them unless some were asked for.
pub fn select_tenants(tenant_shard_ids: Vec<TenantShardId>) -> (selection: TenantSelection)
    ensures
        selection == if tenant_shard_ids@.len() == 0 {
            TenantSelection::All
        } else {
            TenantSelection::Listed(tenant_shard_ids)
        },
{
    if tenant_shard_ids.len() == 0 {
        TenantSelection::All
    } else {
        TenantSelection::Listed(tenant_shard_ids)
    }
}

/// What the tenant manifests of a shard contribute to the summaries of a run: a summary,
/// or nothing where looking at the manifests failed, which does not fail the run.
pub fn summaries_from_manifests(outcome: Option<GcSummary>) -> (summaries: Vec<GcSummary>)
    ensures
        summaries@ == match outcome {
            Some(summary) => seq![summary],
            None => Seq::empty(),
        },
{
    let mut summaries: Vec<GcSummary> = Vec::new();
    match outcome {
        Some(summary) => {
            summaries.push(summary);
        },
        None => {},
    }
    summaries
}

/// Takes in the summary of one shard or timeline, unless looking at it failed, which ends
/// the run.
pub fn absorb<E>(summary: &mut GcSummary, outcome: Result<GcSummary, E>) -> (r: Result<(), E>)
    requires
        outcome matches Ok(other) ==> old(summary)@.plus(other@).fits(),
    ensures
        match outcome {
            Ok(other) => r is Ok && final(summary)@ == old(summary)@.plus(other@),
            Err(error) => r == Err::<(), E>(error) && *final(summary) == *old(summary),
        },
{
    match outcome {
        Ok(other) => {
            summary.merge(other);
            Ok(())
        },
        Err(error) => Err(error),
    }
}

/// Goes on to the ancestor shards once all shards have been looked at, unless there is no
/// controller to ask about them.
pub fn ancestor_phase(accumulator: TenantRefAccumulator, has_controller: bool) -> (r: Option<
    AncestorSurvey,
>)
    requires
        accumulator.well_formed(),
    ensures
        r is Some <==> has_controller,
        r matches Some(survey) ==> {
            &&& are_candidates_of(survey.candidates@, accumulator@.shards_seen)
            &&& are_missed_of(survey.missed@, accumulator@.shards_seen)
            &&& survey.ancestor_refs@ == accumulator@.ancestor_refs
        },
{
    if has_controller {
        Some(accumulator.survey())
    } else {
        None
    }
}

/// All tenants are looked at exactly if none was asked for; otherwise those are that were
/// asked for, in the order given.
pub proof fn tenants_asked_for_are_looked_at(
    tenant_shard_ids: Vec<TenantShardId>,
    selection: TenantSelection,
)
    requires
        call_ensures(select_tenants, (tenant_shard_ids,), selection),
    ensures
        selection is All <==> tenant_shard_ids@.len() == 0,
        selection matches TenantSelection::Listed(ids) ==> ids@ == tenant_shard_ids@,
{
}

/// The manifests of a shard contribute their summary, and nothing where they failed.
pub proof fn manifests_contribute_their_summary(
    outcome: Option<GcSummary>,
    summaries: Vec<GcSummary>,
)
    requires
        call_ensures(summaries_from_manifests, (outcome,), summaries),
    ensures
        outcome is None <==> summaries@.len() == 0,
        summaries@.len() <= 1,
        outcome matches Some(summary) ==> summaries@.contains(summary),
{
    if outcome is Some {
        assert(summaries@[0] == outcome->0);
    }
}

/// A failure is handed on and counts nothing; otherwise each counter grows by that of the
/// summary taken in, wherever the sum of each fits.
pub proof fn absorbing_counts_or_fails<E>(
    summary: &mut GcSummary,
    outcome: Result<GcSummary, E>,
    r: Result<(), E>,
)
    ensures
        (outcome matches Ok(other) ==> {
            &&& old(summary).indices_deleted + other.indices_deleted <= usize::MAX
            &&& old(summary).tenant_manifests_deleted + other.tenant_manifests_deleted
                <= usize::MAX
            &&& old(summary).remote_storage_errors + other.remote_storage_errors <= usize::MAX
            &&& old(summary).controller_api_errors + other.controller_api_errors <= usize::MAX
            &&& old(summary).ancestor_layers_deleted + other.ancestor_layers_deleted <= usize::MAX
        }) ==> call_requires(absorb::<E>, (summary, outcome)),
        call_ensures(absorb::<E>, (summary, outcome), r) ==> {
            &&& r is Ok <==> outcome is Ok
            &&& outcome is Err ==> r->Err_0 == outcome->Err_0 && *final(summary) == *old(summary)
            &&& outcome matches Ok(other) ==> {
                &&& final(summary).indices_deleted == old(summary).indices_deleted
                    + other.indices_deleted
                &&& final(summary).tenant_manifests_deleted == old(
                    summary,
                ).tenant_manifests_deleted + other.tenant_manifests_deleted
                &&& final(summary).remote_storage_errors == old(summary).remote_storage_errors
                    + other.remote_storage_errors
                &&& final(summary).controller_api_errors == old(summary).controller_api_errors
                    + other.controller_api_errors
                &&& final(summary).ancestor_layers_deleted == old(
                    summary,
                ).ancestor_layers_deleted + other.ancestor_layers_deleted
            }
        },
{
}

/// There is an ancestor phase exactly if there is a controller to ask, and it begins with
/// what the accumulator's survey finds: each tenant that it names was seen, and the refcounts
/// are all handed on.
pub proof fn ancestor_phase_takes_a_controller(
    accumulator: TenantRefAccumulator,
    has_controller: bool,
    r: Option<AncestorSurvey>,
    i: int,
)
    requires
        accumulator.well_formed(),
        call_ensures(ancestor_phase, (accumulator, has_controller), r),
    ensures
        call_requires(ancestor_phase, (accumulator, has_controller)),
        r is Some <==> has_controller,
        r matches Some(survey) ==> {
            &&& survey.ancestor_refs@ == accumulator@.ancestor_refs
            &&& are_candidates_of(survey.candidates@, accumulator@.shards_seen)
            &&& are_missed_of(survey.missed@, accumulator@.shards_seen)
            &&& 0 <= i < survey.candidates@.len() ==> accumulator@.shards_seen.contains_key(
                survey.candidates@[i].tenant_id,
            )
        },
{
}

} // verus!
