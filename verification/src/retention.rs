use crate::generation::Generation;
use crate::mode::{GcMode, ObjectKind};
use crate::summary::{GcSummary, Tally};
use vstd::prelude::*;

verus! {

/// Whether an object was last modified longer ago than `min_age`.  Both are in
/// nanoseconds; an object whose modification lies in the future has no age.
pub open spec fn old_enough(min_age: u128, elapsed: Option<u128>) -> bool {
    elapsed is Some && elapsed->0 > min_age
}

/// The tally once the age of an object has been looked at: an object without an age
/// counts as an error of the remote storage.
pub open spec fn after_age_check(tally: Tally, elapsed: Option<u128>) -> Tally {
    Tally {
        remote_storage_errors: tally.remote_storage_errors + if elapsed is None {
            1nat
        } else {
            0nat
        },
        ..tally
    }
}

/// Decides whether an object is old enough to be deleted.
///
/// Validation: indices and layers are only deleted after a time threshold (e.g. one week),
/// so that during an incident it is easier to read old data for analysis, and easier to
/// roll back shard splits without having to un-delete any objects.
pub fn is_old_enough(min_age: u128, elapsed: Option<u128>, summary: &mut GcSummary) -> (r: bool)
    requires
        after_age_check(old(summary)@, elapsed).fits(),
    ensures
        r == old_enough(min_age, elapsed),
        final(summary)@ == after_age_check(old(summary)@, elapsed),
{
    match elapsed {
        Some(age) => age > min_age,
        None => {
            summary.remote_storage_errors = summary.remote_storage_errors + 1;
            false
        },
    }
}

/// The tally once an object has been looked up for its age.
pub open spec fn after_lookup(tally: Tally, head: Option<Option<u128>>) -> Tally {
    match head {
        Some(elapsed) => after_age_check(tally, elapsed),
        None => tally,
    }
}

/// Same as [`is_old_enough`], of an object that had to be looked up first: `head` is what
/// the lookup found, if it succeeded.
pub fn check_is_old_enough(
    head: Option<Option<u128>>,
    min_age: u128,
    summary: &mut GcSummary,
) -> (r: Option<bool>)
    requires
        after_lookup(old(summary)@, head).fits(),
    ensures
        r == match head {
            Some(elapsed) => Some(old_enough(min_age, elapsed)),
            None => None,
        },
        final(summary)@ == after_lookup(old(summary)@, head),
{
    match head {
        Some(elapsed) => Some(is_old_enough(min_age, elapsed, summary)),
        None => None,
    }
}

/// Why an object is kept.
#[derive(Debug, Clone, Copy, PartialEq, Eq, Structural)]
pub enum Kept {
    /// The key makes no sense, and the object is left alone.
    StrangeKey,
    /// A descendant refers to the object.
    Referenced,
    /// The object is not older than the latest generation.
    NotOlder,
    /// The object is of the generation right before the latest.
    PreviousGeneration,
    /// The object is too young, or nobody knows how old it is.
    NotOldEnough,
    /// The object would be deleted, were it not for the mode.
    DryRun,
}

/// The permission to delete one object.  It is only given once all validations have passed,
/// it names the object that passed them, and whoever holds it owes a record of how the
/// deletion went.
#[derive(Debug)]
pub struct Deletion {
    kind: ObjectKind,
    key: String,
}

impl Deletion {
    /// The kind of the object that may be deleted.
    pub closed spec fn kind(self) -> ObjectKind {
        self.kind
    }

    /// The key of the object that may be deleted.
    pub closed spec fn spec_key(self) -> Seq<char> {
        self.key@
    }

    /// Permits the deletion of an object.
    pub(crate) fn permit(kind: ObjectKind, key: String) -> (deletion: Deletion)
        ensures
            deletion.kind() == kind,
            deletion.spec_key() == key@,
    {
        Deletion { kind, key }
    }

    /// The key of the object that may be deleted.
    pub fn key(&self) -> (key: &String)
        ensures
            key@ == self.spec_key(),
    {
        &self.key
    }

    /// Whether a summary has room for the record of how the deletion went.
    pub fn can_record(&self, deleted: bool, summary: &GcSummary) -> (room: bool)
        ensures
            room == after_deletion(summary@, self.kind(), deleted).fits(),
    {
        if !deleted {
            return summary.remote_storage_errors < usize::MAX;
        }
        match self.kind {
            ObjectKind::Index => summary.indices_deleted < usize::MAX,
            ObjectKind::TenantManifest => summary.tenant_manifests_deleted < usize::MAX,
            ObjectKind::AncestorLayer => summary.ancestor_layers_deleted < usize::MAX,
        }
    }

    /// Takes down whether the object could be deleted.
    pub fn record(self, deleted: bool, summary: &mut GcSummary)
        requires
            after_deletion(old(summary)@, self.kind(), deleted).fits(),
        ensures
            final(summary)@ == after_deletion(old(summary)@, self.kind(), deleted),
    {
        if !deleted {
            summary.remote_storage_errors = summary.remote_storage_errors + 1;
            return;
        }
        match self.kind {
            ObjectKind::Index => {
                summary.indices_deleted = summary.indices_deleted + 1;
            },
            ObjectKind::TenantManifest => {
                summary.tenant_manifests_deleted = summary.tenant_manifests_deleted + 1;
            },
            ObjectKind::AncestorLayer => {
                summary.ancestor_layers_deleted = summary.ancestor_layers_deleted + 1;
            },
        }
    }
}

/// The tally once it was tried to delete an object.
pub open spec fn after_deletion(tally: Tally, kind: ObjectKind, deleted: bool) -> Tally {
    if !deleted {
        Tally { remote_storage_errors: tally.remote_storage_errors + 1, ..tally }
    } else {
        match kind {
            ObjectKind::Index => Tally { indices_deleted: tally.indices_deleted + 1, ..tally },
            ObjectKind::TenantManifest => Tally {
                tenant_manifests_deleted: tally.tenant_manifests_deleted + 1,
                ..tally
            },
            ObjectKind::AncestorLayer => Tally {
                ancestor_layers_deleted: tally.ancestor_layers_deleted + 1,
                ..tally
            },
        }
    }
}

/// Whether an object of the given generation is more than one generation older than the
/// latest.
pub open spec fn is_superseded(candidate: Generation, latest_gen: Generation) -> bool {
    candidate.rank() < latest_gen.rank() && candidate.successor() != latest_gen
}

/// Why an object of the given kind whose key holds the given generation, if any, is kept,
/// if it is.
pub open spec fn kept_because(
    kind: ObjectKind,
    candidate: Option<Generation>,
    latest_gen: Generation,
    elapsed: Option<u128>,
    min_age: u128,
    mode: GcMode,
) -> Option<Kept> {
    match candidate {
        None => Some(Kept::StrangeKey),
        Some(generation) => if generation.rank() >= latest_gen.rank() {
            Some(Kept::NotOlder)
        } else if !is_superseded(generation, latest_gen) {
            Some(Kept::PreviousGeneration)
        } else if !old_enough(min_age, elapsed) {
            Some(Kept::NotOldEnough)
        } else if !mode.enables(kind) {
            Some(Kept::DryRun)
        } else {
            None
        },
    }
}

/// Whether a decision is to delete the object of the given kind and key where nothing
/// speaks against it, and to keep it for the given reason where something does.
pub open spec fn decides(
    decision: Result<Deletion, Kept>,
    kind: ObjectKind,
    key: Seq<char>,
    reason: Option<Kept>,
) -> bool {
    match decision {
        Ok(deletion) => reason is None && deletion.kind() == kind && deletion.spec_key() == key,
        Err(kept) => reason == Some(kept),
    }
}

/// Whether the age of the object decides.
pub open spec fn age_matters(candidate: Option<Generation>, latest_gen: Generation) -> bool {
    candidate is Some && is_superseded(candidate->0, latest_gen)
}

/// The tally once it has been decided whether to delete an object.
pub open spec fn after_decision(
    tally: Tally,
    candidate: Option<Generation>,
    latest_gen: Generation,
    elapsed: Option<u128>,
) -> Tally {
    if age_matters(candidate, latest_gen) {
        after_age_check(tally, elapsed)
    } else {
        tally
    }
}

/// Decides what to do with an object whose key holds the given generation, if any.
fn judge(
    min_age: u128,
    latest_gen: Generation,
    candidate: Option<Generation>,
    elapsed: Option<u128>,
    mode: GcMode,
    kind: ObjectKind,
    key: &String,
    summary: &mut GcSummary,
) -> (r: Result<Deletion, Kept>)
    requires
        after_decision(old(summary)@, candidate, latest_gen, elapsed).fits(),
    ensures
        decides(
            r,
            kind,
            key@,
            kept_because(kind, candidate, latest_gen, elapsed, min_age, mode),
        ),
        final(summary)@ == after_decision(old(summary)@, candidate, latest_gen, elapsed),
{
    // Validation: only things that parse cleanly are deleted.
    let candidate_generation = match candidate {
        Some(generation) => generation,
        None => {
            return Err(Kept::StrangeKey);
        },
    };

    // Validation: only objects more than one generation old are deleted, to avoid
    // interfering in typical migrations, even if they are very long running.
    if !candidate_generation.older_than(&latest_gen) {
        return Err(Kept::NotOlder);
    }
    if candidate_generation.next() == latest_gen {
        return Err(Kept::PreviousGeneration);
    }
    if !is_old_enough(min_age, elapsed, summary) {
        return Err(Kept::NotOldEnough);
    }
    if !mode.is_enabled(kind) {
        return Err(Kept::DryRun);
    }
    // All validations passed: erase the object.
    Ok(Deletion::permit(kind, key.clone()))
}

/// The generation of an index with the given base name: what parsing it gives, or none at
/// all for a legacy index from before generations.
pub open spec fn index_generation(
    parsed: Option<Generation>,
    basename: Seq<char>,
    index_file_name: Seq<char>,
) -> Option<Generation> {
    if parsed is Some {
        parsed
    } else if basename == index_file_name {
        Some(Generation::Legacy)
    } else {
        None
    }
}

/// Decides whether the index of an old generation is to be deleted.
///
/// `basename` is the last component of the index' key, `parsed` is the generation that it
/// ends in, if it does, and `index_file_name` is the base name of an index without a
/// generation.
pub fn maybe_delete_index(
    min_age: u128,
    latest_gen: Generation,
    key: &String,
    basename: &String,
    index_file_name: &String,
    parsed: Option<Generation>,
    elapsed: Option<u128>,
    mode: GcMode,
    summary: &mut GcSummary,
) -> (r: Result<Deletion, Kept>)
    requires
        after_decision(
            old(summary)@,
            index_generation(parsed, basename@, index_file_name@),
            latest_gen,
            elapsed,
        ).fits(),
    ensures
        decides(
            r,
            ObjectKind::Index,
            key@,
            kept_because(
                ObjectKind::Index,
                index_generation(parsed, basename@, index_file_name@),
                latest_gen,
                elapsed,
                min_age,
                mode,
            ),
        ),
        final(summary)@ == after_decision(
            old(summary)@,
            index_generation(parsed, basename@, index_file_name@),
            latest_gen,
            elapsed,
        ),
{
    let candidate = match parsed {
        Some(generation) => Some(generation),
        None => {
            if *basename == *index_file_name {
                // A legacy pre-generation index.
                Some(Generation::none())
            } else {
                // A strange key: not deleted because nobody understands it.
                None
            }
        },
    };
    judge(min_age, latest_gen, candidate, elapsed, mode, ObjectKind::Index, key, summary)
}

/// Decides whether the tenant manifest of an old generation is to be deleted, which takes
/// the full mode.
///
/// `parsed` is the generation that the base name of the manifest's key holds, if it does.
pub fn maybe_delete_tenant_manifest(
    min_age: u128,
    latest_gen: Generation,
    key: &String,
    parsed: Option<Generation>,
    elapsed: Option<u128>,
    mode: GcMode,
    summary: &mut GcSummary,
) -> (r: Result<Deletion, Kept>)
    requires
        after_decision(old(summary)@, parsed, latest_gen, elapsed).fits(),
    ensures
        decides(
            r,
            ObjectKind::TenantManifest,
            key@,
            kept_because(
                ObjectKind::TenantManifest,
                parsed,
                latest_gen,
                elapsed,
                min_age,
                mode,
            ),
        ),
        final(summary)@ == after_decision(old(summary)@, parsed, latest_gen, elapsed),
{
    judge(
        min_age,
        latest_gen,
        parsed,
        elapsed,
        mode,
        ObjectKind::TenantManifest,
        key,
        summary,
    )
}

/// An object is deleted exactly if its key can be read, its generation is more than one
/// older than the latest, it is known to be old enough, and the mode lets objects of its
/// kind be deleted.
pub proof fn deletion_takes_every_check(
    kind: ObjectKind,
    candidate: Option<Generation>,
    latest_gen: Generation,
    elapsed: Option<u128>,
    min_age: u128,
    mode: GcMode,
)
    ensures
        kept_because(kind, candidate, latest_gen, elapsed, min_age, mode) is None <==> {
            &&& candidate is Some
            &&& candidate->0.rank() < latest_gen.rank()
            &&& candidate->0.successor() != latest_gen
            &&& elapsed is Some
            &&& elapsed->0 > min_age
            &&& mode.enables(kind)
        },
{
}

/// An index whose key neither ends in a generation nor is that of an index without one is
/// never deleted.
pub proof fn strange_indices_are_kept(
    basename: Seq<char>,
    index_file_name: Seq<char>,
    latest_gen: Generation,
    elapsed: Option<u128>,
    min_age: u128,
    mode: GcMode,
)
    requires
        basename != index_file_name,
    ensures
        kept_because(
            ObjectKind::Index,
            index_generation(None, basename, index_file_name),
            latest_gen,
            elapsed,
            min_age,
            mode,
        ) == Some(Kept::StrangeKey),
{
}

/// Neither the latest generation, nor the one before it, nor one that is younger still is
/// ever deleted.
pub proof fn recent_generations_are_kept(
    kind: ObjectKind,
    candidate: Generation,
    latest_gen: Generation,
    elapsed: Option<u128>,
    min_age: u128,
    mode: GcMode,
)
    requires
        candidate.rank() >= latest_gen.rank() || candidate.successor() == latest_gen,
    ensures
        kept_because(kind, Some(candidate), latest_gen, elapsed, min_age, mode) is Some,
{
}

/// An object is only deleted if at least one generation lies between its own and the
/// latest, where an object without a generation counts as one older than generation zero.
/// The exception is an object without a generation where the latest is generation zero.
pub proof fn deleted_generations_are_two_back(
    kind: ObjectKind,
    candidate: Generation,
    latest_gen: Generation,
    elapsed: Option<u128>,
    min_age: u128,
    mode: GcMode,
)
    requires
        kept_because(kind, Some(candidate), latest_gen, elapsed, min_age, mode) is None,
        !(candidate == Generation::Legacy && latest_gen == Generation::Valid(0)),
    ensures
        candidate.rank() + 2 <= latest_gen.rank(),
{
}

/// A dry run deletes nothing.
pub proof fn dry_run_deletes_no_old_generation(
    kind: ObjectKind,
    candidate: Option<Generation>,
    latest_gen: Generation,
    elapsed: Option<u128>,
    min_age: u128,
)
    ensures
        kept_because(kind, candidate, latest_gen, elapsed, min_age, GcMode::DryRun) is Some,
{
}

/// Unless all garbage collection is enabled, no tenant manifest is deleted, however old it
/// is.
pub proof fn lesser_modes_delete_no_manifest(
    candidate: Option<Generation>,
    latest_gen: Generation,
    elapsed: Option<u128>,
    min_age: u128,
    mode: GcMode,
)
    requires
        mode != GcMode::Full,
    ensures
        kept_because(
            ObjectKind::TenantManifest,
            candidate,
            latest_gen,
            elapsed,
            min_age,
            mode,
        ) is Some,
{
}

/// An object that is deleted would be deleted as well if it were older still, or if a
/// shorter time were asked for.
pub proof fn older_objects_are_deleted_too(
    kind: ObjectKind,
    candidate: Option<Generation>,
    latest_gen: Generation,
    elapsed: u128,
    later: u128,
    min_age: u128,
    shorter: u128,
    mode: GcMode,
)
    requires
        elapsed <= later,
        shorter <= min_age,
        kept_because(kind, candidate, latest_gen, Some(elapsed), min_age, mode) is None,
    ensures
        kept_because(kind, candidate, latest_gen, Some(later), shorter, mode) is None,
{
}

/// One object of an old generation, as garbage collection came upon it, and whether it
/// could be deleted, if that was tried.
pub struct Encounter {
    pub candidate: Option<Generation>,
    pub elapsed: Option<u128>,
    pub deleted: bool,
}

/// The tally once it has been decided whether to delete an object and, where it is to be
/// deleted, how that went has been recorded.
pub open spec fn after_encounter(
    tally: Tally,
    kind: ObjectKind,
    latest_gen: Generation,
    min_age: u128,
    mode: GcMode,
    object: Encounter,
) -> Tally {
    let judged = after_decision(tally, object.candidate, latest_gen, object.elapsed);
    if kept_because(kind, object.candidate, latest_gen, object.elapsed, min_age, mode) is None {
        after_deletion(judged, kind, object.deleted)
    } else {
        judged
    }
}

/// The tally once the objects have been gone through, in their order.
pub open spec fn after_sweep(
    tally: Tally,
    kind: ObjectKind,
    latest_gen: Generation,
    min_age: u128,
    mode: GcMode,
    objects: Seq<Encounter>,
) -> Tally
    decreases objects.len(),
{
    if objects.len() == 0 {
        tally
    } else {
        after_encounter(
            after_sweep(tally, kind, latest_gen, min_age, mode, objects.drop_last()),
            kind,
            latest_gen,
            min_age,
            mode,
            objects.last(),
        )
    }
}

/// How many of the objects were tried to be deleted.
pub open spec fn attempts(
    kind: ObjectKind,
    latest_gen: Generation,
    min_age: u128,
    mode: GcMode,
    objects: Seq<Encounter>,
) -> nat {
    objects.filter(
        |object: Encounter|
            kept_because(
                kind,
                object.candidate,
                latest_gen,
                object.elapsed,
                min_age,
                mode,
            ) is None,
    ).len()
}

/// Of how many of the objects the age was wanted but not known.
pub open spec fn ageless(latest_gen: Generation, objects: Seq<Encounter>) -> nat {
    objects.filter(
        |object: Encounter|
            age_matters(object.candidate, latest_gen) && object.elapsed is None,
    ).len()
}

/// Every attempt to delete an object is counted exactly once, as a deletion or as an
/// error; besides these only the objects of unknown age count as errors.
pub proof fn every_attempt_is_counted(
    tally: Tally,
    kind: ObjectKind,
    latest_gen: Generation,
    min_age: u128,
    mode: GcMode,
    objects: Seq<Encounter>,
)
    ensures
        ({
            let end = after_sweep(tally, kind, latest_gen, min_age, mode, objects);
            &&& end.deleted() + end.remote_storage_errors == tally.deleted()
                + tally.remote_storage_errors + attempts(
                kind,
                latest_gen,
                min_age,
                mode,
                objects,
            ) + ageless(latest_gen, objects)
            &&& end.deleted() >= tally.deleted()
            &&& end.remote_storage_errors >= tally.remote_storage_errors
            &&& end.controller_api_errors == tally.controller_api_errors
        }),
    decreases objects.len(),
{
    reveal(Seq::filter);
    if objects.len() > 0 {
        every_attempt_is_counted(tally, kind, latest_gen, min_age, mode, objects.drop_last());
    }
}

/// Going through any objects of a kind that the mode does not let be deleted leaves the
/// counts of deletions alone.
pub proof fn disabled_kinds_count_no_deletion(
    tally: Tally,
    kind: ObjectKind,
    latest_gen: Generation,
    min_age: u128,
    mode: GcMode,
    objects: Seq<Encounter>,
)
    requires
        !mode.enables(kind),
    ensures
        ({
            let end = after_sweep(tally, kind, latest_gen, min_age, mode, objects);
            &&& end.indices_deleted == tally.indices_deleted
            &&& end.tenant_manifests_deleted == tally.tenant_manifests_deleted
            &&& end.ancestor_layers_deleted == tally.ancestor_layers_deleted
        }),
    decreases objects.len(),
{
    if objects.len() > 0 {
        disabled_kinds_count_no_deletion(
            tally,
            kind,
            latest_gen,
            min_age,
            mode,
            objects.drop_last(),
        );
    }
}

/// What [`is_old_enough`] says and counts: an object is old enough exactly if it is known to
/// have been modified longer ago than asked for, and one of unknown age counts as one error
/// of the remote storage.
pub proof fn age_is_compared(
    min_age: u128,
    elapsed: Option<u128>,
    summary: &mut GcSummary,
    r: bool,
)
    ensures
        elapsed is Some || old(summary).remote_storage_errors < usize::MAX ==> call_requires(
            is_old_enough,
            (min_age, elapsed, summary),
        ),
        call_ensures(is_old_enough, (min_age, elapsed, summary), r) ==> {
            &&& r <==> elapsed is Some && elapsed->0 > min_age
            &&& final(summary).remote_storage_errors == old(summary).remote_storage_errors + (
            if elapsed is None {
                1int
            } else {
                0int
            })
            &&& final(summary).indices_deleted == old(summary).indices_deleted
            &&& final(summary).tenant_manifests_deleted == old(summary).tenant_manifests_deleted
            &&& final(summary).controller_api_errors == old(summary).controller_api_errors
            &&& final(summary).ancestor_layers_deleted == old(summary).ancestor_layers_deleted
        },
{
}

/// What [`check_is_old_enough`] says and counts: nothing where the lookup failed, and
/// otherwise the same as [`is_old_enough`] of the age that was found.
pub proof fn failed_lookups_say_and_count_nothing(
    head: Option<Option<u128>>,
    min_age: u128,
    summary: &mut GcSummary,
    r: Option<bool>,
)
    ensures
        head != Some(None::<u128>) || old(summary).remote_storage_errors < usize::MAX
            ==> call_requires(check_is_old_enough, (head, min_age, summary)),
        call_ensures(check_is_old_enough, (head, min_age, summary), r) ==> {
            &&& head is None <==> r is None
            &&& r is Some ==> (r->0 <==> head->0 is Some && head->0->0 > min_age)
            &&& final(summary).remote_storage_errors == old(summary).remote_storage_errors + (
            if head == Some(None::<u128>) {
                1int
            } else {
                0int
            })
            &&& final(summary).indices_deleted == old(summary).indices_deleted
            &&& final(summary).tenant_manifests_deleted == old(summary).tenant_manifests_deleted
            &&& final(summary).controller_api_errors == old(summary).controller_api_errors
            &&& final(summary).ancestor_layers_deleted == old(summary).ancestor_layers_deleted
        },
{
}

/// What [`Deletion::record`] counts: a failure as one error of the remote storage, a success
/// as one object of its kind, and nothing else.  [`Deletion::can_record`] tells where there
/// is room for that, and there the record can be made.
pub proof fn records_count_one(deletion: Deletion, deleted: bool, summary: &mut GcSummary, room: bool)
    ensures
        ({
            let errors: int = if deleted {
                0
            } else {
                1
            };
            let indices: int = if deleted && deletion.kind() is Index {
                1
            } else {
                0
            };
            let manifests: int = if deleted && deletion.kind() is TenantManifest {
                1
            } else {
                0
            };
            let layers: int = if deleted && deletion.kind() is AncestorLayer {
                1
            } else {
                0
            };
            let fits = {
                &&& old(summary).remote_storage_errors + errors <= usize::MAX
                &&& old(summary).indices_deleted + indices <= usize::MAX
                &&& old(summary).tenant_manifests_deleted + manifests <= usize::MAX
                &&& old(summary).ancestor_layers_deleted + layers <= usize::MAX
            };
            &&& fits ==> call_requires(Deletion::record, (deletion, deleted, summary))
            &&& call_ensures(Deletion::can_record, (&deletion, deleted, &*old(summary)), room)
                ==> (room <==> fits)
            &&& call_ensures(Deletion::record, (deletion, deleted, summary), ()) ==> {
                &&& final(summary).remote_storage_errors == old(summary).remote_storage_errors
                    + errors
                &&& final(summary).indices_deleted == old(summary).indices_deleted + indices
                &&& final(summary).tenant_manifests_deleted == old(
                    summary,
                ).tenant_manifests_deleted + manifests
                &&& final(summary).ancestor_layers_deleted == old(
                    summary,
                ).ancestor_layers_deleted + layers
                &&& final(summary).controller_api_errors == old(summary).controller_api_errors
            }
        }),
{
}

/// A permission is read back with the key that it was given for.
pub proof fn permissions_name_their_key(deletion: Deletion, key: &String)
    requires
        call_ensures(Deletion::key, (&deletion,), key),
    ensures
        key@ == deletion.spec_key(),
{
}

/// The generation of an index is the one that its base name ends in, whatever that is; an
/// index whose base name ends in none has none, and only if the base name is that of an
/// index without a generation is it understood at all.
pub proof fn parsed_generations_are_judged(
    generation: Generation,
    basename: Seq<char>,
    index_file_name: Seq<char>,
)
    ensures
        index_generation(Some(generation), basename, index_file_name) == Some(generation),
        index_generation(None, index_file_name, index_file_name) == Some(Generation::Legacy),
        basename != index_file_name ==> index_generation(None, basename, index_file_name) is None,
{
}

/// Being superseded takes a number that is lower by more than one; an object without a
/// generation is superseded by every generation but the first.
pub proof fn superseded_generations_are_two_lower(generation: Generation, latest_gen: Generation)
    ensures
        is_superseded(generation, latest_gen) <==> match (generation, latest_gen) {
            (Generation::Legacy, Generation::Valid(n)) => n != 1,
            (Generation::Valid(m), Generation::Valid(n)) => m + 1 < n,
            (_, Generation::Legacy) => false,
        },
{
}

/// The age of an object is looked at exactly if its generation is known and superseded, and
/// an age that is looked at and not known counts as one error and nothing else.
pub proof fn ages_are_counted_where_they_matter(
    tally: Tally,
    candidate: Option<Generation>,
    latest_gen: Generation,
    elapsed: Option<u128>,
)
    ensures
        age_matters(candidate, latest_gen) <==> candidate is Some && is_superseded(
            candidate->0,
            latest_gen,
        ),
        after_decision(tally, candidate, latest_gen, elapsed).remote_storage_errors
            == tally.remote_storage_errors + if age_matters(candidate, latest_gen)
            && elapsed is None {
            1nat
        } else {
            0nat
        },
        after_decision(tally, candidate, latest_gen, elapsed).deleted() == tally.deleted(),
        after_decision(tally, candidate, latest_gen, elapsed).controller_api_errors
            == tally.controller_api_errors,
{
}

/// A decision to delete is in order exactly if nothing speaks against it and it is about the
/// object that was judged; a decision to keep is exactly if it gives the reason.
pub proof fn decisions_are_about_the_object_judged(
    deletion: Deletion,
    kept: Kept,
    kind: ObjectKind,
    key: Seq<char>,
    reason: Option<Kept>,
)
    ensures
        decides(Ok(deletion), kind, key, reason) <==> reason is None && deletion.kind() == kind
            && deletion.spec_key() == key,
        decides(Err(kept), kind, key, reason) <==> reason == Some(kept),
{
}

/// What [`maybe_delete_index`] decides and counts of an index whose generation is known:
/// `generation` is the one that its base name ends in, or none at all if it is the base name
/// of an index without one.  It is deleted exactly if its number is lower than that of the
/// latest by more than one, it is known to be old enough, and the run is not a dry one; the
/// permission is for its key.  The call is possible where one more error can be counted.
pub proof fn old_indices_are_deleted(
    min_age: u128,
    latest_gen: Generation,
    key: String,
    basename: String,
    index_file_name: String,
    parsed: Option<Generation>,
    elapsed: Option<u128>,
    mode: GcMode,
    summary: &mut GcSummary,
    r: Result<Deletion, Kept>,
    generation: Generation,
)
    requires
        parsed == Some(generation) || (parsed is None && basename@ == index_file_name@
            && generation is Legacy),
    ensures
        elapsed is Some || old(summary).remote_storage_errors < usize::MAX ==> call_requires(
            maybe_delete_index,
            (
                min_age,
                latest_gen,
                &key,
                &basename,
                &index_file_name,
                parsed,
                elapsed,
                mode,
                summary,
            ),
        ),
        call_ensures(
            maybe_delete_index,
            (
                min_age,
                latest_gen,
                &key,
                &basename,
                &index_file_name,
                parsed,
                elapsed,
                mode,
                summary,
            ),
            r,
        ) ==> {
            let superseded = match (generation, latest_gen) {
                (Generation::Legacy, Generation::Valid(n)) => n != 1,
                (Generation::Valid(m), Generation::Valid(n)) => m + 1 < n,
                (_, Generation::Legacy) => false,
            };
            let previous = match (generation, latest_gen) {
                (Generation::Legacy, Generation::Valid(n)) => n == 1,
                (Generation::Valid(m), Generation::Valid(n)) => m + 1 == n,
                (_, Generation::Legacy) => false,
            };
            let aged = elapsed is Some && elapsed->0 > min_age;
            &&& r is Ok <==> superseded && aged && !(mode is DryRun)
            &&& r == Err::<Deletion, Kept>(Kept::NotOlder) <==> !superseded && !previous
            &&& r == Err::<Deletion, Kept>(Kept::PreviousGeneration) <==> previous
            &&& r == Err::<Deletion, Kept>(Kept::NotOldEnough) <==> superseded && !aged
            &&& r == Err::<Deletion, Kept>(Kept::DryRun) <==> superseded && aged && !(!(mode is DryRun))
            &&& r is Ok ==> r->Ok_0.kind() is Index && r->Ok_0.spec_key() == key@
            &&& final(summary).remote_storage_errors == old(summary).remote_storage_errors + (
            if superseded && elapsed is None {
                1int
            } else {
                0int
            })
            &&& final(summary).indices_deleted == old(summary).indices_deleted
            &&& final(summary).tenant_manifests_deleted == old(summary).tenant_manifests_deleted
            &&& final(summary).controller_api_errors == old(summary).controller_api_errors
            &&& final(summary).ancestor_layers_deleted == old(summary).ancestor_layers_deleted
        },
{
}

/// What [`maybe_delete_index`] decides of an index that it does not understand: it is kept
/// for its strange key, and nothing is counted.
pub proof fn strange_indices_are_left_alone(
    min_age: u128,
    latest_gen: Generation,
    key: String,
    basename: String,
    index_file_name: String,
    elapsed: Option<u128>,
    mode: GcMode,
    summary: &mut GcSummary,
    r: Result<Deletion, Kept>,
)
    requires
        basename@ != index_file_name@,
    ensures
        call_requires(
            maybe_delete_index,
            (
                min_age,
                latest_gen,
                &key,
                &basename,
                &index_file_name,
                None::<Generation>,
                elapsed,
                mode,
                summary,
            ),
        ),
        call_ensures(
            maybe_delete_index,
            (
                min_age,
                latest_gen,
                &key,
                &basename,
                &index_file_name,
                None::<Generation>,
                elapsed,
                mode,
                summary,
            ),
            r,
        ) ==> r == Err::<Deletion, Kept>(Kept::StrangeKey) && final(summary)@ == old(summary)@,
{
}

/// What [`maybe_delete_tenant_manifest`] decides and counts of a manifest whose generation
/// is known.  It is deleted exactly if its number is lower than that of the latest by more
/// than one, it is known to be old enough, and all garbage collection is enabled; the
/// permission is for its key.  The call is possible where one more error can be counted.
pub proof fn old_manifests_are_deleted(
    min_age: u128,
    latest_gen: Generation,
    key: String,
    generation: Generation,
    elapsed: Option<u128>,
    mode: GcMode,
    summary: &mut GcSummary,
    r: Result<Deletion, Kept>,
)
    ensures
        elapsed is Some || old(summary).remote_storage_errors < usize::MAX ==> call_requires(
            maybe_delete_tenant_manifest,
            (min_age, latest_gen, &key, Some(generation), elapsed, mode, summary),
        ),
        call_ensures(
            maybe_delete_tenant_manifest,
            (min_age, latest_gen, &key, Some(generation), elapsed, mode, summary),
            r,
        ) ==> {
            let superseded = match (generation, latest_gen) {
                (Generation::Legacy, Generation::Valid(n)) => n != 1,
                (Generation::Valid(m), Generation::Valid(n)) => m + 1 < n,
                (_, Generation::Legacy) => false,
            };
            let previous = match (generation, latest_gen) {
                (Generation::Legacy, Generation::Valid(n)) => n == 1,
                (Generation::Valid(m), Generation::Valid(n)) => m + 1 == n,
                (_, Generation::Legacy) => false,
            };
            let aged = elapsed is Some && elapsed->0 > min_age;
            &&& r is Ok <==> superseded && aged && mode is Full
            &&& r == Err::<Deletion, Kept>(Kept::NotOlder) <==> !superseded && !previous
            &&& r == Err::<Deletion, Kept>(Kept::PreviousGeneration) <==> previous
            &&& r == Err::<Deletion, Kept>(Kept::NotOldEnough) <==> superseded && !aged
            &&& r == Err::<Deletion, Kept>(Kept::DryRun) <==> superseded && aged && !(mode is Full)
            &&& r is Ok ==> r->Ok_0.kind() is TenantManifest && r->Ok_0.spec_key() == key@
            &&& final(summary).remote_storage_errors == old(summary).remote_storage_errors + (
            if superseded && elapsed is None {
                1int
            } else {
                0int
            })
            &&& final(summary).indices_deleted == old(summary).indices_deleted
            &&& final(summary).tenant_manifests_deleted == old(summary).tenant_manifests_deleted
            &&& final(summary).controller_api_errors == old(summary).controller_api_errors
            &&& final(summary).ancestor_layers_deleted == old(summary).ancestor_layers_deleted
        },
{
}

/// What [`maybe_delete_tenant_manifest`] decides of a manifest that it does not understand:
/// it is kept for its strange key, and nothing is counted.
pub proof fn strange_manifests_are_left_alone(
    min_age: u128,
    latest_gen: Generation,
    key: String,
    elapsed: Option<u128>,
    mode: GcMode,
    summary: &mut GcSummary,
    r: Result<Deletion, Kept>,
)
    ensures
        call_requires(
            maybe_delete_tenant_manifest,
            (min_age, latest_gen, &key, None::<Generation>, elapsed, mode, summary),
        ),
        call_ensures(
            maybe_delete_tenant_manifest,
            (min_age, latest_gen, &key, None::<Generation>, elapsed, mode, summary),
            r,
        ) ==> r == Err::<Deletion, Kept>(Kept::StrangeKey) && final(summary)@ == old(summary)@,
{
}

/// Objects are gone through one after another: first the age of each is counted where it
/// matters, and then the deletion, where nothing speaks against it.
pub proof fn sweeps_go_one_by_one(
    tally: Tally,
    kind: ObjectKind,
    latest_gen: Generation,
    min_age: u128,
    mode: GcMode,
    objects: Seq<Encounter>,
    next: Encounter,
)
    ensures
        after_sweep(tally, kind, latest_gen, min_age, mode, Seq::empty()) == tally,
        ({
            let before = after_sweep(tally, kind, latest_gen, min_age, mode, objects);
            let judged = after_decision(before, next.candidate, latest_gen, next.elapsed);
            after_sweep(tally, kind, latest_gen, min_age, mode, objects.push(next)) == if kept_because(
                kind,
                next.candidate,
                latest_gen,
                next.elapsed,
                min_age,
                mode,
            ) is None {
                after_deletion(judged, kind, next.deleted)
            } else {
                judged
            }
        }),
{
    assert(objects.push(next).drop_last() =~= objects);
}

} // verus!
