use vstd::prelude::*;

verus! {

/// What a garbage collection run did, and what went wrong on the way.
#[derive(Debug, Clone, Copy, PartialEq, Eq, Structural)]
pub struct GcSummary {
    pub indices_deleted: usize,
    pub tenant_manifests_deleted: usize,
    pub remote_storage_errors: usize,
    pub controller_api_errors: usize,
    pub ancestor_layers_deleted: usize,
}

/// The counters of a summary, without a bound on their size.
#[verifier::ext_equal]
pub struct Tally {
    pub indices_deleted: nat,
    pub tenant_manifests_deleted: nat,
    pub remote_storage_errors: nat,
    pub controller_api_errors: nat,
    pub ancestor_layers_deleted: nat,
}

impl Tally {
    /// The tally of a run in which nothing happened.
    pub open spec fn zero() -> Tally {
        Tally {
            indices_deleted: 0,
            tenant_manifests_deleted: 0,
            remote_storage_errors: 0,
            controller_api_errors: 0,
            ancestor_layers_deleted: 0,
        }
    }

    /// The tally of two runs taken together.
    pub open spec fn plus(self, other: Tally) -> Tally {
        Tally {
            indices_deleted: self.indices_deleted + other.indices_deleted,
            tenant_manifests_deleted: self.tenant_manifests_deleted
                + other.tenant_manifests_deleted,
            remote_storage_errors: self.remote_storage_errors + other.remote_storage_errors,
            controller_api_errors: self.controller_api_errors + other.controller_api_errors,
            ancestor_layers_deleted: self.ancestor_layers_deleted + other.ancestor_layers_deleted,
        }
    }

    /// Whether every counter fits the machine integer that a summary keeps it in.
    pub open spec fn fits(self) -> bool {
        &&& self.indices_deleted <= usize::MAX
        &&& self.tenant_manifests_deleted <= usize::MAX
        &&& self.remote_storage_errors <= usize::MAX
        &&& self.controller_api_errors <= usize::MAX
        &&& self.ancestor_layers_deleted <= usize::MAX
    }

    /// The objects that were deleted, of whatever kind.
    pub open spec fn deleted(self) -> nat {
        self.indices_deleted + self.tenant_manifests_deleted + self.ancestor_layers_deleted
    }
}

impl View for GcSummary {
    type V = Tally;

    open spec fn view(&self) -> Tally {
        Tally {
            indices_deleted: self.indices_deleted as nat,
            tenant_manifests_deleted: self.tenant_manifests_deleted as nat,
            remote_storage_errors: self.remote_storage_errors as nat,
            controller_api_errors: self.controller_api_errors as nat,
            ancestor_layers_deleted: self.ancestor_layers_deleted as nat,
        }
    }
}

impl Default for GcSummary {
    /// A summary with every counter at zero.
    fn default() -> (summary: GcSummary)
        ensures
            summary@ == Tally::zero(),
    {
        GcSummary {
            indices_deleted: 0,
            tenant_manifests_deleted: 0,
            remote_storage_errors: 0,
            controller_api_errors: 0,
            ancestor_layers_deleted: 0,
        }
    }
}

impl GcSummary {
    /// Whether `other` can be merged into this summary without overflowing a counter.
    pub fn can_merge(&self, other: &GcSummary) -> (fits: bool)
        ensures
            fits == self@.plus(other@).fits(),
    {
        self.indices_deleted <= usize::MAX - other.indices_deleted
            && self.tenant_manifests_deleted <= usize::MAX - other.tenant_manifests_deleted
            && self.remote_storage_errors <= usize::MAX - other.remote_storage_errors
            && self.controller_api_errors <= usize::MAX - other.controller_api_errors
            && self.ancestor_layers_deleted <= usize::MAX - other.ancestor_layers_deleted
    }

    /// Adds the counters of `other` to this summary.
    pub fn merge(&mut self, other: GcSummary)
        requires
            old(self)@.plus(other@).fits(),
        ensures
            final(self)@ == old(self)@.plus(other@),
    {
        self.indices_deleted = self.indices_deleted + other.indices_deleted;
        self.tenant_manifests_deleted = self.tenant_manifests_deleted
            + other.tenant_manifests_deleted;
        self.remote_storage_errors = self.remote_storage_errors + other.remote_storage_errors;
        self.ancestor_layers_deleted = self.ancestor_layers_deleted
            + other.ancestor_layers_deleted;
        self.controller_api_errors = self.controller_api_errors + other.controller_api_errors;
    }
}

/// The tally of several runs taken together, in their order.
pub open spec fn total(tallies: Seq<Tally>) -> Tally
    decreases tallies.len(),
{
    if tallies.len() == 0 {
        Tally::zero()
    } else {
        total(tallies.drop_last()).plus(tallies.last())
    }
}

/// Merging does not depend on which summary is merged into which, nor on how several are
/// grouped, and an empty summary changes nothing.
pub proof fn merging_is_addition(a: Tally, b: Tally, c: Tally)
    ensures
        a.plus(b) == b.plus(a),
        a.plus(b).plus(c) == a.plus(b.plus(c)),
        a.plus(Tally::zero()) == a,
{
}

/// The order in which summaries are merged does not matter.
pub proof fn order_of_merging_is_irrelevant(a: Seq<Tally>, b: Seq<Tally>)
    requires
        a.to_multiset() == b.to_multiset(),
    ensures
        total(a) == total(b),
    decreases a.len(),
{
    broadcast use vstd::seq_lib::group_to_multiset_ensures;

    assert(a.len() == a.to_multiset().len());
    assert(b.len() == b.to_multiset().len());
    if a.len() > 0 {
        let last = a.last();
        assert(a.contains(last));
        assert(b.to_multiset().count(last) > 0);
        assert(b.contains(last));
        let i = choose|i: int| 0 <= i < b.len() && b[i] == last;
        assert(a.remove(a.len() - 1) =~= a.drop_last());
        order_of_merging_is_irrelevant(a.drop_last(), b.remove(i));
        lemma_total_without(b, i);
    }
}

/// A summary counts no matter where in the order it comes.
proof fn lemma_total_without(tallies: Seq<Tally>, i: int)
    requires
        0 <= i < tallies.len(),
    ensures
        total(tallies) == total(tallies.remove(i)).plus(tallies[i]),
    decreases tallies.len(),
{
    if i == tallies.len() - 1 {
        assert(tallies.remove(i) =~= tallies.drop_last());
    } else {
        lemma_total_without(tallies.drop_last(), i);
        assert(tallies.remove(i).drop_last() =~= tallies.drop_last().remove(i));
        assert(tallies.remove(i).last() == tallies.last());
    }
}

/// Each counter of two runs taken together is the sum of the two counters.
pub proof fn each_counter_is_added(a: Tally, b: Tally)
    ensures
        a.plus(b).indices_deleted == a.indices_deleted + b.indices_deleted,
        a.plus(b).tenant_manifests_deleted == a.tenant_manifests_deleted
            + b.tenant_manifests_deleted,
        a.plus(b).remote_storage_errors == a.remote_storage_errors + b.remote_storage_errors,
        a.plus(b).controller_api_errors == a.controller_api_errors + b.controller_api_errors,
        a.plus(b).ancestor_layers_deleted == a.ancestor_layers_deleted
            + b.ancestor_layers_deleted,
{
}

/// A summary shows its counters as they are.
pub proof fn counters_are_shown_as_they_are(summary: GcSummary)
    ensures
        summary@.indices_deleted == summary.indices_deleted,
        summary@.tenant_manifests_deleted == summary.tenant_manifests_deleted,
        summary@.remote_storage_errors == summary.remote_storage_errors,
        summary@.controller_api_errors == summary.controller_api_errors,
        summary@.ancestor_layers_deleted == summary.ancestor_layers_deleted,
{
}

/// A tally fits if and only if some summary shows it.
pub proof fn fitting_tallies_are_those_of_summaries(tally: Tally)
    ensures
        tally.fits() <==> exists|summary: GcSummary| #[trigger] summary@ == tally,
{
    if tally.fits() {
        let summary = GcSummary {
            indices_deleted: tally.indices_deleted as usize,
            tenant_manifests_deleted: tally.tenant_manifests_deleted as usize,
            remote_storage_errors: tally.remote_storage_errors as usize,
            controller_api_errors: tally.controller_api_errors as usize,
            ancestor_layers_deleted: tally.ancestor_layers_deleted as usize,
        };
        assert(summary@ == tally);
    }
}

/// Of a run in which nothing happened every counter is zero, and so a new summary starts.
pub proof fn nothing_happened_is_all_zero(summary: GcSummary)
    ensures
        call_ensures(GcSummary::default, (), summary) ==> {
            &&& summary.indices_deleted == 0
            &&& summary.tenant_manifests_deleted == 0
            &&& summary.remote_storage_errors == 0
            &&& summary.controller_api_errors == 0
            &&& summary.ancestor_layers_deleted == 0
        },
        Tally::zero().indices_deleted == 0,
        Tally::zero().tenant_manifests_deleted == 0,
        Tally::zero().remote_storage_errors == 0,
        Tally::zero().controller_api_errors == 0,
        Tally::zero().ancestor_layers_deleted == 0,
{
}

/// The deleted objects are the indices, the tenant manifests and the layers together.
pub proof fn deleted_objects_are_of_three_kinds(tally: Tally)
    ensures
        tally.deleted() == tally.indices_deleted + tally.tenant_manifests_deleted
            + tally.ancestor_layers_deleted,
{
}

/// The total of no runs is zero, that of one run is its tally, and that of two groups of
/// runs is the sum of their totals.
pub proof fn totals_add_up(a: Seq<Tally>, b: Seq<Tally>, one: Tally)
    ensures
        total(Seq::empty()) == Tally::zero(),
        total(seq![one]) == one,
        total(a + b) == total(a).plus(total(b)),
    decreases b.len(),
{
    assert(seq![one].drop_last() =~= Seq::empty());
    assert(total(seq![one].drop_last()) == Tally::zero());
    if b.len() == 0 {
        assert(a + b =~= a);
    } else {
        totals_add_up(a, b.drop_last(), one);
        assert((a + b).drop_last() =~= a + b.drop_last());
    }
}

/// A call of [`GcSummary::merge`] is possible wherever the sum of each counter fits, and
/// leaves the sum in each counter.
pub proof fn merge_sums_up(summary: &mut GcSummary, other: GcSummary)
    ensures
        ({
            &&& old(summary).indices_deleted + other.indices_deleted <= usize::MAX
            &&& old(summary).tenant_manifests_deleted + other.tenant_manifests_deleted
                <= usize::MAX
            &&& old(summary).remote_storage_errors + other.remote_storage_errors <= usize::MAX
            &&& old(summary).controller_api_errors + other.controller_api_errors <= usize::MAX
            &&& old(summary).ancestor_layers_deleted + other.ancestor_layers_deleted <= usize::MAX
        }) ==> call_requires(GcSummary::merge, (summary, other)),
        call_ensures(GcSummary::merge, (summary, other), ()) ==> {
            &&& final(summary).indices_deleted == old(summary).indices_deleted
                + other.indices_deleted
            &&& final(summary).tenant_manifests_deleted == old(summary).tenant_manifests_deleted
                + other.tenant_manifests_deleted
            &&& final(summary).remote_storage_errors == old(summary).remote_storage_errors
                + other.remote_storage_errors
            &&& final(summary).controller_api_errors == old(summary).controller_api_errors
                + other.controller_api_errors
            &&& final(summary).ancestor_layers_deleted == old(summary).ancestor_layers_deleted
                + other.ancestor_layers_deleted
        },
{
}

/// [`GcSummary::can_merge`] tells whether the sum of each counter fits.
pub proof fn can_merge_tells_what_fits(a: GcSummary, b: GcSummary, fits: bool)
    requires
        call_ensures(GcSummary::can_merge, (&a, &b), fits),
    ensures
        fits <==> {
            &&& a.indices_deleted + b.indices_deleted <= usize::MAX
            &&& a.tenant_manifests_deleted + b.tenant_manifests_deleted <= usize::MAX
            &&& a.remote_storage_errors + b.remote_storage_errors <= usize::MAX
            &&& a.controller_api_errors + b.controller_api_errors <= usize::MAX
            &&& a.ancestor_layers_deleted + b.ancestor_layers_deleted <= usize::MAX
        },
{
}

} // verus!
