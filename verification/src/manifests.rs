use crate::generation::Generation;
use vstd::prelude::*;

verus! {

broadcast use vstd::seq_lib::group_to_multiset_ensures;

/// What listing a tenant's manifests gave.  `T` is whatever stands for a listed object.
pub enum ListTenantManifestResult<T> {
    /// There were errors, or keys that nobody understands.
    WithErrors { errors: Vec<String> },
    /// The manifests with their generations, and the latest of these, if there is any.
    NoErrors { latest_generation: Option<Generation>, manifests: Vec<(Generation, T)> },
}

/// `sorted`, which is in the order of generations, with one more manifest before the
/// first that is not older.
pub open spec fn insert_by_generation<T>(
    sorted: Seq<(Generation, T)>,
    manifest: (Generation, T),
) -> Seq<(Generation, T)>
    decreases sorted.len(),
{
    if sorted.len() == 0 || sorted[0].0.rank() >= manifest.0.rank() {
        seq![manifest] + sorted
    } else {
        seq![sorted[0]] + insert_by_generation(sorted.drop_first(), manifest)
    }
}

/// The manifests from the oldest generation to the latest; those of one generation stay
/// in their order.
pub open spec fn sorted_by_generation<T>(manifests: Seq<(Generation, T)>) -> Seq<(Generation, T)>
    decreases manifests.len(),
{
    if manifests.len() == 0 {
        Seq::empty()
    } else {
        insert_by_generation(sorted_by_generation(manifests.drop_first()), manifests[0])
    }
}

/// The manifests from the latest generation to the oldest, without the two latest.
pub open spec fn candidates_of<T>(manifests: Seq<(Generation, T)>) -> Seq<(Generation, T)> {
    if manifests.len() <= 2 {
        Seq::empty()
    } else {
        sorted_by_generation(manifests).reverse().skip(2)
    }
}

/// Whether the manifests are in the order of their generations.
pub open spec fn is_sorted<T>(manifests: Seq<(Generation, T)>) -> bool {
    forall|i: int, j: int|
        0 <= i < j < manifests.len() ==> (#[trigger] manifests[i]).0.rank() <= (
        #[trigger] manifests[j]).0.rank()
}

/// Where a manifest goes among sorted ones.
proof fn lemma_insert_at<T>(sorted: Seq<(Generation, T)>, manifest: (Generation, T), at: int)
    requires
        0 <= at <= sorted.len(),
        forall|i: int| 0 <= i < at ==> (#[trigger] sorted[i]).0.rank() < manifest.0.rank(),
        at < sorted.len() ==> sorted[at].0.rank() >= manifest.0.rank(),
    ensures
        insert_by_generation(sorted, manifest) == sorted.insert(at, manifest),
    decreases sorted.len(),
{
    if at == 0 {
        assert(seq![manifest] + sorted =~= sorted.insert(0, manifest));
    } else {
        let rest = sorted.drop_first();
        assert(sorted[0].0.rank() < manifest.0.rank());
        assert forall|i: int| 0 <= i < at - 1 implies (#[trigger] rest[i]).0.rank()
            < manifest.0.rank() by {
            assert(rest[i] == sorted[i + 1]);
        }
        lemma_insert_at(rest, manifest, at - 1);
        assert(seq![sorted[0]] + rest.insert(at - 1, manifest) =~= sorted.insert(at, manifest));
    }
}

/// Sorts manifests by their generations.
fn sort_by_generation<T>(manifests: Vec<(Generation, T)>) -> (sorted: Vec<(Generation, T)>)
    ensures
        sorted@ == sorted_by_generation(manifests@),
{
    let ghost all = manifests@;
    let mut manifests = manifests;
    let mut sorted: Vec<(Generation, T)> = Vec::new();
    assert(all.skip(all.len() as int) =~= Seq::empty());
    loop
        invariant_except_break
            manifests@.len() <= all.len(),
            manifests@ == all.take(manifests@.len() as int),
            sorted@ == sorted_by_generation(all.skip(manifests@.len() as int)),
        ensures
            sorted@ == sorted_by_generation(all),
        decreases manifests@.len(),
    {
        let ghost n = manifests@.len() as int;
        let manifest = match manifests.pop() {
            Some(manifest) => manifest,
            None => {
                assert(all.skip(0) =~= all);
                break;
            },
        };
        assert(manifest == all[n - 1]);
        assert(all.skip(n - 1).drop_first() =~= all.skip(n));
        assert(all.skip(n - 1)[0] == manifest);
        let mut at: usize = 0;
        while at < sorted.len() && sorted[at].0.older_than(&manifest.0)
            invariant
                at <= sorted@.len(),
                forall|i: int| 0 <= i < at ==> (#[trigger] sorted@[i]).0.rank() < manifest.0.rank(),
            decreases sorted@.len() - at,
        {
            at = at + 1;
        }
        proof {
            lemma_insert_at(sorted@, manifest, at as int);
        }
        sorted.insert(at, manifest);
    }
    sorted
}

/// The manifests that may be deleted, as far as their generations are concerned, if the
/// tenant has a latest generation: all but the two latest, from the latest on.  The two
/// need not be one generation apart.
pub fn gc_tenant_manifests<T>(listing: ListTenantManifestResult<T>) -> (r: Option<
    (Generation, Vec<(Generation, T)>),
>)
    ensures
        r is Some <==> listing is NoErrors && listing->latest_generation is Some,
        r matches Some(sweep) ==> {
            &&& listing->latest_generation == Some(sweep.0)
            &&& sweep.1@ == candidates_of(listing->manifests@)
        },
{
    match listing {
        ListTenantManifestResult::WithErrors { errors: _ } => None,
        ListTenantManifestResult::NoErrors { latest_generation, manifests } => {
            let latest_gen = match latest_generation {
                Some(generation) => generation,
                None => {
                    return None;
                },
            };
            let ghost sorted = sorted_by_generation(manifests@);
            proof {
                sorting_keeps_manifests(manifests@);
                assert(sorted.len() == sorted.to_multiset().len());
                assert(manifests@.len() == manifests@.to_multiset().len());
            }
            let mut left = sort_by_generation(manifests);
            // Skip the two latest generations.
            let _ = left.pop();
            let _ = left.pop();
            let mut candidates: Vec<(Generation, T)> = Vec::new();
            loop
                invariant_except_break
                    left@.len() + candidates@.len() == if sorted.len() <= 2 {
                        0
                    } else {
                        sorted.len() - 2
                    },
                    left@ == sorted.take(left@.len() as int),
                    forall|i: int|
                        0 <= i < candidates@.len() ==> #[trigger] candidates@[i]
                            == sorted[sorted.len() - 3 - i],
                ensures
                    candidates@.len() == if sorted.len() <= 2 {
                        0
                    } else {
                        sorted.len() - 2
                    },
                    forall|i: int|
                        0 <= i < candidates@.len() ==> #[trigger] candidates@[i]
                            == sorted[sorted.len() - 3 - i],
                decreases left@.len(),
            {
                match left.pop() {
                    Some(manifest) => {
                        candidates.push(manifest);
                    },
                    None => {
                        break;
                    },
                }
            }
            assert(candidates@ =~= candidates_of(manifests@));
            Some((latest_gen, candidates))
        },
    }
}

/// Sorting keeps the manifests, and how often each occurs.
pub proof fn sorting_keeps_manifests<T>(manifests: Seq<(Generation, T)>)
    ensures
        sorted_by_generation(manifests).to_multiset() == manifests.to_multiset(),
    decreases manifests.len(),
{
    if manifests.len() > 0 {
        let rest = manifests.drop_first();
        sorting_keeps_manifests(rest);
        lemma_insert_keeps(sorted_by_generation(rest), manifests[0]);
        lemma_front_multiset(manifests[0], rest);
        assert(seq![manifests[0]] + rest =~= manifests);
    }
}

proof fn lemma_front_multiset<A>(first: A, rest: Seq<A>)
    ensures
        (seq![first] + rest).to_multiset() == rest.to_multiset().insert(first),
{
    let whole = seq![first] + rest;
    assert(whole.remove(0) =~= rest);
    assert(whole[0] == first);
    assert(whole.contains(first));
    assert(whole.to_multiset().count(first) > 0);
    assert(whole.to_multiset() =~= rest.to_multiset().insert(first));
}

proof fn lemma_insert_keeps<T>(sorted: Seq<(Generation, T)>, manifest: (Generation, T))
    ensures
        insert_by_generation(sorted, manifest).to_multiset() == sorted.to_multiset().insert(
            manifest,
        ),
    decreases sorted.len(),
{
    if sorted.len() == 0 || sorted[0].0.rank() >= manifest.0.rank() {
        lemma_front_multiset(manifest, sorted);
    } else {
        let rest = sorted.drop_first();
        lemma_insert_keeps(rest, manifest);
        lemma_front_multiset(sorted[0], insert_by_generation(rest, manifest));
        lemma_front_multiset(sorted[0], rest);
        assert(seq![sorted[0]] + rest =~= sorted);
        assert(rest.to_multiset().insert(manifest).insert(sorted[0])
            =~= rest.to_multiset().insert(sorted[0]).insert(manifest));
    }
}

/// Finds where a manifest goes among sorted ones.
proof fn lemma_position<T>(sorted: Seq<(Generation, T)>, manifest: (Generation, T)) -> (at: int)
    ensures
        0 <= at <= sorted.len(),
        forall|i: int| 0 <= i < at ==> (#[trigger] sorted[i]).0.rank() < manifest.0.rank(),
        at < sorted.len() ==> sorted[at].0.rank() >= manifest.0.rank(),
        insert_by_generation(sorted, manifest) == sorted.insert(at, manifest),
    decreases sorted.len(),
{
    if sorted.len() == 0 || sorted[0].0.rank() >= manifest.0.rank() {
        lemma_insert_at(sorted, manifest, 0);
        0
    } else {
        let rest = sorted.drop_first();
        let at = lemma_position(rest, manifest) + 1;
        assert forall|i: int| 0 <= i < at implies (#[trigger] sorted[i]).0.rank()
            < manifest.0.rank() by {
            if i > 0 {
                assert(sorted[i] == rest[i - 1]);
            }
        }
        lemma_insert_at(sorted, manifest, at);
        at
    }
}

/// Sorting puts the manifests in the order of their generations.
pub proof fn sorting_orders_manifests<T>(manifests: Seq<(Generation, T)>)
    ensures
        is_sorted(sorted_by_generation(manifests)),
    decreases manifests.len(),
{
    if manifests.len() > 0 {
        let rest = sorted_by_generation(manifests.drop_first());
        sorting_orders_manifests(manifests.drop_first());
        let at = lemma_position(rest, manifests[0]);
        let sorted = rest.insert(at, manifests[0]);
        assert forall|i: int, j: int| 0 <= i < j < sorted.len() implies (
        #[trigger] sorted[i]).0.rank() <= (#[trigger] sorted[j]).0.rank() by {
            let k = if i < at {
                i
            } else {
                i - 1
            };
            let l = if j < at {
                j
            } else {
                j - 1
            };
            if i == at {
                assert(sorted[j] == rest[l]);
                assert(rest[at].0.rank() <= rest[l].0.rank());
            } else if j == at {
                assert(sorted[i] == rest[k]);
            } else {
                assert(sorted[i] == rest[k] && sorted[j] == rest[l]);
            }
        }
    }
}

/// Sorting keeps the manifests of one generation in their order.
pub proof fn sorting_is_stable<T>(manifests: Seq<(Generation, T)>, generation: Generation)
    ensures
        sorted_by_generation(manifests).filter(|m: (Generation, T)| m.0 == generation)
            == manifests.filter(|m: (Generation, T)| m.0 == generation),
    decreases manifests.len(),
{
    let of_generation = |m: (Generation, T)| m.0 == generation;
    reveal(Seq::filter);
    if manifests.len() > 0 {
        let first = manifests[0];
        let rest = manifests.drop_first();
        let sorted = sorted_by_generation(rest);
        sorting_is_stable(rest, generation);
        let at = lemma_position(sorted, first);
        let low = sorted.take(at);
        let high = sorted.skip(at);
        assert(sorted =~= low + high);
        assert(sorted.insert(at, first) =~= low + (seq![first] + high));
        assert(manifests =~= seq![first] + rest);
        Seq::filter_distributes_over_add(low, high, of_generation);
        Seq::filter_distributes_over_add(low, seq![first] + high, of_generation);
        Seq::filter_distributes_over_add(seq![first], high, of_generation);
        Seq::filter_distributes_over_add(seq![first], rest, of_generation);
        let one = seq![first].filter(of_generation);
        assert(seq![first].drop_last() =~= Seq::empty());
        assert(Seq::<(Generation, T)>::empty().filter(of_generation) =~= Seq::empty());
        assert(seq![first].last() == first);
        if first.0 == generation {
            assert(low.filter(of_generation).len() == 0) by {
                if low.filter(of_generation).len() > 0 {
                    low.lemma_filter_pred(of_generation, 0);
                    low.lemma_filter_contains_rev(of_generation, low.filter(of_generation)[0]);
                    let i = choose|i: int|
                        0 <= i < low.len() && low[i] == low.filter(of_generation)[0];
                    assert(sorted[i].0.rank() < first.0.rank());
                }
            }
            assert(low.filter(of_generation) + (one + high.filter(of_generation)) =~= one + (
            low.filter(of_generation) + high.filter(of_generation)));
        } else {
            assert(one =~= Seq::empty());
            assert(low.filter(of_generation) + (one + high.filter(of_generation)) =~= one + (
            low.filter(of_generation) + high.filter(of_generation)));
        }
    }
}

/// Of two or more manifests all but two may be deleted, and neither of the two that are
/// kept is older than one that may be deleted.
pub proof fn two_latest_manifests_are_kept<T>(manifests: Seq<(Generation, T)>)
    requires
        manifests.len() >= 2,
    ensures
        ({
            let sorted = sorted_by_generation(manifests);
            let candidates = candidates_of(manifests);
            let latest = sorted[sorted.len() - 1];
            let second = sorted[sorted.len() - 2];
            &&& candidates.len() == manifests.len() - 2
            &&& manifests.to_multiset() == candidates.to_multiset().insert(second).insert(latest)
            &&& second.0.rank() <= latest.0.rank()
            &&& forall|i: int|
                0 <= i < candidates.len() ==> (#[trigger] candidates[i]).0.rank()
                    <= second.0.rank()
        }),
{
    let sorted = sorted_by_generation(manifests);
    let candidates = candidates_of(manifests);
    sorting_keeps_manifests(manifests);
    sorting_orders_manifests(manifests);
    assert(sorted.len() == sorted.to_multiset().len());
    assert(manifests.len() == manifests.to_multiset().len());
    let n = sorted.len() as int;
    let low = sorted.take(n - 2);
    assert(candidates =~= low.reverse());
    low.lemma_reverse_to_multiset();
    assert(sorted =~= low.push(sorted[n - 2]).push(sorted[n - 1]));
    assert forall|i: int| 0 <= i < candidates.len() implies (#[trigger] candidates[i]).0.rank()
        <= sorted[n - 2].0.rank() by {
        assert(candidates[i] == sorted[n - 3 - i]);
    }
}

/// Manifests are in order exactly if none is of a later generation than the one right after
/// it.
pub proof fn order_goes_from_manifest_to_manifest<T>(manifests: Seq<(Generation, T)>)
    ensures
        is_sorted(manifests) <==> forall|i: int, j: int|
            0 <= i < manifests.len() && 0 <= j < manifests.len() && j == i + 1 ==> (
            #[trigger] manifests[i]).0.rank() <= (#[trigger] manifests[j]).0.rank(),
    decreases manifests.len(),
{
    if manifests.len() > 0 {
        let rest = manifests.drop_last();
        let n = manifests.len() - 1;
        order_goes_from_manifest_to_manifest(rest);
        if forall|i: int, j: int|
            0 <= i < manifests.len() && 0 <= j < manifests.len() && j == i + 1 ==> (
            #[trigger] manifests[i]).0.rank() <= (#[trigger] manifests[j]).0.rank() {
            assert forall|i: int, j: int|
                0 <= i < rest.len() && 0 <= j < rest.len() && j == i + 1 implies (
            #[trigger] rest[i]).0.rank() <= (#[trigger] rest[j]).0.rank() by {
                assert(manifests[i].0.rank() <= manifests[j].0.rank());
            }
            assert(is_sorted(rest));
            assert forall|i: int, j: int| 0 <= i < j < manifests.len() implies (
            #[trigger] manifests[i]).0.rank() <= (#[trigger] manifests[j]).0.rank() by {
                if j == n {
                    assert(manifests[n - 1].0.rank() <= manifests[n].0.rank());
                    if i < n - 1 {
                        assert(rest[i].0.rank() <= rest[n - 1].0.rank());
                    }
                } else {
                    assert(rest[i].0.rank() <= rest[j].0.rank());
                }
            }
        }
    }
}

/// Of no more than two manifests none may be deleted; of more, those may that come before the
/// last two in the order of generations, from the latest on.
pub proof fn candidates_come_latest_first<T>(manifests: Seq<(Generation, T)>, i: int)
    ensures
        manifests.len() <= 2 ==> candidates_of(manifests).len() == 0,
        manifests.len() > 2 ==> candidates_of(manifests).len() == manifests.len() - 2,
        0 <= i < manifests.len() - 2 ==> candidates_of(manifests)[i] == sorted_by_generation(
            manifests,
        )[manifests.len() - 3 - i],
{
    let sorted = sorted_by_generation(manifests);
    sorting_keeps_manifests(manifests);
    assert(sorted.len() == sorted.to_multiset().len());
    assert(manifests.len() == manifests.to_multiset().len());
}

/// What [`gc_tenant_manifests`] gives.  There is nothing to go through exactly if there were
/// errors or there is no latest generation, and with two manifests or fewer there is no
/// candidate.  With more, two are kept.  The candidates from the last to the first, and then
/// the two, are all the manifests, none before one of an older generation, and those of one
/// generation in the order of the listing.
pub proof fn all_but_two_manifests_are_candidates<T>(
    listing: ListTenantManifestResult<T>,
    r: Option<(Generation, Vec<(Generation, T)>)>,
    generation: Generation,
) -> (kept: ((Generation, T), (Generation, T)))
    requires
        call_ensures(gc_tenant_manifests::<T>, (listing,), r),
    ensures
        call_requires(gc_tenant_manifests::<T>, (listing,)),
        r is None <==> listing is WithErrors || listing->latest_generation is None,
        r matches Some(sweep) ==> {
            let manifests = listing->manifests@;
            let whole = sweep.1@.reverse().push(kept.0).push(kept.1);
            let of_generation = |m: (Generation, T)| m.0 == generation;
            &&& listing->latest_generation == Some(sweep.0)
            &&& manifests.len() <= 2 ==> sweep.1@.len() == 0
            &&& manifests.len() >= 2 ==> {
                &&& whole.to_multiset() == manifests.to_multiset()
                &&& whole.filter(of_generation) == manifests.filter(of_generation)
                &&& forall|i: int, j: int|
                    0 <= i < whole.len() && 0 <= j < whole.len() && j == i + 1 ==> (
                    #[trigger] whole[i]).0.rank() <= (#[trigger] whole[j]).0.rank()
            }
        },
{
    if let Some(sweep) = r {
        let manifests = listing->manifests@;
        let sorted = sorted_by_generation(manifests);
        let n = sorted.len() as int;
        let kept = (sorted[n - 2], sorted[n - 1]);
        sorting_keeps_manifests(manifests);
        sorting_orders_manifests(manifests);
        sorting_is_stable(manifests, generation);
        assert(sorted.len() == sorted.to_multiset().len());
        assert(manifests.len() == manifests.to_multiset().len());
        if n >= 2 {
            let whole = sweep.1@.reverse().push(kept.0).push(kept.1);
            assert(whole =~= sorted);
            order_goes_from_manifest_to_manifest(whole);
        }
        kept
    } else {
        arbitrary()
    }
}

} // verus!
