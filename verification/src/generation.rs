use vstd::prelude::*;

verus! {

/// The number that a tenant's attachment to a pageserver carries.  It grows with each
/// attachment, and the names of the objects that the attachment writes end in it.
#[derive(Debug, Clone, Copy, PartialEq, Eq, Structural)]
pub enum Generation {
    /// The object was written before objects carried a generation.
    Legacy,
    Valid(u32),
}

impl Generation {
    /// The place of this generation in the order of generations: an object without a
    /// generation is older than every object with one.
    pub open spec fn rank(self) -> int {
        match self {
            Generation::Legacy => -1,
            Generation::Valid(n) => n as int,
        }
    }

    /// The generation that a tenant attached in this one is attached in next.
    pub open spec fn successor(self) -> Generation {
        match self {
            Generation::Legacy => Generation::Valid(1),
            Generation::Valid(n) => Generation::Valid((n + 1) as u32),
        }
    }

    /// The generation of an object without one.
    pub fn none() -> (generation: Generation)
        ensures
            generation == Generation::Legacy,
    {
        Generation::Legacy
    }

    /// Whether this generation is older than `other`.
    pub fn older_than(&self, other: &Generation) -> (older: bool)
        ensures
            older == (self.rank() < other.rank()),
    {
        match (self, other) {
            (Generation::Legacy, Generation::Legacy) => false,
            (Generation::Legacy, Generation::Valid(_)) => true,
            (Generation::Valid(_), Generation::Legacy) => false,
            (Generation::Valid(a), Generation::Valid(b)) => *a < *b,
        }
    }

    /// The generation that follows this one.
    pub fn next(&self) -> (generation: Generation)
        requires
            self.rank() < u32::MAX,
        ensures
            generation == self.successor(),
    {
        match self {
            Generation::Legacy => Generation::Valid(1),
            Generation::Valid(n) => Generation::Valid(*n + 1),
        }
    }
}

/// No two generations share a place in the order, so any two distinct generations are
/// comparable.
pub proof fn generations_are_totally_ordered(a: Generation, b: Generation)
    ensures
        a.rank() == b.rank() <==> a == b,
        a == b || a.rank() < b.rank() || b.rank() < a.rank(),
{
}

/// The next generation is younger than the one it follows.
pub proof fn next_generation_is_younger(g: Generation)
    requires
        g.rank() < u32::MAX,
    ensures
        g.rank() < g.successor().rank(),
{
}

/// An object without a generation comes before every generation, and generations come in
/// the order of their numbers, as far apart as these.
pub proof fn generations_go_by_their_numbers(a: u32, b: u32)
    ensures
        Generation::Legacy.rank() < Generation::Valid(a).rank(),
        Generation::Legacy.rank() + 1 == Generation::Valid(0).rank(),
        Generation::Valid(a).rank() - Generation::Valid(b).rank() == a - b,
        Generation::Valid(0).rank() == 0,
{
}

/// The next generation has the next number, and generation one follows an object without a
/// generation.
pub proof fn next_generation_has_the_next_number(n: u32)
    ensures
        n < u32::MAX ==> Generation::Valid(n).successor() == Generation::Valid((n + 1) as u32)
            && Generation::Valid(n).successor().rank() == n + 1,
        Generation::Legacy.successor() == Generation::Valid(1),
{
}

/// [`Generation::older_than`] compares the numbers, and puts an object without a generation
/// before all.
pub proof fn older_than_compares_numbers(a: Generation, b: Generation, older: bool)
    requires
        call_ensures(Generation::older_than, (&a, &b), older),
    ensures
        older <==> match (a, b) {
            (Generation::Legacy, Generation::Valid(_)) => true,
            (Generation::Valid(m), Generation::Valid(n)) => m < n,
            (_, Generation::Legacy) => false,
        },
{
}

/// [`Generation::next`] can be called on every generation but the last, and counts on by
/// one; [`Generation::none`] is an object without a generation.
pub proof fn next_counts_on(n: u32, legacy: Generation, next: Generation)
    ensures
        n < u32::MAX ==> call_requires(Generation::next, (&Generation::Valid(n),)),
        call_requires(Generation::next, (&Generation::Legacy,)),
        n < u32::MAX && call_ensures(Generation::next, (&Generation::Valid(n),), next) ==> next
            == Generation::Valid((n + 1) as u32),
        call_ensures(Generation::next, (&Generation::Legacy,), next) ==> next
            == Generation::Valid(1),
        call_ensures(Generation::none, (), legacy) ==> legacy == Generation::Legacy,
{
}

} // verus!
