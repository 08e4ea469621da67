use vstd::prelude::*;

verus! {

/// A tenant's identifier, as the number that its sixteen bytes spell.
#[derive(Debug, Clone, Copy, PartialEq, Eq, Structural)]
pub struct TenantId(pub u128);

/// A timeline's identifier, as the number that its sixteen bytes spell.
#[derive(Debug, Clone, Copy, PartialEq, Eq, Structural)]
pub struct TimelineId(pub u128);

/// How many shards a tenant is split into, as its shards' names spell it.  Zero stands
/// for a tenant that was never split, which has one shard.
#[derive(Debug, Clone, Copy, PartialEq, Eq, Structural)]
pub struct ShardCount(pub u8);

impl ShardCount {
    /// The number of shards that this count stands for.
    pub open spec fn shards(self) -> nat {
        if self.0 == 0 {
            1
        } else {
            self.0 as nat
        }
    }

    /// The number of shards that this count stands for.
    pub fn count(&self) -> (n: u8)
        ensures
            n == self.shards(),
    {
        if self.0 > 0 {
            self.0
        } else {
            1
        }
    }
}

/// One shard of a tenant, among all the shards that the tenant has or had.
#[derive(Debug, Clone, Copy, PartialEq, Eq, Structural)]
pub struct ShardIndex {
    pub shard_number: u8,
    pub shard_count: ShardCount,
}

impl ShardIndex {
    /// The number under which tables keep this shard.
    pub open spec fn spec_slot(self) -> int {
        256 * self.shard_number + self.shard_count.0
    }

    /// The number under which tables keep this shard.
    pub fn slot(&self) -> (slot: u16)
        ensures
            slot == self.spec_slot(),
    {
        256 * (self.shard_number as u16) + self.shard_count.0 as u16
    }

    /// Whether this is one of a tenant's shards at the given count.
    pub fn has_count(&self, shard_count: ShardCount) -> (has: bool)
        ensures
            has == (self.shard_count == shard_count),
    {
        self.shard_count == shard_count
    }
}

/// Distinct shards have distinct slots.
pub proof fn slots_are_distinct(a: ShardIndex, b: ShardIndex)
    ensures
        a.spec_slot() == b.spec_slot() <==> a == b,
{
    assert(a.spec_slot() / 256 == a.shard_number);
    assert(b.spec_slot() / 256 == b.shard_number);
}

/// One shard of a given tenant.
#[derive(Debug, Clone, Copy, PartialEq, Eq, Structural)]
pub struct TenantShardId {
    pub tenant_id: TenantId,
    pub shard_number: u8,
    pub shard_count: ShardCount,
}

impl TenantShardId {
    /// The shard, without its tenant.
    pub open spec fn index(self) -> ShardIndex {
        ShardIndex { shard_number: self.shard_number, shard_count: self.shard_count }
    }

    /// The given shard of the given tenant.
    pub open spec fn of(tenant_id: TenantId, index: ShardIndex) -> TenantShardId {
        TenantShardId {
            tenant_id,
            shard_number: index.shard_number,
            shard_count: index.shard_count,
        }
    }

    /// The shard, without its tenant.
    pub fn to_index(&self) -> (index: ShardIndex)
        ensures
            index == self.index(),
    {
        ShardIndex { shard_number: self.shard_number, shard_count: self.shard_count }
    }
}

/// A timeline of a tenant, whichever shard it is looked at on.
#[derive(Debug, Clone, Copy, PartialEq, Eq, Structural)]
pub struct TenantTimelineId {
    pub tenant_id: TenantId,
    pub timeline_id: TimelineId,
}

/// A timeline on one shard of a tenant.
#[derive(Debug, Clone, Copy, PartialEq, Eq, Structural)]
pub struct TenantShardTimelineId {
    pub tenant_shard_id: TenantShardId,
    pub timeline_id: TimelineId,
}

impl TenantShardTimelineId {
    /// The timeline, whichever shard it is on.
    pub open spec fn ttid(self) -> TenantTimelineId {
        TenantTimelineId {
            tenant_id: self.tenant_shard_id.tenant_id,
            timeline_id: self.timeline_id,
        }
    }

    /// The timeline, whichever shard it is on.
    pub fn as_tenant_timeline_id(&self) -> (ttid: TenantTimelineId)
        ensures
            ttid == self.ttid(),
    {
        TenantTimelineId {
            tenant_id: self.tenant_shard_id.tenant_id,
            timeline_id: self.timeline_id,
        }
    }
}

/// The name of a layer file, without its generation.
#[derive(Debug)]
pub struct LayerName {
    pub name: String,
}

impl View for LayerName {
    type V = Seq<char>;

    open spec fn view(&self) -> Seq<char> {
        self.name@
    }
}

impl Clone for LayerName {
    fn clone(&self) -> (copy: LayerName)
        ensures
            copy@ == self@,
    {
        LayerName { name: self.name.clone() }
    }
}

/// A count stands for as many shards as it says, but for zero, which stands for one.
pub proof fn counts_stand_for_shards(count: ShardCount, n: u8)
    ensures
        count.0 > 0 ==> count.shards() == count.0,
        count.0 == 0 ==> count.shards() == 1,
        call_ensures(ShardCount::count, (&count,), n) ==> if count.0 == 0 {
            n == 1
        } else {
            n == count.0
        },
{
}

/// Two shards get the same slot only if they are the same, and [`ShardIndex::has_count`]
/// compares the counts.
pub proof fn slots_tell_shards_apart(
    a: ShardIndex,
    b: ShardIndex,
    slot_a: u16,
    slot_b: u16,
    count: ShardCount,
    has: bool,
)
    requires
        call_ensures(ShardIndex::slot, (&a,), slot_a),
        call_ensures(ShardIndex::slot, (&b,), slot_b),
        call_ensures(ShardIndex::has_count, (&a, count), has),
    ensures
        slot_a == slot_b <==> a.shard_number == b.shard_number && a.shard_count.0
            == b.shard_count.0,
        has <==> a.shard_count.0 == count.0,
{
    slots_are_distinct(a, b);
}

/// A shard without its tenant keeps its number and its count, and together with the tenant
/// it is the shard of the tenant again.
pub proof fn shards_keep_number_and_count(id: TenantShardId, index: ShardIndex, tenant: TenantId)
    ensures
        id.index().shard_number == id.shard_number,
        id.index().shard_count == id.shard_count,
        TenantShardId::of(id.tenant_id, id.index()) == id,
        TenantShardId::of(tenant, index).tenant_id == tenant,
        TenantShardId::of(tenant, index).index() == index,
        call_ensures(TenantShardId::to_index, (&id,), index) ==> index.shard_number
            == id.shard_number && index.shard_count == id.shard_count,
{
}

/// Two shards are on the same timeline exactly if they are of the same tenant and the
/// timeline has the same identifier on both: the numbers and counts of the shards play no
/// part.
pub proof fn timelines_do_not_tell_shards_apart(
    a: TenantShardTimelineId,
    b: TenantShardTimelineId,
)
    ensures
        a.ttid() == b.ttid() <==> a.tenant_shard_id.tenant_id == b.tenant_shard_id.tenant_id
            && a.timeline_id == b.timeline_id,
        a.ttid().tenant_id == a.tenant_shard_id.tenant_id,
        a.ttid().timeline_id == a.timeline_id,
{
}

/// [`TenantShardTimelineId::as_tenant_timeline_id`] keeps the tenant and the timeline, so it
/// gives the same for two shards exactly where these agree.
pub proof fn timelines_keep_tenant_and_timeline(
    a: TenantShardTimelineId,
    b: TenantShardTimelineId,
    ttid_a: TenantTimelineId,
    ttid_b: TenantTimelineId,
)
    requires
        call_ensures(TenantShardTimelineId::as_tenant_timeline_id, (&a,), ttid_a),
        call_ensures(TenantShardTimelineId::as_tenant_timeline_id, (&b,), ttid_b),
    ensures
        ttid_a.tenant_id == a.tenant_shard_id.tenant_id,
        ttid_a.timeline_id == a.timeline_id,
        ttid_a == ttid_b <==> a.tenant_shard_id.tenant_id == b.tenant_shard_id.tenant_id
            && a.timeline_id == b.timeline_id,
{
}

/// A layer is known by the characters of its name, and a copy has the same.
pub proof fn layers_are_known_by_name(layer: LayerName, copy: LayerName)
    ensures
        layer@ == layer.name@,
        call_ensures(LayerName::clone, (&layer,), copy) ==> copy.name@ == layer.name@,
{
}

} // verus!
