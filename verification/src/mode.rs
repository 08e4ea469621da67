use vstd::prelude::*;

verus! {

/// How far garbage collection may go.
#[derive(Debug, Clone, Copy, PartialEq, Eq, Structural)]
pub enum GcMode {
    /// Delete nothing.
    DryRun,
    /// Enable only removing old-generation indices.
    IndicesOnly,
    /// Enable all forms of garbage collection.
    Full,
}

/// The kinds of objects that garbage collection deletes.
#[derive(Debug, Clone, Copy, PartialEq, Eq, Structural)]
pub enum ObjectKind {
    /// The index of an old generation.
    Index,
    /// The tenant manifest of an old generation.
    TenantManifest,
    /// A layer of an ancestor shard that no descendant refers to.
    AncestorLayer,
}

impl GcMode {
    /// Whether the mode lets objects of the given kind be deleted.
    pub open spec fn enables(self, kind: ObjectKind) -> bool {
        match self {
            GcMode::DryRun => false,
            GcMode::IndicesOnly => kind == ObjectKind::Index,
            GcMode::Full => true,
        }
    }

    /// Whether the mode lets objects of the given kind be deleted.
    pub fn is_enabled(&self, kind: ObjectKind) -> (enabled: bool)
        ensures
            enabled == self.enables(kind),
    {
        match self {
            GcMode::DryRun => false,
            GcMode::IndicesOnly => kind == ObjectKind::Index,
            GcMode::Full => true,
        }
    }

    /// The name under which the mode is asked for.
    pub open spec fn name(self) -> Seq<char> {
        match self {
            GcMode::DryRun => "dry-run"@,
            GcMode::IndicesOnly => "indices-only"@,
            GcMode::Full => "full"@,
        }
    }

    /// The name under which the mode is asked for.
    pub fn to_string(&self) -> (name: String)
        ensures
            name@ == self.name(),
    {
        match self {
            GcMode::DryRun => "dry-run".to_owned(),
            GcMode::IndicesOnly => "indices-only".to_owned(),
            GcMode::Full => "full".to_owned(),
        }
    }
}

/// A dry run deletes nothing, the mode for indices deletes indices and nothing else, and the
/// full mode deletes objects of every kind.
pub proof fn modes_enable_what_they_name(kind: ObjectKind)
    ensures
        !GcMode::DryRun.enables(kind),
        GcMode::IndicesOnly.enables(kind) <==> kind == ObjectKind::Index,
        GcMode::Full.enables(kind),
{
}

/// No two modes share a name.
pub proof fn mode_names_are_distinct(a: GcMode, b: GcMode)
    ensures
        a.name() == b.name() <==> a == b,
{
    reveal_strlit("dry-run");
    reveal_strlit("indices-only");
    reveal_strlit("full");
    assert("dry-run"@.len() == 7);
    assert("indices-only"@.len() == 12);
    assert("full"@.len() == 4);
}

/// The modes are called by the names that the command line knows, and
/// [`GcMode::to_string`] gives these.
pub proof fn modes_are_called_by_their_names(mode: GcMode, name: String)
    requires
        call_ensures(GcMode::to_string, (&mode,), name),
    ensures
        mode is DryRun ==> name@ == "dry-run"@,
        mode is IndicesOnly ==> name@ == "indices-only"@,
        mode is Full ==> name@ == "full"@,
        name@ == mode.name(),
{
}

/// [`GcMode::is_enabled`] says no in a dry run, yes in full mode, and yes to indices alone in
/// between.
pub proof fn is_enabled_follows_the_mode(mode: GcMode, kind: ObjectKind, enabled: bool)
    requires
        call_ensures(GcMode::is_enabled, (&mode, kind), enabled),
    ensures
        enabled <==> mode is Full || (mode is IndicesOnly && kind is Index),
{
}

} // verus!
