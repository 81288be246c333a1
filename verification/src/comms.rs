//! Colonist groups, flock spacing presets and shout kinds.

use vstd::prelude::*;

verus! {

/// Flock spacing preset.
#[derive(Clone, Copy, Debug, PartialEq, Eq)]
pub enum FlockSpacing {
    Tight,
    Normal,
    Spread,
}

impl Default for FlockSpacing {
    /// The default preset is Normal.
    fn default() -> (s: FlockSpacing)
        ensures
            s == FlockSpacing::Normal,
    {
        FlockSpacing::Normal
    }
}

impl FlockSpacing {
    /// Display label.
    pub fn label(self) -> (s: &'static str)
        ensures
            s@ == (match self {
                FlockSpacing::Tight => "Tight"@,
                FlockSpacing::Normal => "Normal"@,
                FlockSpacing::Spread => "Spread"@,
            }),
    {
        match self {
            FlockSpacing::Tight => "Tight",
            FlockSpacing::Normal => "Normal",
            FlockSpacing::Spread => "Spread",
        }
    }

    /// The next preset: Tight, Normal, Spread, then back to Tight.
    pub fn cycle(self) -> (s: FlockSpacing)
        ensures
            s == spec_cycle(self),
    {
        match self {
            FlockSpacing::Tight => FlockSpacing::Normal,
            FlockSpacing::Normal => FlockSpacing::Spread,
            FlockSpacing::Spread => FlockSpacing::Tight,
        }
    }
}

pub open spec fn spec_cycle(s: FlockSpacing) -> FlockSpacing {
    match s {
        FlockSpacing::Tight => FlockSpacing::Normal,
        FlockSpacing::Normal => FlockSpacing::Spread,
        FlockSpacing::Spread => FlockSpacing::Tight,
    }
}

/// Cycling through the presets returns to the start after three steps and never
/// stays put.
pub proof fn lemma_cycle_period_three(s: FlockSpacing)
    ensures
        spec_cycle(spec_cycle(spec_cycle(s))) == s,
        spec_cycle(s) != s,
        spec_cycle(spec_cycle(s)) != s,
{
}

/// What a shout says.
#[derive(Clone, Copy, Debug)]
pub enum ShoutKind {
    Alert,
    Retreat,
    Help,
    Covering,
    Clear,
}

impl ShoutKind {
    /// Speech bubble text.
    pub fn label(self) -> (s: &'static str)
        ensures
            s@ == (match self {
                ShoutKind::Alert => "Contact!"@,
                ShoutKind::Retreat => "Fall back!"@,
                ShoutKind::Help => "I'm hit!"@,
                ShoutKind::Covering => "Covering!"@,
                ShoutKind::Clear => "Clear!"@,
            }),
    {
        match self {
            ShoutKind::Alert => "Contact!",
            ShoutKind::Retreat => "Fall back!",
            ShoutKind::Help => "I'm hit!",
            ShoutKind::Covering => "Covering!",
            ShoutKind::Clear => "Clear!",
        }
    }
}

/// Kind of flock force between two colonists, for the debug overlay.
#[derive(Clone, Copy, Debug)]
pub enum FlockForce {
    Separation,
    Cohesion,
    Group,
}

/// The part of a colonist that group membership and flocking read.
#[derive(Clone, Copy, Debug)]
pub struct Pleb {
    pub group_id: Option<u8>,
    pub is_enemy: bool,
    pub drafted: bool,
    pub is_dead: bool,
}

/// Two colonists are in the same flock: same faction, and either the same explicit
/// group, or both without a group and both drafted.
pub open spec fn spec_in_same_flock(a: Pleb, b: Pleb) -> bool {
    if a.is_enemy != b.is_enemy {
        false
    } else if a.group_id is Some && b.group_id is Some {
        a.group_id == b.group_id
    } else {
        a.group_id is None && b.group_id is None && a.drafted && b.drafted
    }
}

/// Check if two colonists are in the same flock.
pub fn in_same_flock(a: &Pleb, b: &Pleb) -> (r: bool)
    ensures
        r == spec_in_same_flock(*a, *b),
{
    if a.is_enemy != b.is_enemy {
        return false;
    }
    match (a.group_id, b.group_id) {
        (Some(ga), Some(gb)) => ga == gb,
        _ => a.group_id.is_none() && b.group_id.is_none() && a.drafted && b.drafted,
    }
}

/// Flocking is symmetric: `a` flocks with `b` exactly when `b` flocks with `a`.
pub proof fn lemma_flock_symmetric(a: Pleb, b: Pleb)
    ensures
        spec_in_same_flock(a, b) == spec_in_same_flock(b, a),
{
}

/// Colonists of different factions never flock together.
pub proof fn lemma_flock_same_faction(a: Pleb, b: Pleb)
    requires
        a.is_enemy != b.is_enemy,
    ensures
        !spec_in_same_flock(a, b),
{
}

/// A colonist in an explicit group never flocks with one that has no group, drafted or
/// not.
pub proof fn lemma_grouped_never_flocks_with_ungrouped(a: Pleb, b: Pleb)
    requires
        (a.group_id is Some) != (b.group_id is Some),
    ensures
        !spec_in_same_flock(a, b),
{
}

/// Two colonists of one faction that both have explicit groups flock together exactly
/// when their groups are the same, whether or not they are drafted.
pub proof fn lemma_grouped_flock_by_group(a: Pleb, b: Pleb)
    requires
        a.is_enemy == b.is_enemy,
        a.group_id is Some,
        b.group_id is Some,
    ensures
        spec_in_same_flock(a, b) <==> a.group_id->0 == b.group_id->0,
{
}

/// Two colonists of one faction without explicit groups flock together exactly when
/// both are drafted.
pub proof fn lemma_ungrouped_flock_when_drafted(a: Pleb, b: Pleb)
    requires
        a.is_enemy == b.is_enemy,
        a.group_id is None,
        b.group_id is None,
    ensures
        spec_in_same_flock(a, b) <==> (a.drafted && b.drafted),
{
}

/// Assign a colonist to a group; `None` removes it from its group.
pub fn set_group(pleb: &mut Pleb, group_id: Option<u8>)
    ensures
        *final(pleb) == (Pleb { group_id, ..*old(pleb) }),
{
    pleb.group_id = group_id;
}

/// Remove a colonist from its group.
pub fn leave_group(pleb: &mut Pleb)
    ensures
        *final(pleb) == (Pleb { group_id: None, ..*old(pleb) }),
{
    pleb.group_id = None;
}

/// Some colonist belongs to group g.
pub open spec fn group_used(plebs: Seq<Pleb>, g: int) -> bool {
    exists|k: int| 0 <= k < plebs.len() && #[trigger] plebs[k].group_id == Some(g as u8)
}

/// The smallest group id from 1 to 255 that no colonist uses, or 1 when all are used.
pub open spec fn spec_next_group_id(plebs: Seq<Pleb>, r: u8) -> bool {
    1 <= r && ((!group_used(plebs, r as int) && forall|g: int|
        1 <= g < r ==> #[trigger] group_used(plebs, g)) || (r == 1 && forall|g: int|
        1 <= g < 256 ==> #[trigger] group_used(plebs, g)))
}

/// Find the next unused group id across all colonists (ids start at 1).
pub fn next_group_id(plebs: &[Pleb]) -> (r: u8)
    ensures
        spec_next_group_id(plebs@, r),
{
    let mut used = [false;256];
    let mut k: usize = 0;
    while k < plebs.len()
        invariant
            k <= plebs@.len(),
            forall|g: int|
                0 <= g < 256 ==> (#[trigger] used[g] <==> exists|k2: int|
                    0 <= k2 < k && #[trigger] plebs@[k2].group_id == Some(g as u8)),
        decreases plebs@.len() - k,
    {
        if let Some(gid) = plebs[k].group_id {
            used[gid as usize] = true;
            assert(plebs@[k as int].group_id == Some(gid));
        }
        k = k + 1;
    }
    assert forall|g: int| 0 <= g < 256 implies (#[trigger] used[g] <==> group_used(plebs@, g)) by {
        if used[g] {
            let k2 = choose|k2: int| 0 <= k2 < plebs@.len() && #[trigger] plebs@[k2].group_id == Some(g as u8);
            assert(group_used(plebs@, g));
        }
        if group_used(plebs@, g) {
            let k2 = choose|k2: int| 0 <= k2 < plebs@.len() && #[trigger] plebs@[k2].group_id == Some(g as u8);
            assert(plebs@[k2].group_id == Some(g as u8));
        }
    }
    let mut i: usize = 1;
    while i < 256
        invariant
            1 <= i <= 256,
            forall|g: int| 0 <= g < 256 ==> (#[trigger] used[g] <==> group_used(plebs@, g)),
            forall|g: int| 1 <= g < i ==> #[trigger] group_used(plebs@, g),
        decreases 256 - i,
    {
        if !used[i] {
            return i as u8;
        }
        i = i + 1;
    }
    1
}

/// Assign every colonist listed in `indices` (ignoring indices past the end) to a new
/// group and return its id, the next unused id.
pub fn form_group(plebs: &mut [Pleb], indices: &[usize]) -> (gid: u8)
    ensures
        spec_next_group_id(old(plebs)@, gid),
        final(plebs)@.len() == old(plebs)@.len(),
        forall|k: int|
            0 <= k < old(plebs)@.len() ==> #[trigger] final(plebs)@[k] == (if indices@.contains(
                k as usize,
            ) {
                Pleb { group_id: Some(gid), ..old(plebs)@[k] }
            } else {
                old(plebs)@[k]
            }),
{
    let gid = next_group_id(plebs);
    let ghost orig = plebs@;
    let mut n: usize = 0;
    while n < indices.len()
        invariant
            n <= indices@.len(),
            plebs@.len() == orig.len(),
            forall|k: int|
                0 <= k < orig.len() ==> #[trigger] plebs@[k] == (if indices@.subrange(
                    0,
                    n as int,
                ).contains(k as usize) {
                    Pleb { group_id: Some(gid), ..orig[k] }
                } else {
                    orig[k]
                }),
        decreases indices@.len() - n,
    {
        let i = indices[n];
        if i < plebs.len() {
            let mut p = plebs[i];
            p.group_id = Some(gid);
            plebs[i] = p;
        }
        assert forall|k: int| 0 <= k < orig.len() implies #[trigger] plebs@[k] == (if indices@.subrange(
            0,
            n + 1,
        ).contains(k as usize) {
            Pleb { group_id: Some(gid), ..orig[k] }
        } else {
            orig[k]
        }) by {
            assert(indices@.subrange(0, n + 1) == indices@.subrange(0, n as int).push(i));
            if indices@.subrange(0, n as int).contains(k as usize) {
                let w = choose|w: int| 0 <= w < n && indices@.subrange(0, n as int)[w] == k as usize;
                assert(indices@.subrange(0, n + 1)[w] == k as usize);
            }
            if k == i as int {
                assert(indices@.subrange(0, n + 1)[n as int] == i);
            }
        }
        n = n + 1;
    }
    assert(indices@.subrange(0, indices@.len() as int) == indices@);
    gid
}

/// Dissolve a group: every colonist in it becomes ungrouped, the others are unchanged.
pub fn dissolve_group(plebs: &mut [Pleb], group_id: u8)
    ensures
        final(plebs)@.len() == old(plebs)@.len(),
        forall|k: int|
            0 <= k < old(plebs)@.len() ==> #[trigger] final(plebs)@[k] == (if old(plebs)@[k].group_id
                == Some(group_id) {
                Pleb { group_id: None, ..old(plebs)@[k] }
            } else {
                old(plebs)@[k]
            }),
{
    let ghost orig = plebs@;
    let mut k: usize = 0;
    while k < plebs.len()
        invariant
            k <= plebs@.len(),
            plebs@.len() == orig.len(),
            forall|j: int|
                0 <= j < orig.len() ==> #[trigger] plebs@[j] == (if j < k && orig[j].group_id
                    == Some(group_id) {
                    Pleb { group_id: None, ..orig[j] }
                } else {
                    orig[j]
                }),
        decreases plebs@.len() - k,
    {
        if plebs[k].group_id == Some(group_id) {
            let mut p = plebs[k];
            p.group_id = None;
            plebs[k] = p;
        }
        k = k + 1;
    }
}

/// After a group is dissolved nobody belongs to it, and a new group formed right
/// after may reuse its id.
pub proof fn lemma_dissolved_group_unused(before: Seq<Pleb>, after: Seq<Pleb>, group_id: u8)
    requires
        after.len() == before.len(),
        forall|k: int|
            0 <= k < before.len() ==> #[trigger] after[k] == (if before[k].group_id == Some(group_id) {
                Pleb { group_id: None, ..before[k] }
            } else {
                before[k]
            }),
    ensures
        !group_used(after, group_id as int),
{
    if group_used(after, group_id as int) {
        let k = choose|k: int| 0 <= k < after.len() && #[trigger] after[k].group_id == Some(group_id);
        assert(after[k] == before[k] || after[k].group_id is None);
    }
}

} // verus!
