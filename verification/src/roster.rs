//! The loaded presets plus the active index: the GPU-free part of preset
//! selection. Presets are addressed by absolute index; an out-of-range
//! selection is a no-op, never a panic or a wrap.
use vstd::prelude::*;

use crate::schema::SystemKind;
use crate::text::str_eq;

verus! {

/// A preset's system to its slot in the scene registry (the registry holds
/// only preset-addressed systems, in this order).
pub open spec fn spec_system_slot(system: SystemKind) -> usize {
    match system {
        SystemKind::FragmentField => 0,
        SystemKind::Swarm => 1,
        SystemKind::ParametricCurve => 2,
        SystemKind::LSystem => 3,
        SystemKind::StarPattern => 4,
        SystemKind::ReactionDiffusion => 5,
        SystemKind::Attractor => 6,
    }
}

/// A preset's system to its slot in the scene registry.
pub fn system_slot(system: SystemKind) -> (slot: usize)
    ensures
        slot == spec_system_slot(system),
        slot < 7,
{
    match system {
        SystemKind::FragmentField => 0,
        SystemKind::Swarm => 1,
        SystemKind::ParametricCurve => 2,
        SystemKind::LSystem => 3,
        SystemKind::StarPattern => 4,
        SystemKind::ReactionDiffusion => 5,
        SystemKind::Attractor => 6,
    }
}

/// Distinct systems occupy distinct slots.
pub proof fn law_system_slots_are_distinct(a: SystemKind, b: SystemKind)
    ensures
        a != b ==> spec_system_slot(a) != spec_system_slot(b),
{
}

/// The scene registry, in slot order.
pub open spec fn registry() -> Seq<SystemKind> {
    seq![
        SystemKind::FragmentField,
        SystemKind::Swarm,
        SystemKind::ParametricCurve,
        SystemKind::LSystem,
        SystemKind::StarPattern,
        SystemKind::ReactionDiffusion,
        SystemKind::Attractor,
    ]
}

/// Each system's slot is its position in the registry order fragment field,
/// swarm, parametric curve, L-system, star pattern, reaction-diffusion,
/// attractor: the scene at a system's slot is that system's scene.
pub proof fn law_slot_is_registry_position(k: SystemKind)
    ensures
        0 <= spec_system_slot(k) < registry().len(),
        registry()[spec_system_slot(k) as int] == k,
        spec_system_slot(SystemKind::LSystem) == 3,
        spec_system_slot(SystemKind::StarPattern) == 4,
{
}

/// Named presets and which one is active.
pub struct Roster<P> {
    entries: Vec<(String, P)>,
    active: usize,
}

/// The names of a list of named presets, in order.
pub open spec fn names_of<P>(entries: Seq<(String, P)>) -> Seq<Seq<char>> {
    entries.map_values(|e: (String, P)| e.0@)
}

/// The first index holding `name`, if any.
pub open spec fn first_index_of(names: Seq<Seq<char>>, name: Seq<char>) -> Option<int>
    decreases names.len(),
{
    if names.len() == 0 {
        None
    } else if names[0] == name {
        Some(0)
    } else {
        match first_index_of(names.drop_first(), name) {
            Some(i) => Some(i + 1),
            None => None,
        }
    }
}

impl<P> Roster<P> {
    /// The representation invariant: the active index addresses an entry
    /// whenever there is one, and is 0 otherwise.
    pub closed spec fn wf(&self) -> bool {
        &&& self.entries@.len() == 0 ==> self.active == 0
        &&& self.entries@.len() > 0 ==> self.active < self.entries@.len()
    }

    /// The named presets, in roster order.
    pub closed spec fn entries(&self) -> Seq<(String, P)> {
        self.entries@
    }

    /// The active index.
    pub closed spec fn spec_active(&self) -> usize {
        self.active
    }

    /// A roster over `entries`, the first one active.
    pub fn new(entries: Vec<(String, P)>) -> (r: Self)
        ensures
            r.wf(),
            r.entries() == entries@,
            r.spec_active() == 0,
    {
        Roster { entries, active: 0 }
    }

    /// Replace the roster, resetting the active index to the start if it now
    /// points past the end. An empty set is ignored, so a preset directory
    /// that briefly reads empty leaves the last good roster in place.
    pub fn set_presets(&mut self, entries: Vec<(String, P)>)
        requires
            old(self).wf(),
        ensures
            final(self).wf(),
            entries@.len() == 0 ==> final(self).entries() == old(self).entries()
                && final(self).spec_active() == old(self).spec_active(),
            entries@.len() > 0 ==> final(self).entries() == entries@ && final(self).spec_active()
                == if old(self).spec_active() < entries@.len() {
                old(self).spec_active()
            } else {
                0
            },
    {
        if entries.len() == 0 {
            return;
        }
        self.entries = entries;
        if self.active >= self.entries.len() {
            self.active = 0;
        }
    }

    /// Advance to the next preset, wrapping; a no-op on an empty roster.
    pub fn cycle(&mut self)
        requires
            old(self).wf(),
        ensures
            final(self).wf(),
            final(self).entries() == old(self).entries(),
            old(self).entries().len() > 0 ==> final(self).spec_active() == (old(self).spec_active()
                + 1) % (old(self).entries().len() as int),
            old(self).entries().len() == 0 ==> final(self).spec_active() == old(
                self,
            ).spec_active(),
    {
        if self.entries.len() > 0 {
            self.active = (self.active + 1) % self.entries.len();
        }
    }

    /// Make the preset at `index` active iff `index` is in range; an
    /// out-of-range index changes nothing.
    pub fn select(&mut self, index: usize)
        requires
            old(self).wf(),
        ensures
            final(self).wf(),
            final(self).entries() == old(self).entries(),
            final(self).spec_active() == if index < old(self).entries().len() {
                index
            } else {
                old(self).spec_active()
            },
    {
        if index < self.entries.len() {
            self.active = index;
        }
    }

    /// The active preset, or `None` on an empty roster.
    pub fn active_preset(&self) -> (r: Option<&P>)
        requires
            self.wf(),
        ensures
            self.entries().len() == 0 <==> r is None,
            r matches Some(p) ==> *p == self.entries()[self.spec_active() as int].1,
    {
        if self.active < self.entries.len() {
            Some(&self.entries[self.active].1)
        } else {
            None
        }
    }

    /// The active preset's name, or `"no presets"` on an empty roster.
    pub fn name(&self) -> (s: &str)
        requires
            self.wf(),
        ensures
            self.entries().len() > 0 ==> s@ == self.entries()[self.spec_active() as int].0@,
            self.entries().len() == 0 ==> s@ == "no presets"@,
    {
        if self.active < self.entries.len() {
            self.entries[self.active].0.as_str()
        } else {
            "no presets"
        }
    }

    /// The loaded preset names in roster order.
    pub fn names(&self) -> (out: Vec<String>)
        ensures
            out@.map_values(|s: String| s@) == names_of(self.entries()),
    {
        let mut out: Vec<String> = Vec::new();
        let mut i: usize = 0;
        while i < self.entries.len()
            invariant
                i <= self.entries@.len(),
                out@.len() == i,
                out@.map_values(|s: String| s@) == names_of(self.entries@).take(i as int),
            decreases self.entries.len() - i,
        {
            let n = self.entries[i].0.clone();
            assert(n@ == self.entries@[i as int].0@);
            out.push(n);
            assert(out@.map_values(|s: String| s@)[i as int] == n@);
            assert(out@.map_values(|s: String| s@) =~= names_of(self.entries@).take(i + 1));
            i = i + 1;
        }
        assert(names_of(self.entries@).take(i as int) =~= names_of(self.entries@));
        out
    }

    /// The index of the first preset called `name`, if any.
    pub fn position(&self, name: &str) -> (r: Option<usize>)
        ensures
            match first_index_of(names_of(self.entries()), name@) {
                Some(i) => r == Some(i as usize),
                None => r is None,
            },
    {
        let ghost names = names_of(self.entries@);
        let mut i: usize = 0;
        assert(names.skip(0) =~= names);
        while i < self.entries.len()
            invariant
                i <= self.entries@.len(),
                names == names_of(self.entries@),
                first_index_of(names, name@) == match first_index_of(names.skip(i as int), name@) {
                    Some(k) => Some(k + i),
                    None => None,
                },
            decreases self.entries.len() - i,
        {
            let ghost rest = names.skip(i as int);
            assert(rest.drop_first() =~= names.skip(i + 1));
            assert(rest[0] == self.entries@[i as int].0@);
            if str_eq(self.entries[i].0.as_str(), name) {
                return Some(i);
            }
            i = i + 1;
        }
        assert(names.skip(i as int).len() == 0);
        None
    }

    /// Make the first preset called `name` active, returning whether it was
    /// found; an unknown name leaves the active preset unchanged.
    pub fn select_by_name(&mut self, name: &str) -> (found: bool)
        requires
            old(self).wf(),
        ensures
            final(self).wf(),
            final(self).entries() == old(self).entries(),
            match first_index_of(names_of(old(self).entries()), name@) {
                Some(i) => found && final(self).spec_active() == i,
                None => !found && final(self).spec_active() == old(self).spec_active(),
            },
    {
        match self.position(name) {
            Some(index) => {
                proof {
                    lemma_first_index_in_range(names_of(self.entries@), name@);
                    let i = first_index_of(names_of(self.entries@), name@)->Some_0;
                    assert(0 <= i < self.entries.len());
                    assert(index as int == i);
                }
                self.select(index);
                true
            },
            None => false,
        }
    }
}

/// A found index addresses an entry.
proof fn lemma_first_index_in_range(names: Seq<Seq<char>>, name: Seq<char>)
    ensures
        first_index_of(names, name) matches Some(i) ==> 0 <= i < names.len() && names[i] == name,
    decreases names.len(),
{
    if names.len() > 0 && names[0] != name {
        lemma_first_index_in_range(names.drop_first(), name);
    }
}

/// Selecting then reading the name back: whatever roster `before` is, the
/// roster `select(index)` leaves is well formed; after an in-range index its
/// active name is that entry's name, and after an out-of-range index the
/// active entry is unchanged.
pub proof fn law_select_then_name<P>(before: Roster<P>, after: Roster<P>, index: usize)
    requires
        before.wf(),
        after.entries() == before.entries(),
        after.spec_active() == if index < before.entries().len() {
            index
        } else {
            before.spec_active()
        },
    ensures
        after.wf(),
        index < before.entries().len() ==> after.entries()[after.spec_active() as int].0@
            == before.entries()[index as int].0@ && names_of(after.entries())[index as int]
            == before.entries()[index as int].0@,
        index >= before.entries().len() ==> after.spec_active() == before.spec_active(),
{
}

/// The active index after `k` cycles from `active` over `len` presets.
pub open spec fn cycled(active: int, len: int, k: nat) -> int
    decreases k,
{
    if k == 0 {
        active
    } else {
        (cycled(active, len, (k - 1) as nat) + 1) % len
    }
}

/// Cycling wraps: the roster `cycle` leaves is well formed, its active index
/// is one cycle on from `before`'s, and `len` cycles over `len > 0` presets
/// return to the starting preset.
pub proof fn law_cycle_wraps<P>(before: Roster<P>, after: Roster<P>)
    requires
        before.wf(),
        after.entries() == before.entries(),
        before.entries().len() > 0 ==> after.spec_active() == (before.spec_active() + 1) % (
        before.entries().len() as int),
        before.entries().len() == 0 ==> after.spec_active() == before.spec_active(),
    ensures
        after.wf(),
        before.entries().len() > 0 ==> after.spec_active() == cycled(
            before.spec_active() as int,
            before.entries().len() as int,
            1,
        ),
        before.entries().len() > 0 ==> cycled(
            before.spec_active() as int,
            before.entries().len() as int,
            before.entries().len(),
        ) == before.spec_active(),
{
    if before.entries().len() > 0 {
        let a = before.spec_active() as int;
        let len = before.entries().len() as int;
        lemma_cycled(a, len, 1);
        lemma_cycled(a, len, before.entries().len());
        vstd::arithmetic::div_mod::lemma_mod_add_multiples_vanish(a, len);
        vstd::arithmetic::div_mod::lemma_small_mod(a as nat, len as nat);
    }
}

/// `k` cycles land on `(active + k) % len`.
proof fn lemma_cycled(active: int, len: int, k: nat)
    requires
        0 <= active < len,
    ensures
        cycled(active, len, k) == (active + k) % len,
    decreases k,
{
    if k > 0 {
        lemma_cycled(active, len, (k - 1) as nat);
        let prev = active + k - 1;
        vstd::arithmetic::div_mod::lemma_add_mod_noop_right(1, prev, len);
        assert(((prev % len) + 1) % len == (prev + 1) % len);
    } else {
        vstd::arithmetic::div_mod::lemma_small_mod(active as nat, len as nat);
    }
}

} // verus!
