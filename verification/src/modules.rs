//! The module registry: a memoizing map from module specifier to compiled
//! module handle.
//!
//! The engine resolves an `import` by calling the host's resolution hook with
//! a specifier — here, a file path. Resolution splits into two verified steps
//! around the host's outside work: [`ModuleRegistry::resolve`] decides from
//! the cache whether anything must be loaded at all, and, after the host has
//! read and compiled the file, [`ModuleRegistry::register`] records the
//! handle. A specifier is compiled at most once per registry; a failed read
//! records nothing, so a specifier that starts missing and later appears is
//! simply resolved again. The hook has no error channel, so a miss surfaces
//! to the engine as a null handle, never as a structured error.

use vstd::prelude::*;

verus! {

use crate::microtasks::Handle;

/// What a resolution request must do next.
#[derive(Clone, Copy, PartialEq, Eq, Structural, Debug)]
pub enum ResolveAction {
    /// The specifier is cached: hand this handle back, with no read and no
    /// compile.
    Cached(Handle),
    /// The specifier is not cached: read the file it names, compile the
    /// source, and record the handle with [`ModuleRegistry::register`]. When
    /// the read fails, record nothing and hand the engine a null handle.
    Load,
}

/// The mathematical content of a registry: its recorded entries as a map.
pub open spec fn registry_map(entries: Seq<(String, Handle)>) -> Map<Seq<char>, Handle>
    decreases entries.len(),
{
    if entries.len() == 0 {
        Map::empty()
    } else {
        registry_map(entries.drop_last()).insert(entries.last().0@, entries.last().1)
    }
}

/// The cached handle for a specifier, if any.
pub open spec fn cached_handle(m: Map<Seq<char>, Handle>, specifier: Seq<char>) -> Option<Handle> {
    if m.contains_key(specifier) {
        Some(m[specifier])
    } else {
        None
    }
}

/// The map from module specifier to compiled-module handle, owned by one
/// script environment for its whole life. Entries are never replaced and
/// never evicted: scripts are taken to be immutable for the process's
/// duration.
pub struct ModuleRegistry {
    entries: Vec<(String, Handle)>,
}

impl ModuleRegistry {
    /// The recorded modules.
    pub closed spec fn modules(&self) -> Map<Seq<char>, Handle> {
        registry_map(self.entries@)
    }

    pub fn new() -> (r: ModuleRegistry)
        ensures
            r.modules() == Map::<Seq<char>, Handle>::empty(),
    {
        ModuleRegistry { entries: Vec::new() }
    }

    /// The registry-check step of resolution: a cached specifier resolves to
    /// its recorded handle, and only an uncached one asks the host to load
    /// and compile.
    pub fn resolve(&self, specifier: &String) -> (r: ResolveAction)
        ensures
            r == match cached_handle(self.modules(), specifier@) {
                Some(h) => ResolveAction::Cached(h),
                None => ResolveAction::Load,
            },
    {
        let mut i = self.entries.len();
        while i > 0
            invariant
                i <= self.entries@.len(),
                forall|j: int| i <= j < self.entries@.len() ==> self.entries@[j].0@ != specifier@,
            decreases i,
        {
            i = i - 1;
            if self.entries[i].0 == *specifier {
                proof {
                    lemma_registry_map_match(self.entries@, i as int, specifier@);
                }
                return ResolveAction::Cached(self.entries[i].1);
            }
        }
        proof {
            lemma_registry_map_domain(self.entries@, specifier@);
        }
        ResolveAction::Load
    }

    /// The record step of resolution, called once the host has compiled the
    /// module the specifier names. Recording is idempotent per specifier: a
    /// specifier already present keeps the handle recorded first — nothing is
    /// recompiled or replaced — and the handle now on record is returned.
    pub fn register(&mut self, specifier: &String, handle: Handle) -> (r: Handle)
        ensures
            final(self).modules() == match cached_handle(old(self).modules(), specifier@) {
                Some(_) => old(self).modules(),
                None => old(self).modules().insert(specifier@, handle),
            },
            r == match cached_handle(old(self).modules(), specifier@) {
                Some(h) => h,
                None => handle,
            },
    {
        let mut i = self.entries.len();
        while i > 0
            invariant
                i <= self.entries@.len(),
                self.entries@ == old(self).entries@,
                forall|j: int| i <= j < self.entries@.len() ==> self.entries@[j].0@ != specifier@,
            decreases i,
        {
            i = i - 1;
            if self.entries[i].0 == *specifier {
                proof {
                    lemma_registry_map_match(self.entries@, i as int, specifier@);
                }
                return self.entries[i].1;
            }
        }
        proof {
            lemma_registry_map_domain(self.entries@, specifier@);
        }
        let ghost before = self.entries@;
        self.entries.push((specifier.clone(), handle));
        proof {
            assert(self.entries@.drop_last() =~= before);
        }
        handle
    }
}

/// Memoization. Once a specifier is recorded — which `register` does the one
/// time its load completes — resolving it again is a cache hit that returns
/// the recorded handle, so no second read or compile is ever asked for; and
/// recording one specifier leaves every other specifier's resolution as it
/// was. Together with `register` keeping the first handle, a specifier is
/// compiled at most once per registry.
pub proof fn lemma_memoization(m: Map<Seq<char>, Handle>, s: Seq<char>, h: Handle, t: Seq<char>)
    ensures
        cached_handle(m.insert(s, h), s) == Some(h),
        t != s ==> cached_handle(m.insert(s, h), t) == cached_handle(m, t),
{
}

/// An entry whose specifier no later entry repeats is in the map, under its
/// own handle.
proof fn lemma_registry_map_match(entries: Seq<(String, Handle)>, i: int, k: Seq<char>)
    requires
        0 <= i < entries.len(),
        entries[i].0@ == k,
        forall|j: int| i < j < entries.len() ==> entries[j].0@ != k,
    ensures
        registry_map(entries).contains_key(k),
        registry_map(entries)[k] == entries[i].1,
    decreases entries.len(),
{
    if i < entries.len() - 1 {
        lemma_registry_map_match(entries.drop_last(), i, k);
    }
}

/// The map's domain is exactly the specifiers of the recorded entries.
proof fn lemma_registry_map_domain(entries: Seq<(String, Handle)>, k: Seq<char>)
    ensures
        registry_map(entries).contains_key(k) <==> exists|i: int|
            0 <= i < entries.len() && entries[i].0@ == k,
    decreases entries.len(),
{
    if entries.len() > 0 {
        lemma_registry_map_domain(entries.drop_last(), k);
        if registry_map(entries).contains_key(k) {
            if entries.last().0@ == k {
                assert(entries[entries.len() - 1].0@ == k);
            } else {
                let i = choose|i: int|
                    0 <= i < entries.drop_last().len() && entries.drop_last()[i].0@ == k;
                assert(entries[i].0@ == k);
            }
        } else {
            assert(forall|i: int| 0 <= i < entries.len() ==> entries[i].0@ != k) by {
                assert(forall|i: int|
                    0 <= i < entries.len() - 1 ==> entries[i].0@ == entries.drop_last()[i].0@);
            }
        }
    }
}

} // verus!
