//! Systems: the behaviour that runs once per frame, and the registry that
//! keeps one system per key.

use crate::sequence::{
    first_index, lemma_first_index, lemma_first_index_is, lemma_first_index_push_absent,
    lemma_first_index_push_present,
};
use vstd::prelude::*;

verus! {

/// Something that is run once per frame.
pub trait System {
    /// Runs the system for a frame that took `frame_time` milliseconds.
    fn update(&mut self, frame_time: u32);
}

/// The registered systems, each with its key, in the order in which
/// their keys were first registered.
pub type SystemMap<S> = Vec<(u64, S)>;

/// A registry that keeps at most one system per key.
pub struct SystemsRegistry<S> {
    systems: SystemMap<S>,
}

/// The keys of a list of registered systems.
pub open spec fn keys_of<S>(systems: Seq<(u64, S)>) -> Seq<u64> {
    Seq::new(systems.len(), |i: int| systems[i].0)
}

/// Whether no key occurs twice.
pub open spec fn distinct_keys<S>(systems: Seq<(u64, S)>) -> bool {
    forall|i: int|
        0 <= i < systems.len() ==> first_index(keys_of(systems), #[trigger] systems[i].0) == i
}

/// What a list of registered systems maps each key to.
pub open spec fn map_of<S>(systems: Seq<(u64, S)>) -> Map<u64, S> {
    Map::new(
        |id: u64| first_index(keys_of(systems), id) < systems.len(),
        |id: u64| systems[first_index(keys_of(systems), id)].1,
    )
}

/// A list that holds `system` at the first place of `id`, and is
/// otherwise what `before` was with `id` appended if it was new, maps like
/// `before` with `id` set to `system`.
proof fn lemma_map_of_insert<S>(before: Seq<(u64, S)>, after: Seq<(u64, S)>, id: u64, system: S)
    requires
        0 <= first_index(keys_of(before), id) < before.len() ==> after == before.update(
            first_index(keys_of(before), id),
            (id, system),
        ),
        first_index(keys_of(before), id) >= before.len() ==> after == before.push((id, system)),
    ensures
        map_of(after) == map_of(before).insert(id, system),
{
    let old_keys = keys_of(before);
    let new_keys = keys_of(after);
    let n = first_index(old_keys, id);
    lemma_first_index(old_keys, id);
    if n < before.len() {
        assert(new_keys =~= old_keys);
    } else {
        assert(new_keys =~= old_keys.push(id));
    }
    assert forall|other: u64|
        #![trigger first_index(new_keys, other)]
        first_index(new_keys, other) == (if other == id {
            n
        } else if first_index(old_keys, other) < before.len() {
            first_index(old_keys, other)
        } else {
            after.len() as int
        }) by {
        lemma_first_index(old_keys, other);
        if n >= before.len() {
            if first_index(old_keys, other) < before.len() {
                lemma_first_index_push_present(old_keys, id, other);
            } else {
                lemma_first_index_push_absent(old_keys, id, other);
            }
        }
    }
    assert(map_of(after) =~= map_of(before).insert(id, system)) by {
        assert forall|other: u64| map_of(after).contains_key(other) <==> map_of(before).insert(
            id,
            system,
        ).contains_key(other) by {
            let _ = first_index(new_keys, other);
        }
        assert forall|other: u64| map_of(after).contains_key(other) implies map_of(after)[other]
            == map_of(before).insert(id, system)[other] by {
            let m = first_index(new_keys, other);
            lemma_first_index(old_keys, other);
            if other == id {
                assert(after[n] == (id, system));
            } else {
                assert(old_keys[m] == other);
                assert(after[m] == before[m]);
            }
        }
    }
}

impl<S> View for SystemsRegistry<S> {
    type V = Map<u64, S>;

    closed spec fn view(&self) -> Map<u64, S> {
        map_of(self.systems@)
    }
}

impl<S> SystemsRegistry<S> {
    /// Whether no key is registered twice. This holds of every registry
    /// unless the list handed out by [`Self::get_systems_mut`] was changed
    /// so that it does not; of two entries with one key the earlier one
    /// counts.
    pub closed spec fn wf(&self) -> bool {
        distinct_keys(self.systems@)
    }

    /// The registered systems as a list.
    pub closed spec fn entries(&self) -> Seq<(u64, S)> {
        self.systems@
    }

    /// The view is the map of the entries.
    pub proof fn lemma_view(&self)
        ensures
            self@ == map_of(self.entries()),
            self.wf() == distinct_keys(self.entries()),
    {
    }

    /// A registry without systems.
    pub fn new() -> (registry: Self)
        ensures
            registry@ == Map::<u64, S>::empty(),
            registry.wf(),
    {
        let registry = Self { systems: Vec::new() };
        proof {
            assert(registry@ =~= Map::<u64, S>::empty());
        }
        registry
    }

    /// Where the system with key `id` is kept, if there is one.
    fn find(&self, id: u64) -> (r: Option<usize>)
        ensures
            match r {
                Some(i) => i < self.systems@.len() && i == first_index(keys_of(self.systems@), id),
                None => first_index(keys_of(self.systems@), id) == self.systems@.len(),
            },
    {
        let ghost keys = keys_of(self.systems@);
        let mut i: usize = 0;
        while i < self.systems.len()
            invariant
                i <= self.systems@.len(),
                keys == keys_of(self.systems@),
                forall|k: int| 0 <= k < i ==> keys[k] != id,
            decreases self.systems@.len() - i,
        {
            if self.systems[i].0 == id {
                proof {
                    lemma_first_index_is(keys, id, i as int);
                }
                return Some(i);
            }
            i += 1;
        }
        proof {
            lemma_first_index_is(keys, id, i as int);
        }
        None
    }

    /// Registers `system` under `id`, in place of the system that was
    /// registered under `id` before, if there was one.
    pub fn register_system(&mut self, id: u64, system: S)
        ensures
            final(self)@ == old(self)@.insert(id, system),
            old(self).wf() ==> final(self).wf(),
    {
        let ghost before = self.systems@;
        match self.find(id) {
            Some(i) => {
                self.systems[i] = (id, system);
                proof {
                    let after = self.systems@;
                    lemma_first_index(keys_of(before), id);
                    assert(keys_of(before)[i as int] == id);
                    assert(keys_of(after) =~= keys_of(before));
                    if distinct_keys(before) {
                        assert forall|k: int| 0 <= k < after.len() implies first_index(
                            keys_of(after),
                            #[trigger] after[k].0,
                        ) == k by {
                            assert(keys_of(after)[k] == keys_of(before)[k]);
                            assert(after[k].0 == before[k].0);
                        }
                    }
                    lemma_map_of_insert(before, after, id, system);
                }
            },
            None => {
                self.systems.push((id, system));
                proof {
                    let after = self.systems@;
                    assert(keys_of(after) =~= keys_of(before).push(id));
                    if distinct_keys(before) {
                        assert forall|k: int| 0 <= k < after.len() implies first_index(
                            keys_of(after),
                            #[trigger] after[k].0,
                        ) == k by {
                            if k < before.len() {
                                assert(after[k].0 == before[k].0);
                                lemma_first_index_push_present(keys_of(before), id, before[k].0);
                            } else {
                                lemma_first_index_push_absent(keys_of(before), id, id);
                            }
                        }
                    }
                    lemma_map_of_insert(before, after, id, system);
                }
            },
        }
    }

    /// The system registered under `id`, if there is one.
    pub fn get_system(&self, id: u64) -> (r: Option<&S>)
        ensures
            match r {
                Some(system) => self@.contains_key(id) && *system == self@[id],
                None => !self@.contains_key(id),
            },
    {
        match self.find(id) {
            Some(i) => Some(&self.systems[i].1),
            None => None,
        }
    }

    /// The system registered under `id`, if there is one, to be changed in
    /// place: whatever it is changed to stays registered under `id`.
    pub fn get_system_mut(&mut self, id: u64) -> (r: Option<&mut S>)
        ensures
            old(self).wf() ==> final(self).wf(),
            match r {
                Some(system) => old(self)@.contains_key(id) && *system == old(self)@[id]
                    && final(self)@ == old(self)@.insert(id, *final(system)),
                None => !old(self)@.contains_key(id) && final(self)@ == old(self)@,
            },
    {
        let ghost before = self.systems@;
        let ghost after = final(self).systems@;
        match self.find(id) {
            Some(i) => {
                let system = &mut self.systems[i].1;
                proof {
                    lemma_first_index(keys_of(before), id);
                    assert(keys_of(before)[i as int] == id);
                    assert(after =~= before.update(i as int, (id, *final(system))));
                    assert(keys_of(after) =~= keys_of(before));
                    if distinct_keys(before) {
                        assert forall|k: int| 0 <= k < after.len() implies first_index(
                            keys_of(after),
                            #[trigger] after[k].0,
                        ) == k by {
                            assert(keys_of(after)[k] == keys_of(before)[k]);
                            assert(after[k].0 == before[k].0);
                        }
                    }
                    lemma_map_of_insert(before, after, id, *final(system));
                }
                Some(system)
            },
            None => None,
        }
    }

    /// All registered systems, to be changed in place. Whoever changes the
    /// list answers for keeping its keys distinct.
    pub fn get_systems_mut(&mut self) -> (systems: &mut SystemMap<S>)
        ensures
            systems@ == old(self).entries(),
            final(self).entries() == final(systems)@,
    {
        &mut self.systems
    }
}

} // verus!
