//! Deterministic random number generation.
//!
//! Streams are derived from a master seed by pure integer mixing, so the
//! same seed and the same requests give the same streams on every run and
//! on every machine.  The per-system streams themselves are ChaCha
//! generators from an outside crate, reached through trusted wrappers.

use crate::ecs::{entries_to_map, key_seq};
use rand_chacha::ChaCha8Rng;
use vstd::prelude::*;
use vstd::wrapping::u64_specs;

verus! {

/// Identifies the system a random stream belongs to.
pub type SystemId = u32;

/// The ChaCha generator of the rand_chacha crate, opaque to the library.
#[verifier::external_type_specification]
#[verifier::external_body]
pub struct ExChaCha8Rng(ChaCha8Rng);

/// The generator state that seeding ChaCha with a 64-bit seed produces.
/// rand documents `SeedableRng::seed_from_u64` as a function of the seed
/// alone, and counts changing it as a value-breaking change.
pub uninterp spec fn chacha8_of_seed(seed: u64) -> ChaCha8Rng;

/// Relies on rand's `SeedableRng::seed_from_u64` for `ChaCha8Rng`: the
/// generator produced depends on the seed alone.
#[verifier::external_body]
fn chacha_from_seed(seed: u64) -> (r: ChaCha8Rng)
    ensures
        r == chacha8_of_seed(seed),
{
    <ChaCha8Rng as rand::SeedableRng>::seed_from_u64(seed)
}

/// Multiplier of the linear-congruential step.
pub const LCG_MULTIPLIER: u64 = 6364136223846793005;

/// Increment of the linear-congruential step.
pub const LCG_INCREMENT: u64 = 1442695040888963407;

/// One linear-congruential step on a 64-bit state.
pub open spec fn spec_lcg_step(state: u64, increment: u64) -> u64 {
    u64_specs::wrapping_add(u64_specs::wrapping_mul(state, LCG_MULTIPLIER), increment)
}

/// The seed that the manager derives for a (system, entity, tick) triple:
/// the master seed mixed by alternating linear-congruential steps and
/// exclusive-or folds.
pub open spec fn spec_derive_seed(master_seed: u64, system_id: SystemId, entity_id: u64, tick: u64) -> u64 {
    let s1 = spec_lcg_step(master_seed, LCG_INCREMENT);
    let s2 = s1 ^ u64_specs::wrapping_mul(system_id as u64, 1103515245);
    let s3 = spec_lcg_step(s2, LCG_INCREMENT);
    let s4 = s3 ^ u64_specs::wrapping_mul(entity_id, 48271);
    let s5 = spec_lcg_step(s4, LCG_INCREMENT);
    s5 ^ u64_specs::wrapping_mul(tick, 69069)
}

/// A small self-contained generator: a 64-bit linear-congruential state
/// whose upper half is handed out.
#[derive(Clone, Debug)]
pub struct DeterministicRng {
    state: u64,
}

impl DeterministicRng {
    /// The current state of the generator.
    pub closed spec fn spec_state(&self) -> u64 {
        self.state
    }

    pub fn new(seed: u64) -> (r: Self)
        ensures
            r.spec_state() == seed,
    {
        Self { state: seed }
    }

    /// Advance the state one linear-congruential step and return its
    /// upper 32 bits.
    pub fn next_u32(&mut self) -> (r: u32)
        ensures
            final (self).spec_state() == spec_lcg_step(old(self).spec_state(), 1),
            r == (final (self).spec_state() >> 32) as u32,
    {
        self.state = self.state.wrapping_mul(LCG_MULTIPLIER).wrapping_add(1);
        (self.state >> 32) as u32
    }
}

/// Derives and caches one ChaCha stream per system and tick.
pub struct RngManager {
    master_seed: u64,
    current_tick: u64,
    system_rngs: Vec<(u64, ChaCha8Rng)>,
}

impl RngManager {
    pub closed spec fn spec_master_seed(&self) -> u64 {
        self.master_seed
    }

    pub closed spec fn spec_current_tick(&self) -> u64 {
        self.current_tick
    }

    /// The cached streams of the current tick, keyed by system id.
    pub closed spec fn streams(&self) -> Map<u64, ChaCha8Rng> {
        entries_to_map(self.system_rngs@)
    }

    /// Well-formedness: each system id is cached at most once.
    pub closed spec fn wf(&self) -> bool {
        key_seq(self.system_rngs@).no_duplicates()
    }

    pub fn new(seed: u64) -> (r: Self)
        ensures
            r.wf(),
            r.spec_master_seed() == seed,
            r.spec_current_tick() == 0,
            r.streams() == Map::<u64, ChaCha8Rng>::empty(),
    {
        Self { master_seed: seed, current_tick: 0, system_rngs: Vec::new() }
    }

    /// Move to the next tick; every system gets a fresh stream there.
    pub fn advance_tick(&mut self)
        requires
            old(self).spec_current_tick() < u64::MAX,
        ensures
            final (self).wf(),
            final (self).spec_master_seed() == old(self).spec_master_seed(),
            final (self).spec_current_tick() == old(self).spec_current_tick() + 1,
            final (self).streams() == Map::<u64, ChaCha8Rng>::empty(),
    {
        self.current_tick = self.current_tick + 1;
        self.system_rngs.clear();
    }

    pub fn current_tick(&self) -> (t: u64)
        ensures
            t == self.spec_current_tick(),
    {
        self.current_tick
    }

    /// The seed for a (system, entity) pair at the given tick.
    fn derive_seed(&self, system_id: SystemId, entity_id: u64, tick: u64) -> (seed: u64)
        ensures
            seed == spec_derive_seed(self.spec_master_seed(), system_id, entity_id, tick),
    {
        let mut seed = self.master_seed;
        seed = seed.wrapping_mul(LCG_MULTIPLIER).wrapping_add(LCG_INCREMENT);
        seed = seed ^ (system_id as u64).wrapping_mul(1103515245);
        seed = seed.wrapping_mul(LCG_MULTIPLIER).wrapping_add(LCG_INCREMENT);
        seed = seed ^ entity_id.wrapping_mul(48271);
        seed = seed.wrapping_mul(LCG_MULTIPLIER).wrapping_add(LCG_INCREMENT);
        seed = seed ^ tick.wrapping_mul(69069);
        seed
    }

    /// Get the cached stream of a system for the current tick, creating
    /// it from the derived seed on first request.  Later requests in the
    /// same tick continue the same stream.
    #[verifier::loop_isolation(false)]
    pub fn get_system_rng(&mut self, system_id: SystemId) -> (r: &mut ChaCha8Rng)
        requires
            old(self).wf(),
        ensures
            *r == if old(self).streams().contains_key(system_id as u64) {
                old(self).streams()[system_id as u64]
            } else {
                chacha8_of_seed(
                    spec_derive_seed(
                        old(self).spec_master_seed(),
                        system_id,
                        0,
                        old(self).spec_current_tick(),
                    ),
                )
            },
            final (self).wf(),
            final (self).streams() == old(self).streams().insert(system_id as u64, *final (r)),
            final (self).spec_master_seed() == old(self).spec_master_seed(),
            final (self).spec_current_tick() == old(self).spec_current_tick(),
    {
        let key = system_id as u64;
        let ghost prior = self.system_rngs@;
        let mut i: usize = 0;
        let mut found = false;
        while i < self.system_rngs.len() && !found
            invariant
                *self == *old(self),
                0 <= i <= self.system_rngs.len(),
                found ==> i < self.system_rngs.len() && self.system_rngs@[i as int].0 == key,
                !found ==> forall|j: int| 0 <= j < i ==> self.system_rngs@[j].0 != key,
            decreases self.system_rngs.len() - i, (if found { 0int } else { 1 }),
        {
            if self.system_rngs[i].0 == key {
                found = true;
            } else {
                i += 1;
            }
        }
        if !found {
            proof {
                assert(!key_seq(prior).contains(key)) by {
                    if key_seq(prior).contains(key) {
                        let w = choose|w: int|
                            0 <= w < key_seq(prior).len() && key_seq(prior)[w] == key;
                    }
                }
                crate::ecs::lemma_entries_to_map_dom(prior);
                crate::ecs::lemma_entries_to_map_push(prior, key, chacha8_of_seed(
                    spec_derive_seed(
                        self.spec_master_seed(),
                        system_id,
                        0,
                        self.spec_current_tick(),
                    ),
                ));
            }
            let tick = self.current_tick;
            let seed = self.derive_seed(system_id, 0, tick);
            let fresh = chacha_from_seed(seed);
            i = self.system_rngs.len();
            self.system_rngs.push((key, fresh));
            proof {
                assert(key_seq(self.system_rngs@).no_duplicates()) by {
                    assert(key_seq(self.system_rngs@) =~= key_seq(prior).push(key));
                    assert forall|p: int, q: int|
                        0 <= p < q < key_seq(self.system_rngs@).len()
                        implies key_seq(self.system_rngs@)[p] != key_seq(
                        self.system_rngs@,
                    )[q] by {
                        if q == key_seq(self.system_rngs@).len() - 1 {
                            assert(key_seq(self.system_rngs@)[p] == prior[p].0);
                        }
                    }
                }
            }
        } else {
            proof {
                crate::ecs::lemma_entries_to_map_get(prior, i as int);
                crate::ecs::lemma_entries_to_map_dom(prior);
            }
        }
        let ghost current = self.system_rngs@;
        let elem = vstd::std_specs::vec::vec_index_mut(&mut self.system_rngs, i);
        let r = stream_entry_mut(elem);
        proof {
            crate::ecs::lemma_entries_to_map_update(current, i as int, *final (r));
            assert(key_seq(current.update(i as int, (current[i as int].0, *final (r)))) =~= key_seq(
                current,
            ));
            if !old(self).streams().contains_key(key) {
                crate::ecs::lemma_entries_to_map_push(prior, key, *final (r));
                assert(current.update(i as int, (current[i as int].0, *final (r))) =~= prior.push(
                    (key, *final (r)),
                ));
            }
        }
        r
    }

    /// A free-standing deterministic generator for a (system, entity)
    /// pair at the current tick.
    pub fn create_entity_rng(&self, system_id: SystemId, entity_id: u64) -> (r: ChaCha8Rng)
        ensures
            r == chacha8_of_seed(
                spec_derive_seed(
                    self.spec_master_seed(),
                    system_id,
                    entity_id,
                    self.spec_current_tick(),
                ),
            ),
    {
        let seed = self.derive_seed(system_id, entity_id, self.current_tick);
        chacha_from_seed(seed)
    }
}

fn stream_entry_mut(entry: &mut (u64, ChaCha8Rng)) -> (r: &mut ChaCha8Rng)
    ensures
        *r == old(entry).1,
        *final (entry) == (old(entry).0, *final (r)),
{
    &mut entry.1
}

/// Determinism of stream derivation: two managers built from the same
/// master seed and standing at the same tick derive the same seed, and
/// so receive equal generators, for every system and entity.
pub proof fn lemma_derived_seed_deterministic(
    a: RngManager,
    b: RngManager,
    system_id: SystemId,
    entity_id: u64,
)
    requires
        a.spec_master_seed() == b.spec_master_seed(),
        a.spec_current_tick() == b.spec_current_tick(),
    ensures
        chacha8_of_seed(
            spec_derive_seed(
                a.spec_master_seed(),
                system_id,
                entity_id,
                a.spec_current_tick(),
            ),
        ) == chacha8_of_seed(
            spec_derive_seed(
                b.spec_master_seed(),
                system_id,
                entity_id,
                b.spec_current_tick(),
            ),
        ),
{
}

} // verus!
