//! The producer's side of chunk streaming: its cache of generated chunk
//! data, which requested chunks it must generate, and how the outcomes of
//! a generation pass are folded back in.
use vstd::prelude::*;
use std::collections::BTreeMap;
use crate::geometry::{RawBufferData, StreamError};
use crate::maps::{key_list, lemma_take_step};
use crate::window::ChunkKey;

verus! {

broadcast use vstd::std_specs::btree::group_btree_axioms;

/// The outcome recorded for `k` is a success.
pub open spec fn generated_ok(generated: Map<ChunkKey, Result<RawBufferData, StreamError>>, k: ChunkKey) -> bool {
    generated.contains_key(k) && generated[k] is Ok
}

/// The cache after a pass over the keys `wanted`: each key keeps its cached
/// data, or else takes its successfully generated data; keys that are not
/// wanted, and keys whose generation failed, are absent.
pub open spec fn loaded(
    cache: Map<ChunkKey, RawBufferData>,
    wanted: Set<ChunkKey>,
    generated: Map<ChunkKey, Result<RawBufferData, StreamError>>,
) -> Map<ChunkKey, RawBufferData> {
    Map::new(
        |k: ChunkKey| wanted.contains(k) && (cache.contains_key(k) || generated_ok(generated, k)),
        |k: ChunkKey| if cache.contains_key(k) { cache[k] } else { generated[k]->Ok_0 },
    )
}

/// Some key of `wanted` that is not cached failed to generate because the
/// device ran out of resources.
pub open spec fn exhausted_in(
    cache: Map<ChunkKey, RawBufferData>,
    wanted: Set<ChunkKey>,
    generated: Map<ChunkKey, Result<RawBufferData, StreamError>>,
) -> bool {
    exists|k: ChunkKey| #[trigger] wanted.contains(k) && !cache.contains_key(k)
        && generated.contains_key(k) && generated[k] == Err::<RawBufferData, StreamError>(
        StreamError::DeviceExhausted,
    )
}

/// The background generator's cache of chunk data.
pub struct ComputeWorld {
    pub chunks: BTreeMap<ChunkKey, RawBufferData>,
}

impl ComputeWorld {
    /// An empty cache.
    pub fn new() -> (w: ComputeWorld)
        ensures
            w.chunks@.is_empty(),
    {
        ComputeWorld { chunks: BTreeMap::new() }
    }

    /// The requested chunks that are not cached, each with its anchor
    /// corner, each once: the work of one generation pass.
    pub fn missing_chunks(&self, requested: &BTreeMap<ChunkKey, ChunkKey>) -> (r: Vec<(ChunkKey, ChunkKey)>)
        ensures
            forall|t: int| 0 <= t < r@.len() ==> {
                let (k, anchor) = #[trigger] r@[t];
                &&& requested@.contains_key(k)
                &&& requested@[k] == anchor
                &&& !self.chunks@.contains_key(k)
            },
            forall|k: ChunkKey| #[trigger] requested@.contains_key(k) && !self.chunks@.contains_key(k)
                ==> exists|t: int| 0 <= t < r@.len() && (#[trigger] r@[t]).0 == k,
            forall|s: int, t: int| 0 <= s < t < r@.len() ==> (#[trigger] r@[s]).0 != (#[trigger] r@[t]).0,
    {
        let keys = key_list(requested);
        let mut out: Vec<(ChunkKey, ChunkKey)> = Vec::new();
        let mut idx: usize = 0;
        while idx < keys.len()
            invariant
                0 <= idx <= keys@.len(),
                keys@.to_set() == requested@.dom(),
                keys@.no_duplicates(),
                forall|t: int| 0 <= t < out@.len() ==> {
                    let (k, anchor) = #[trigger] out@[t];
                    &&& requested@.contains_key(k)
                    &&& requested@[k] == anchor
                    &&& !self.chunks@.contains_key(k)
                    &&& exists|u: int| 0 <= u < idx && keys@[u] == k
                },
                forall|u: int| 0 <= u < idx && !self.chunks@.contains_key(#[trigger] keys@[u])
                    ==> exists|t: int| 0 <= t < out@.len() && (#[trigger] out@[t]).0 == keys@[u],
                forall|s: int, t: int| 0 <= s < t < out@.len() ==> (#[trigger] out@[s]).0 != (#[trigger] out@[t]).0,
            decreases keys@.len() - idx,
        {
            let k = keys[idx];
            assert(keys@.to_set().contains(k)) by {
                assert(keys@[idx as int] == k);
            }
            let ghost before = out@;
            if !self.chunks.contains_key(&k) {
                let anchor = *requested.get(&k).unwrap();
                out.push((k, anchor));
                assert forall|t: int| 0 <= t < before.len() implies (#[trigger] out@[t]).0 != k by {
                    assert(out@[t] == before[t]);
                    let u = choose|u: int| 0 <= u < idx && keys@[u] == before[t].0;
                    if before[t].0 == k {
                        assert(keys@[u] == keys@[idx as int]);
                    }
                }
                assert(out@[before.len() as int] == (k, anchor));
            }
            assert forall|u: int| 0 <= u < idx + 1 && !self.chunks@.contains_key(#[trigger] keys@[u])
                implies exists|t: int| 0 <= t < out@.len() && (#[trigger] out@[t]).0 == keys@[u] by {
                if u < idx {
                    let t = choose|t: int| 0 <= t < before.len() && (#[trigger] before[t]).0 == keys@[u];
                    assert(out@[t] == before[t]);
                } else {
                    assert(out@[before.len() as int].0 == keys@[u]);
                }
            }
            idx = idx + 1;
        }
        assert forall|k: ChunkKey| #[trigger] requested@.contains_key(k) && !self.chunks@.contains_key(k)
            implies exists|t: int| 0 <= t < out@.len() && (#[trigger] out@[t]).0 == k by {
            assert(keys@.to_set().contains(k));
            let u = choose|u: int| 0 <= u < keys@.len() && keys@[u] == k;
            assert(!self.chunks@.contains_key(keys@[u]));
        }
        out
    }

    /// Folds the outcomes of a generation pass into the cache. The cache
    /// becomes the requested chunks that were cached or were generated
    /// successfully; a failed generation leaves only its own chunk absent,
    /// to be requested again. Returns a copy of every chunk of the cache
    /// after the pass, for publishing to the consumer, so that a chunk the
    /// consumer requests again is handed over again. When the device ran
    /// out of resources for a chunk that had to be generated, the cache is
    /// still updated and `DeviceExhausted` is returned instead.
    pub fn load_chunks(
        &mut self,
        requested: &BTreeMap<ChunkKey, ChunkKey>,
        generated: BTreeMap<ChunkKey, Result<RawBufferData, StreamError>>,
    ) -> (r: Result<BTreeMap<ChunkKey, RawBufferData>, StreamError>)
        ensures
            final(self).chunks@ == loaded(old(self).chunks@, requested@.dom(), generated@),
            r is Err <==> exhausted_in(old(self).chunks@, requested@.dom(), generated@),
            r is Err ==> r == Err::<BTreeMap<ChunkKey, RawBufferData>, StreamError>(StreamError::DeviceExhausted),
            r matches Ok(published) ==> {
                &&& published@.dom() == final(self).chunks@.dom()
                &&& forall|k: ChunkKey| #[trigger] published@.contains_key(k)
                    ==> published@[k].same_bytes(&final(self).chunks@[k])
            },
    {
        let keys = key_list(requested);
        let ghost cache = self.chunks@;
        let ghost gen = generated@;
        let mut rest = generated;
        let mut kept: BTreeMap<ChunkKey, RawBufferData> = BTreeMap::new();
        let mut published: BTreeMap<ChunkKey, RawBufferData> = BTreeMap::new();
        let mut exhausted = false;
        let mut idx: usize = 0;
        proof {
            assert(keys@.take(0).to_set() =~= Set::<ChunkKey>::empty());
            assert(loaded(cache, Set::empty(), gen) =~= Map::empty());
            assert(cache.remove_keys(Set::empty()) =~= cache);
            assert(gen.remove_keys(Set::empty()) =~= gen);
        }
        while idx < keys.len()
            invariant
                0 <= idx <= keys@.len(),
                keys@.to_set() == requested@.dom(),
                keys@.no_duplicates(),
                cache == old(self).chunks@,
                gen == generated@,
                self.chunks@ == cache.remove_keys(keys@.take(idx as int).to_set()),
                rest@ == gen.remove_keys(keys@.take(idx as int).to_set()),
                kept@ == loaded(cache, keys@.take(idx as int).to_set(), gen),
                exhausted == exhausted_in(cache, keys@.take(idx as int).to_set(), gen),
                published@.dom() == kept@.dom(),
                forall|k: ChunkKey| #[trigger] published@.contains_key(k) ==> published@[k].same_bytes(&kept@[k]),
            decreases keys@.len() - idx,
        {
            let k = keys[idx];
            let ghost done = keys@.take(idx as int).to_set();
            let ghost next = keys@.take(idx as int + 1).to_set();
            proof {
                lemma_take_step(keys@, idx as int);
            }
            let ghost published_before = published@;
            let ghost was_cached = self.chunks@.contains_key(k);
            match self.chunks.remove(&k) {
                Some(d) => {
                    published.insert(k, d.duplicate());
                    kept.insert(k, d);
                    let _ = rest.remove(&k);
                },
                None => {
                    match rest.remove(&k) {
                        Some(Ok(d)) => {
                            published.insert(k, d.duplicate());
                            kept.insert(k, d);
                        },
                        Some(Err(StreamError::DeviceExhausted)) => {
                            exhausted = true;
                        },
                        _ => {},
                    }
                },
            }
            assert(self.chunks@ =~= cache.remove_keys(next));
            assert(rest@ =~= gen.remove_keys(next));
            assert(kept@ =~= loaded(cache, next, gen));
            assert(published@.dom() =~= kept@.dom());
            assert forall|q: ChunkKey| #[trigger] published@.contains_key(q) implies published@[q].same_bytes(&kept@[q]) by {
                if q != k {
                    assert(published_before.contains_key(q));
                }
            }
            assert(exhausted == exhausted_in(cache, next, gen)) by {
                let hit = !cache.contains_key(k) && gen.contains_key(k)
                    && gen[k] == Err::<RawBufferData, StreamError>(StreamError::DeviceExhausted);
                if exhausted_in(cache, done, gen) {
                    let w = choose|w: ChunkKey| #[trigger] done.contains(w) && !cache.contains_key(w)
                        && gen.contains_key(w) && gen[w] == Err::<RawBufferData, StreamError>(
                        StreamError::DeviceExhausted,
                    );
                    assert(next.contains(w));
                }
                if hit {
                    assert(next.contains(k));
                }
                if exhausted_in(cache, next, gen) {
                    let w = choose|w: ChunkKey| #[trigger] next.contains(w) && !cache.contains_key(w)
                        && gen.contains_key(w) && gen[w] == Err::<RawBufferData, StreamError>(
                        StreamError::DeviceExhausted,
                    );
                    if w != k {
                        assert(done.contains(w));
                    }
                }
            }
            idx = idx + 1;
        }
        assert(keys@.take(keys@.len() as int) =~= keys@);
        self.chunks = kept;
        if exhausted {
            Err(StreamError::DeviceExhausted)
        } else {
            Ok(published)
        }
    }
}

/// A failed generation of one chunk does not keep any other chunk out of
/// the cache: for every other key, whether it is loaded, and with what
/// data, is the same whatever the failing chunk's outcome.
pub proof fn lemma_failure_isolated(
    cache: Map<ChunkKey, RawBufferData>,
    wanted: Set<ChunkKey>,
    generated: Map<ChunkKey, Result<RawBufferData, StreamError>>,
    failed: ChunkKey,
    e: StreamError,
    k: ChunkKey,
)
    requires
        k != failed,
    ensures
        loaded(cache, wanted, generated.insert(failed, Err(e))).contains_key(k)
            == loaded(cache, wanted, generated).contains_key(k),
        loaded(cache, wanted, generated).contains_key(k) ==> loaded(
            cache,
            wanted,
            generated.insert(failed, Err(e)),
        )[k] == loaded(cache, wanted, generated)[k],
        !loaded(cache, wanted, generated.insert(failed, Err(e))).contains_key(failed)
            || cache.contains_key(failed),
{
}

} // verus!
