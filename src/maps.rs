//! Helpers on maps keyed by chunk corner.
use vstd::prelude::*;
use std::collections::BTreeMap;
use vstd::std_specs::iter::IteratorSpec;
use crate::window::ChunkKey;

verus! {

broadcast use vstd::std_specs::btree::group_btree_axioms;

/// Taking one more key of a list without duplicates adds exactly that key,
/// which was not taken before and is one of the list's keys.
pub proof fn lemma_take_step(keys: Seq<ChunkKey>, idx: int)
    requires
        keys.no_duplicates(),
        0 <= idx < keys.len(),
    ensures
        keys.take(idx + 1).to_set() == keys.take(idx).to_set().insert(keys[idx]),
        !keys.take(idx).to_set().contains(keys[idx]),
        keys.to_set().contains(keys[idx]),
{
    assert(keys.take(idx + 1) =~= keys.take(idx).push(keys[idx]));
    keys.take(idx).lemma_push_to_set_commute(keys[idx]);
    if keys.take(idx).to_set().contains(keys[idx]) {
        let t = choose|t: int| 0 <= t < idx && keys.take(idx)[t] == keys[idx];
        assert(keys[t] == keys[idx]);
    }
}

/// The keys of `m`, each once.
pub fn key_list<V>(m: &BTreeMap<ChunkKey, V>) -> (r: Vec<ChunkKey>)
    ensures
        r@.to_set() == m@.dom(),
        r@.no_duplicates(),
{
    let ghost ks = vstd::std_specs::btree::spec_keys_iter(m).remaining().unref();
    let mut out: Vec<ChunkKey> = Vec::new();
    for k in it: m.keys()
        invariant
            it.seq().unref() == ks,
            ks.to_set() == m@.dom(),
            ks.no_duplicates(),
            out@ == ks.take(it.index()),
    {
        out.push(*k);
        assert(out@ =~= ks.take(it.index() + 1));
    }
    assert(out@ =~= ks);
    out
}

/// Moves every entry of `src` into `dst`, replacing an entry of `dst`
/// under the same key.
pub fn merge_into<V>(dst: &mut BTreeMap<ChunkKey, V>, src: BTreeMap<ChunkKey, V>)
    ensures
        final(dst)@ == old(dst)@.union_prefer_right(src@),
{
    let keys = key_list(&src);
    let ghost all = src@;
    let mut rest = src;
    let mut idx: usize = 0;
    while idx < keys.len()
        invariant
            0 <= idx <= keys@.len(),
            keys@.to_set() == all.dom(),
            keys@.no_duplicates(),
            rest@ == all.remove_keys(keys@.take(idx as int).to_set()),
            dst@ == old(dst)@.union_prefer_right(all.restrict(keys@.take(idx as int).to_set())),
        decreases keys@.len() - idx,
    {
        let k = keys[idx];
        let ghost done = keys@.take(idx as int).to_set();
        let ghost next = keys@.take(idx as int + 1).to_set();
        proof {
            lemma_take_step(keys@, idx as int);
        }
        match rest.remove(&k) {
            Some(v) => {
                dst.insert(k, v);
            },
            None => {},
        }
        assert(rest@ =~= all.remove_keys(next));
        assert(dst@ =~= old(dst)@.union_prefer_right(all.restrict(next)));
        idx = idx + 1;
    }
    assert(keys@.take(keys@.len() as int) =~= keys@);
    assert(all.restrict(keys@.to_set()) =~= all);
}

} // verus!
