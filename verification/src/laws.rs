use vstd::prelude::*;

use crate::defs::{data_has_key, DefsModel};
use crate::engine::{
    gather, gather_one, lemma_gather_props, loaded_families, replace_apply, replace_model, start,
    Gathered,
};
use crate::loader::CandModel;

verus! {

/// Idempotence of replace: a second replace-mode install with the same
/// candidate set, against whatever the first one left in force, yields the
/// same definitions as the first one alone.
pub proof fn lemma_replace_idempotent(d: DefsModel, cands: Seq<CandModel>)
    ensures
        replace_apply(replace_apply(d, cands), cands) == replace_apply(d, cands),
{
}

/// Well-formedness of a replace: the rebuilt definitions hold no key twice
/// in any fallback chain, no key twice in the data store, and no chain key
/// outside the data store.
pub proof fn lemma_replace_well_formed(cands: Seq<CandModel>)
    ensures
        replace_model(cands).proportional.no_duplicates(),
        replace_model(cands).monospace.no_duplicates(),
        replace_model(cands).wf(),
{
    let st = start(Seq::<(Seq<char>, Seq<u8>)>::empty());
    lemma_gather_props(st, cands);
    let g = gather(st, cands);
    assert forall|i1: int, i2: int|
        0 <= i1 < g.keys.len() && 0 <= i2 < g.keys.len() && i1 != i2 implies g.keys[i1]
        != g.keys[i2] by {
        if i1 < i2 {
            assert(g.keys[i1] != g.keys[i2]);
        } else {
            assert(g.keys[i2] != g.keys[i1]);
        }
    }
}

/// Order preservation: when every candidate loaded, no two candidates share
/// a key, and no key is in the store yet, the collection pass installs
/// exactly the candidate keys and family names, in resolver priority order.
/// With a replace-mode install this makes each fallback chain the candidate
/// keys themselves; with an extend-mode install they are appended behind
/// the existing chain in the same order.
pub proof fn lemma_order_preserved(st: Gathered, cands: Seq<CandModel>)
    requires
        forall|i: int| 0 <= i < cands.len() ==> cands[i].bytes is Some,
        forall|i: int, j: int| 0 <= i < j < cands.len() ==> cands[i].key != cands[j].key,
        forall|i: int|
            0 <= i < cands.len() ==> !data_has_key(st.font_data, #[trigger] cands[i].key),
    ensures
        gather(st, cands).keys == st.keys + cands.map_values(|c: CandModel| c.key),
        gather(st, cands).names == st.names + cands.map_values(|c: CandModel| c.family),
        loaded_families(cands) == cands.map_values(|c: CandModel| c.family),
    decreases cands.len(),
{
    let keys_of = |c: CandModel| c.key;
    let names_of = |c: CandModel| c.family;
    if cands.len() == 0 {
        assert(st.keys + cands.map_values(keys_of) =~= st.keys);
        assert(st.names + cands.map_values(names_of) =~= st.names);
        assert(loaded_families(cands) =~= cands.map_values(names_of));
    } else {
        let c = cands[0];
        let st1 = gather_one(st, c);
        let rest = cands.drop_first();
        assert(st1.keys == st.keys.push(c.key));
        assert(st1.names == st.names.push(c.family));
        assert forall|i: int|
            0 <= i < rest.len() implies !data_has_key(st1.font_data, #[trigger] rest[i].key) by {
            assert(rest[i] == cands[i + 1]);
            if data_has_key(st1.font_data, rest[i].key) {
                let w = choose|w: int|
                    0 <= w < st1.font_data.len() && #[trigger] st1.font_data[w].0 == rest[i].key;
                if w < st.font_data.len() {
                    assert(data_has_key(st.font_data, cands[i + 1].key));
                } else {
                    assert(cands[0].key == cands[i + 1].key);
                }
            }
        }
        assert forall|i: int, j: int| 0 <= i < j < rest.len() implies rest[i].key != rest[j].key by {
            assert(rest[i] == cands[i + 1]);
            assert(rest[j] == cands[j + 1]);
        }
        assert forall|i: int| 0 <= i < rest.len() implies rest[i].bytes is Some by {
            assert(rest[i] == cands[i + 1]);
        }
        lemma_order_preserved(st1, rest);
        assert(gather(st, cands) == gather(st1, rest));
        assert(st.keys.push(c.key) + rest.map_values(keys_of) =~= st.keys + cands.map_values(
            keys_of,
        )) by {
            assert forall|i: int|
                0 <= i < rest.map_values(keys_of).len() implies rest.map_values(keys_of)[i]
                == cands.map_values(keys_of)[i + 1] by {
                assert(rest[i] == cands[i + 1]);
            }
        }
        assert(st.names.push(c.family) + rest.map_values(names_of) =~= st.names + cands.map_values(
            names_of,
        )) by {
            assert forall|i: int|
                0 <= i < rest.map_values(names_of).len() implies rest.map_values(names_of)[i]
                == cands.map_values(names_of)[i + 1] by {
                assert(rest[i] == cands[i + 1]);
            }
        }
        assert(loaded_families(cands) == seq![c.family] + loaded_families(rest));
        assert(seq![c.family] + rest.map_values(names_of) =~= cands.map_values(names_of)) by {
            assert forall|i: int|
                0 <= i < rest.map_values(names_of).len() implies rest.map_values(names_of)[i]
                == cands.map_values(names_of)[i + 1] by {
                assert(rest[i] == cands[i + 1]);
            }
        }
    }
}

/// No-op on total failure: when every candidate's byte load failed, the
/// collection pass installs nothing and no family name is reported, so the
/// definitions are exactly what they were before and the result list is
/// empty.
pub proof fn lemma_no_op_on_total_failure(st: Gathered, cands: Seq<CandModel>)
    requires
        forall|i: int| 0 <= i < cands.len() ==> cands[i].bytes is None,
    ensures
        gather(st, cands) == st,
        loaded_families(cands) == Seq::<Seq<char>>::empty(),
    decreases cands.len(),
{
    if cands.len() > 0 {
        assert(cands[0].bytes is None);
        assert(gather_one(st, cands[0]) == st);
        assert forall|i: int| 0 <= i < cands.drop_first().len() implies cands.drop_first()[i].bytes
            is None by {
            assert(cands.drop_first()[i] == cands[i + 1]);
        }
        lemma_no_op_on_total_failure(st, cands.drop_first());
    }
}

/// Extend skips pre-existing keys entirely: a candidate whose key the store
/// already holds changes nothing — the pass yields the same result with or
/// without it, so its bytes are never needed and its family name is never
/// reported.
pub proof fn lemma_preexisting_candidate_inert(st: Gathered, cands: Seq<CandModel>, i: int)
    requires
        0 <= i < cands.len(),
        data_has_key(st.font_data, cands[i].key),
    ensures
        gather(st, cands) == gather(st, cands.remove(i)),
    decreases cands.len(),
{
    if i == 0 {
        assert(gather_one(st, cands[0]) == st);
        assert(cands.remove(0) =~= cands.drop_first());
        assert(gather(st, cands) == gather(st, cands.drop_first()));
    } else {
        let st1 = gather_one(st, cands[0]);
        assert(data_has_key(st1.font_data, cands[i].key)) by {
            let w = choose|w: int|
                0 <= w < st.font_data.len() && #[trigger] st.font_data[w].0 == cands[i].key;
            assert(st1.font_data[w].0 == cands[i].key);
        }
        assert(cands.drop_first()[i - 1] == cands[i]);
        lemma_preexisting_candidate_inert(st1, cands.drop_first(), i - 1);
        assert(cands.remove(i)[0] == cands[0]);
        assert(cands.remove(i).drop_first() =~= cands.drop_first().remove(i - 1));
        assert(gather(st, cands.remove(i)) == gather(st1, cands.remove(i).drop_first()));
        assert(gather(st, cands) == gather(st1, cands.drop_first()));
    }
}

/// Extend skips pre-existing keys: a key that the data store already holds
/// before the pass is never among the newly installed keys, so it is never
/// appended a second time to any fallback chain.
pub proof fn lemma_extend_skips_preexisting(
    fd: Seq<(Seq<char>, Seq<u8>)>,
    cands: Seq<CandModel>,
    key: Seq<char>,
)
    requires
        data_has_key(fd, key),
    ensures
        !gather(start(fd), cands).keys.contains(key),
{
    lemma_gather_props(start(fd), cands);
    let g = gather(start(fd), cands);
    if g.keys.contains(key) {
        let w = choose|w: int| 0 <= w < g.keys.len() && #[trigger] g.keys[w] == key;
        assert(!data_has_key(fd, g.keys[w]));
    }
}

} // verus!
