use vstd::prelude::*;

use crate::defs::{
    data_contains_key, data_has_key, data_keys_distinct, entry_models, insert_back, insert_front,
    str_models, DefsModel, FontDefs, FontEntry,
};
use crate::loader::{cand_models, CandModel, Candidate};

verus! {

/// What one collection pass over the candidates produces: the data store
/// grown by the installed entries, and the installed keys and family names
/// in resolver priority order.
#[verifier::ext_equal]
pub ghost struct Gathered {
    pub font_data: Seq<(Seq<char>, Seq<u8>)>,
    pub keys: Seq<Seq<char>>,
    pub names: Seq<Seq<char>>,
}

/// One collection step: a candidate is installed exactly when its bytes
/// loaded and the store does not yet hold its key, so the first occurrence
/// of a key wins and a later one changes nothing, for the chains as for the
/// data.
pub open spec fn gather_one(st: Gathered, c: CandModel) -> Gathered {
    if c.bytes is Some && !data_has_key(st.font_data, c.key) {
        Gathered {
            font_data: st.font_data.push((c.key, c.bytes->0)),
            keys: st.keys.push(c.key),
            names: st.names.push(c.family),
        }
    } else {
        st
    }
}

/// The collection pass over a whole candidate sequence, most preferred
/// candidate first.
pub open spec fn gather(st: Gathered, cands: Seq<CandModel>) -> Gathered
    decreases cands.len(),
{
    if cands.len() == 0 {
        st
    } else {
        gather(gather_one(st, cands[0]), cands.drop_first())
    }
}

/// The collection state before any candidate was seen, on top of the data
/// store `fd`.
pub open spec fn start(fd: Seq<(Seq<char>, Seq<u8>)>) -> Gathered {
    Gathered { font_data: fd, keys: Seq::empty(), names: Seq::empty() }
}

/// The family names of the candidates whose bytes loaded, in resolver
/// priority order and with duplicates kept: what a replace-mode install
/// reports as installed, one entry per loaded candidate even when two share
/// a key.
pub open spec fn loaded_families(cands: Seq<CandModel>) -> Seq<Seq<char>>
    decreases cands.len(),
{
    if cands.len() == 0 {
        Seq::empty()
    } else {
        let rest = loaded_families(cands.drop_first());
        if cands[0].bytes is Some {
            seq![cands[0].family] + rest
        } else {
            rest
        }
    }
}

/// The definitions that a replace-mode install builds when at least one
/// candidate loaded: everything rebuilt from the candidates alone, with
/// both fallback chains equal to the installed keys in resolver priority
/// order.
pub open spec fn replace_model(cands: Seq<CandModel>) -> DefsModel {
    let g = gather(start(Seq::empty()), cands);
    DefsModel { font_data: g.font_data, proportional: g.keys, monospace: g.keys }
}

/// The definitions in force after a replace-mode install against prior
/// definitions `d`: unchanged when no candidate loaded (the previous fonts
/// stay active), else rebuilt from the candidates alone.
pub open spec fn replace_apply(d: DefsModel, cands: Seq<CandModel>) -> DefsModel {
    if loaded_families(cands).len() == 0 {
        d
    } else {
        replace_model(cands)
    }
}

/// The definitions in force after an extend-mode install against prior
/// definitions `d`: unchanged when nothing new was installed, else the data
/// store grown by the new entries and each fallback chain extended at the
/// back by the new keys, so existing entries keep their priority.
pub open spec fn extend_apply(d: DefsModel, cands: Seq<CandModel>) -> DefsModel {
    let g = gather(start(d.font_data), cands);
    if g.names.len() == 0 {
        d
    } else {
        DefsModel {
            font_data: g.font_data,
            proportional: d.proportional + g.keys,
            monospace: d.monospace + g.keys,
        }
    }
}

/// Collecting `cands` and then one more candidate is one more collection
/// step after collecting `cands`.
pub proof fn lemma_gather_snoc(st: Gathered, cands: Seq<CandModel>, c: CandModel)
    ensures
        gather(st, cands.push(c)) == gather_one(gather(st, cands), c),
    decreases cands.len(),
{
    let s1 = cands.push(c);
    if cands.len() == 0 {
        assert(s1[0] == c);
        assert(s1.drop_first() =~= Seq::<CandModel>::empty());
        assert(gather(st, s1) == gather(gather_one(st, c), s1.drop_first()));
        assert(gather(gather_one(st, c), s1.drop_first()) == gather_one(st, c));
        assert(gather(st, cands) == st);
    } else {
        assert(s1[0] == cands[0]);
        assert(s1.drop_first() =~= cands.drop_first().push(c));
        assert(gather(st, s1) == gather(gather_one(st, cands[0]), s1.drop_first()));
        lemma_gather_snoc(gather_one(st, cands[0]), cands.drop_first(), c);
        assert(gather(st, cands) == gather(gather_one(st, cands[0]), cands.drop_first()));
    }
}

/// The loaded families of `cands` and then one more candidate are those of
/// `cands`, extended by the last candidate's family when its bytes loaded.
pub proof fn lemma_loaded_families_snoc(cands: Seq<CandModel>, c: CandModel)
    ensures
        loaded_families(cands.push(c)) == loaded_families(cands) + (if c.bytes is Some {
            seq![c.family]
        } else {
            Seq::<Seq<char>>::empty()
        }),
    decreases cands.len(),
{
    let s1 = cands.push(c);
    let tail: Seq<Seq<char>> = if c.bytes is Some {
        seq![c.family]
    } else {
        Seq::empty()
    };
    if cands.len() == 0 {
        assert(s1[0] == c);
        assert(s1.drop_first() =~= Seq::<CandModel>::empty());
        assert(loaded_families(s1.drop_first()) =~= Seq::<Seq<char>>::empty());
        assert(loaded_families(cands) =~= Seq::<Seq<char>>::empty());
        assert(loaded_families(s1) =~= tail);
        assert(loaded_families(cands) + tail =~= tail);
    } else {
        let head: Seq<Seq<char>> = if cands[0].bytes is Some {
            seq![cands[0].family]
        } else {
            Seq::empty()
        };
        assert(s1[0] == cands[0]);
        assert(s1.drop_first() =~= cands.drop_first().push(c));
        lemma_loaded_families_snoc(cands.drop_first(), c);
        assert(loaded_families(s1) == head + (loaded_families(cands.drop_first()) + tail));
        assert(loaded_families(cands) == head + loaded_families(cands.drop_first()));
        assert(head + (loaded_families(cands.drop_first()) + tail) =~= (head + loaded_families(
            cands.drop_first(),
        )) + tail);
    }
}

/// A key is in a concatenated store exactly when it is in one of the parts.
pub proof fn lemma_has_key_concat(
    a: Seq<(Seq<char>, Seq<u8>)>,
    b: Seq<(Seq<char>, Seq<u8>)>,
    key: Seq<char>,
)
    ensures
        data_has_key(a + b, key) <==> (data_has_key(a, key) || data_has_key(b, key)),
{
    if data_has_key(a + b, key) {
        let i = choose|i: int| 0 <= i < (a + b).len() && (a + b)[i].0 == key;
        if i < a.len() {
            assert(a[i].0 == key);
        } else {
            assert(b[i - a.len()].0 == key);
        }
    }
    if data_has_key(a, key) {
        let i = choose|i: int| 0 <= i < a.len() && a[i].0 == key;
        assert((a + b)[i].0 == key);
    }
    if data_has_key(b, key) {
        let i = choose|i: int| 0 <= i < b.len() && b[i].0 == key;
        assert((a + b)[a.len() + i].0 == key);
    }
}

/// Shape of a collection pass: what was already collected stays as a prefix
/// and only grows, keys and names grow in lockstep, every newly collected
/// key was absent from the starting store, is present in the final store
/// and differs from every other newly collected key, and uniqueness of the
/// store's keys is preserved.
pub proof fn lemma_gather_props(st: Gathered, cands: Seq<CandModel>)
    ensures
        ({
            let g = gather(st, cands);
            &&& st.font_data.len() <= g.font_data.len()
            &&& st.keys.len() <= g.keys.len()
            &&& st.names.len() <= g.names.len()
            &&& g.keys.len() - st.keys.len() == g.names.len() - st.names.len()
            &&& forall|i: int|
                0 <= i < st.font_data.len() ==> #[trigger] g.font_data[i] == st.font_data[i]
            &&& forall|i: int| 0 <= i < st.keys.len() ==> #[trigger] g.keys[i] == st.keys[i]
            &&& forall|i: int| 0 <= i < st.names.len() ==> #[trigger] g.names[i] == st.names[i]
            &&& forall|key: Seq<char>|
                data_has_key(st.font_data, key) ==> data_has_key(g.font_data, key)
            &&& forall|i: int|
                st.keys.len() <= i < g.keys.len() ==> !data_has_key(
                    st.font_data,
                    #[trigger] g.keys[i],
                )
            &&& forall|i: int|
                st.keys.len() <= i < g.keys.len() ==> data_has_key(
                    g.font_data,
                    #[trigger] g.keys[i],
                )
            &&& forall|i: int, j: int|
                st.keys.len() <= i < j < g.keys.len() ==> g.keys[i] != g.keys[j]
            &&& (data_keys_distinct(st.font_data) ==> data_keys_distinct(g.font_data))
        }),
    decreases cands.len(),
{
    if cands.len() > 0 {
        let c = cands[0];
        let st1 = gather_one(st, c);
        lemma_gather_props(st1, cands.drop_first());
        let g = gather(st, cands);
        assert(g == gather(st1, cands.drop_first()));
        if c.bytes is Some && !data_has_key(st.font_data, c.key) {
            assert forall|key: Seq<char>|
                data_has_key(st.font_data, key) implies data_has_key(st1.font_data, key) by {
                let i = choose|i: int| 0 <= i < st.font_data.len() && st.font_data[i].0 == key;
                assert(st1.font_data[i].0 == key);
            }
            assert(st1.keys[st.keys.len() as int] == c.key);
            assert(data_has_key(st1.font_data, c.key)) by {
                assert(st1.font_data[st.font_data.len() as int].0 == c.key);
            }
            assert forall|i: int|
                st.keys.len() <= i < g.keys.len() implies !data_has_key(
                st.font_data,
                #[trigger] g.keys[i],
            ) by {
                if i == st.keys.len() {
                    assert(g.keys[i] == st1.keys[i]);
                } else {
                    assert(!data_has_key(st1.font_data, g.keys[i]));
                    if data_has_key(st.font_data, g.keys[i]) {
                        let w = choose|w: int|
                            0 <= w < st.font_data.len() && st.font_data[w].0 == g.keys[i];
                        assert(st1.font_data[w].0 == g.keys[i]);
                    }
                }
            }
            assert forall|i: int, j: int|
                st.keys.len() <= i < j < g.keys.len() implies g.keys[i] != g.keys[j] by {
                if i == st.keys.len() {
                    assert(g.keys[i] == st1.keys[i]);
                    assert(!data_has_key(st1.font_data, g.keys[j]));
                }
            }
            if data_keys_distinct(st.font_data) {
                assert forall|i: int, j: int|
                    0 <= i < j < st1.font_data.len() implies st1.font_data[i].0
                    != st1.font_data[j].0 by {
                    if j == st.font_data.len() {
                        if st1.font_data[i].0 == st1.font_data[j].0 {
                            assert(st.font_data[i].0 == c.key);
                            assert(data_has_key(st.font_data, c.key));
                        }
                    } else {
                        assert(st.font_data[i].0 != st.font_data[j].0);
                    }
                }
            }
        } else {
            assert(st1 == st);
        }
    }
}

/// A chain extended by keys that are pairwise distinct and foreign to it
/// stays duplicate-free.
proof fn lemma_no_dup_concat(a: Seq<Seq<char>>, b: Seq<Seq<char>>)
    requires
        a.no_duplicates(),
        forall|i: int, j: int| 0 <= i < j < b.len() ==> b[i] != b[j],
        forall|i: int, j: int| 0 <= i < a.len() && 0 <= j < b.len() ==> a[i] != b[j],
    ensures
        (a + b).no_duplicates(),
{
    assert forall|i: int, j: int|
        0 <= i < (a + b).len() && 0 <= j < (a + b).len() && i != j implies (a + b)[i] != (a
        + b)[j] by {
        if i < a.len() {
            assert((a + b)[i] == a[i]);
        } else {
            assert((a + b)[i] == b[i - a.len()]);
        }
        if j < a.len() {
            assert((a + b)[j] == a[j]);
        } else {
            assert((a + b)[j] == b[j - a.len()]);
        }
    }
}

/// The collection pass itself: walks the candidates in order and gathers,
/// next to the entries of `existing`, the newly installed entries, their
/// keys, and their family names.
fn gather_new(existing: &Vec<FontEntry>, cands: Vec<Candidate>) -> (r: (
    Vec<FontEntry>,
    Vec<String>,
    Vec<String>,
))
    ensures
        ({
            let g = gather(start(entry_models(existing@)), cand_models(cands@));
            &&& entry_models(existing@) + entry_models(r.0@) == g.font_data
            &&& str_models(r.1@) == g.keys
            &&& str_models(r.2@) == g.names
        }),
{
    let ghost orig: Seq<CandModel> = cand_models(cands@);
    let ghost init: Gathered = start(entry_models(existing@));
    let mut rest = cands;
    let mut new_data: Vec<FontEntry> = Vec::new();
    let mut keys: Vec<String> = Vec::new();
    let mut names: Vec<String> = Vec::new();
    let ghost mut j: int = 0;
    proof {
        assert(entry_models(new_data@) =~= Seq::<(Seq<char>, Seq<u8>)>::empty());
        assert(str_models(keys@) =~= Seq::<Seq<char>>::empty());
        assert(str_models(names@) =~= Seq::<Seq<char>>::empty());
        assert(init.font_data + entry_models(new_data@) =~= init.font_data);
        assert(orig.take(0) =~= Seq::<CandModel>::empty());
        assert(cand_models(rest@) =~= orig.skip(0));
    }
    while rest.len() > 0
        invariant
            init == start(entry_models(existing@)),
            0 <= j <= orig.len(),
            orig.len() - j == rest.len(),
            cand_models(rest@) == orig.skip(j),
            gather(init, orig.take(j)) == (Gathered {
                font_data: init.font_data + entry_models(new_data@),
                keys: str_models(keys@),
                names: str_models(names@),
            }),
        decreases rest.len(),
    {
        let ghost st: Gathered = gather(init, orig.take(j));
        let ghost prev: Seq<Candidate> = rest@;
        let c = rest.remove(0);
        let ghost cm: CandModel = c@;
        proof {
            assert(cand_models(prev)[0] == prev[0]@);
            assert(cm == orig[j]);
            assert(cand_models(rest@) =~= orig.skip(j + 1)) by {
                assert forall|i: int| 0 <= i < rest@.len() implies cand_models(rest@)[i] == orig.skip(
                    j + 1,
                )[i] by {
                    assert(rest@[i] == prev[i + 1]);
                    assert(cand_models(prev)[i + 1] == prev[i + 1]@);
                }
            }
            assert(orig.take(j + 1) =~= orig.take(j).push(orig[j]));
            lemma_gather_snoc(init, orig.take(j), orig[j]);
            lemma_has_key_concat(init.font_data, entry_models(new_data@), cm.key);
            assert(st.font_data == init.font_data + entry_models(new_data@));
        }
        let Candidate { key, family, bytes } = c;
        match bytes {
            Option::Some(b) => {
                proof {
                    assert(cm.bytes is Some);
                    assert(key@ == cm.key);
                    assert(family@ == cm.family);
                    assert(b@ == cm.bytes->0);
                }
                let in_existing = data_contains_key(existing, &key);
                let in_new = data_contains_key(&new_data, &key);
                if !in_existing && !in_new {
                    let ghost st2 = gather_one(st, orig[j]);
                    let ghost nd0 = new_data@;
                    let ghost ks0 = keys@;
                    let ghost ns0 = names@;
                    let ghost kv: Seq<char> = key@;
                    let ghost bv: Seq<u8> = b@;
                    let ghost fv: Seq<char> = family@;
                    proof {
                        assert(!data_has_key(st.font_data, cm.key));
                        assert(st2.font_data == st.font_data.push((kv, bv)));
                        assert(st2.keys == st.keys.push(kv));
                        assert(st2.names == st.names.push(fv));
                    }
                    let key_copy = key.clone();
                    new_data.push(FontEntry { key, bytes: b });
                    keys.push(key_copy);
                    names.push(family);
                    proof {
                        assert(new_data@.last().key@ == kv);
                        assert(new_data@.last().bytes@ == bv);
                        assert(entry_models(new_data@) =~= entry_models(nd0).push((kv, bv))) by {
                            assert forall|i: int|
                                0 <= i < new_data@.len() implies entry_models(new_data@)[i]
                                == entry_models(nd0).push((kv, bv))[i] by {
                                if i < nd0.len() {
                                    assert(new_data@[i] == nd0[i]);
                                } else {
                                    assert(new_data@[i] == new_data@.last());
                                }
                            }
                        }
                        assert(str_models(keys@) =~= str_models(ks0).push(kv)) by {
                            assert(keys@.last()@ == kv);
                            assert forall|i: int|
                                0 <= i < keys@.len() implies str_models(keys@)[i] == str_models(
                                ks0,
                            ).push(kv)[i] by {
                                if i < ks0.len() {
                                    assert(keys@[i] == ks0[i]);
                                } else {
                                    assert(keys@[i] == keys@.last());
                                }
                            }
                        }
                        assert(str_models(names@) =~= str_models(ns0).push(fv)) by {
                            assert(names@.last()@ == fv);
                            assert forall|i: int|
                                0 <= i < names@.len() implies str_models(names@)[i] == str_models(
                                ns0,
                            ).push(fv)[i] by {
                                if i < ns0.len() {
                                    assert(names@[i] == ns0[i]);
                                } else {
                                    assert(names@[i] == names@.last());
                                }
                            }
                        }
                        assert(init.font_data + entry_models(new_data@) =~= st2.font_data) by {
                            assert(st.font_data == init.font_data + entry_models(nd0));
                            assert(entry_models(new_data@) == entry_models(nd0).push((kv, bv)));
                        }
                        assert(gather(init, orig.take(j + 1)) == st2);
                    }
                } else {
                    proof {
                        assert(data_has_key(st.font_data, cm.key));
                        assert(gather_one(st, orig[j]) == st);
                    }
                }
            },
            Option::None => {
                proof {
                    assert(cm.bytes is None);
                    assert(gather_one(st, orig[j]) == st);
                }
            },
        }
        proof {
            j = j + 1;
        }
    }
    proof {
        assert(j == orig.len());
        assert(orig.take(j) =~= orig);
    }
    (new_data, keys, names)
}

/// One pass over the candidates that records the family name of each one
/// whose bytes loaded, duplicates included: what a replace-mode install
/// reports to its caller.
fn loaded_family_names(cands: &Vec<Candidate>) -> (r: Vec<String>)
    ensures
        str_models(r@) == loaded_families(cand_models(cands@)),
{
    let ghost m: Seq<CandModel> = cand_models(cands@);
    let mut out: Vec<String> = Vec::new();
    let mut i: usize = 0;
    proof {
        assert(str_models(out@) =~= Seq::<Seq<char>>::empty());
        assert(m.take(0) =~= Seq::<CandModel>::empty());
        assert(loaded_families(m.take(0)) =~= Seq::<Seq<char>>::empty());
    }
    while i < cands.len()
        invariant
            m == cand_models(cands@),
            i <= cands.len(),
            str_models(out@) == loaded_families(m.take(i as int)),
        decreases cands.len() - i,
    {
        proof {
            assert(m[i as int] == cands@[i as int]@);
            assert(m.take(i as int + 1) =~= m.take(i as int).push(m[i as int]));
            lemma_loaded_families_snoc(m.take(i as int), m[i as int]);
        }
        if cands[i].bytes.is_some() {
            let ghost o0 = out@;
            out.push(cands[i].family.clone());
            proof {
                assert(out@.last()@ == m[i as int].family);
                assert(str_models(out@) =~= str_models(o0) + seq![m[i as int].family]) by {
                    assert forall|t: int|
                        0 <= t < out@.len() implies str_models(out@)[t] == (str_models(o0)
                        + seq![m[i as int].family])[t] by {
                        if t < o0.len() {
                            assert(out@[t] == o0[t]);
                        } else {
                            assert(out@[t] == out@.last());
                        }
                    }
                }
            }
        }
        i = i + 1;
    }
    proof {
        assert(m.take(cands@.len() as int) =~= m);
    }
    out
}

/// Replace-mode install. The definitions are rebuilt from the candidates
/// alone: each loadable candidate's bytes are stored under its key, the
/// first occurrence of a key winning for the data and for the chains, and
/// both fallback chains are set to the installed keys in resolver priority
/// order (built here by front-insertion in reverse collection order).
/// Returns the commit flag and the installed family names — one entry per
/// candidate whose bytes loaded, duplicates included, in resolver order.
/// The rendering context is to receive the definitions exactly when the
/// flag is set, which holds exactly when at least one candidate loaded;
/// otherwise the definitions are left untouched and the previously
/// committed fonts stay active.
pub fn install_replacing(defs: &mut FontDefs, cands: Vec<Candidate>) -> (r: (bool, Vec<String>))
    ensures
        r.0 <==> r.1.len() > 0,
        str_models(r.1@) == loaded_families(cand_models(cands@)),
        final(defs)@ == replace_apply(old(defs)@, cand_models(cands@)),
        r.0 ==> final(defs).wf(),
{
    let empty_store: Vec<FontEntry> = Vec::new();
    let ghost g: Gathered = gather(start(Seq::empty()), cand_models(cands@));
    proof {
        assert(entry_models(empty_store@) =~= Seq::<(Seq<char>, Seq<u8>)>::empty());
        assert(start(entry_models(empty_store@)) == start(Seq::<(Seq<char>, Seq<u8>)>::empty()));
    }
    let names = loaded_family_names(&cands);
    let (new_data, keys, _) = gather_new(&empty_store, cands);
    if names.len() == 0 {
        return (false, names);
    }
    proof {
        lemma_gather_props(start(Seq::<(Seq<char>, Seq<u8>)>::empty()), cand_models(cands@));
    }
    let mut prop: Vec<String> = Vec::new();
    let mut mono: Vec<String> = Vec::new();
    let mut i: usize = keys.len();
    proof {
        assert(str_models(prop@) =~= Seq::<Seq<char>>::empty());
        assert(str_models(mono@) =~= Seq::<Seq<char>>::empty());
        assert(g.keys.skip(i as int) =~= Seq::<Seq<char>>::empty());
    }
    while i > 0
        invariant
            i <= keys.len(),
            str_models(keys@) == g.keys,
            str_models(prop@) == g.keys.skip(i as int),
            str_models(mono@) == g.keys.skip(i as int),
            forall|i1: int, i2: int| 0 <= i1 < i2 < g.keys.len() ==> g.keys[i1] != g.keys[i2],
        decreases i,
    {
        i = i - 1;
        let k1 = keys[i].clone();
        let k2 = keys[i].clone();
        proof {
            assert(str_models(keys@)[i as int] == keys@[i as int]@);
            assert(k1@ == g.keys[i as int]);
            assert(k2@ == g.keys[i as int]);
            assert(!g.keys.skip(i as int + 1).contains(g.keys[i as int])) by {
                let s = g.keys.skip(i as int + 1);
                if s.contains(g.keys[i as int]) {
                    let w = choose|w: int| 0 <= w < s.len() && #[trigger] s[w] == g.keys[i as int];
                    assert(g.keys[i as int + 1 + w] == g.keys[i as int]);
                }
            }
        }
        insert_front(&mut prop, k1);
        insert_front(&mut mono, k2);
        proof {
            assert(seq![g.keys[i as int]] + g.keys.skip(i as int + 1) =~= g.keys.skip(i as int));
        }
    }
    proof {
        assert(g.keys.skip(0) =~= g.keys);
    }
    defs.font_data = new_data;
    defs.proportional = prop;
    defs.monospace = mono;
    proof {
        assert(Seq::<(Seq<char>, Seq<u8>)>::empty() + entry_models(defs.font_data@) =~= entry_models(
            defs.font_data@,
        ));
        assert(defs@ =~= replace_model(cand_models(cands@)));
        assert(g.keys.no_duplicates()) by {
            assert forall|i1: int, i2: int|
                0 <= i1 < g.keys.len() && 0 <= i2 < g.keys.len() && i1 != i2 implies g.keys[i1]
                != g.keys[i2] by {
                if i1 < i2 {
                    assert(g.keys[i1] != g.keys[i2]);
                } else {
                    assert(g.keys[i2] != g.keys[i1]);
                }
            }
        }
        assert(defs.wf());
    }
    (true, names)
}

/// Extend-mode install. A candidate whose key the store already holds is
/// skipped entirely; each other loadable candidate's bytes are stored under
/// its key and its key appended at the back of both fallback chains in
/// resolver priority order, so existing entries keep their priority and the
/// new ones become lower-priority fallbacks. Returns the commit flag and
/// the newly installed family names: the rendering context is to receive
/// the definitions exactly when the flag is set, which holds exactly when
/// at least one name was installed; otherwise the definitions are left
/// untouched.
pub fn install_extending(defs: &mut FontDefs, cands: Vec<Candidate>) -> (r: (bool, Vec<String>))
    requires
        old(defs).wf(),
    ensures
        r.0 <==> r.1.len() > 0,
        str_models(r.1@) == gather(start(old(defs)@.font_data), cand_models(cands@)).names,
        final(defs)@ == extend_apply(old(defs)@, cand_models(cands@)),
        final(defs).wf(),
{
    let ghost d0: DefsModel = defs@;
    let ghost g: Gathered = gather(start(d0.font_data), cand_models(cands@));
    let (mut new_data, keys, names) = gather_new(&defs.font_data, cands);
    if names.len() == 0 {
        proof {
            assert(g.names.len() == 0);
        }
        return (false, names);
    }
    proof {
        lemma_gather_props(start(d0.font_data), cand_models(cands@));
    }
    while new_data.len() > 0
        invariant
            entry_models(defs.font_data@) + entry_models(new_data@) == g.font_data,
            str_models(defs.proportional@) == d0.proportional,
            str_models(defs.monospace@) == d0.monospace,
        decreases new_data.len(),
    {
        let ghost fd0 = defs.font_data@;
        let ghost nd0 = new_data@;
        let e = new_data.remove(0);
        defs.font_data.push(e);
        proof {
            assert(defs.font_data@.last() == nd0[0]);
            assert(entry_models(defs.font_data@) =~= entry_models(fd0).push(nd0[0]@)) by {
                assert forall|i: int|
                    0 <= i < defs.font_data@.len() implies entry_models(defs.font_data@)[i]
                    == entry_models(fd0).push(nd0[0]@)[i] by {
                    if i < fd0.len() {
                        assert(defs.font_data@[i] == fd0[i]);
                    } else {
                        assert(defs.font_data@[i] == nd0[0]);
                    }
                }
            }
            assert(entry_models(new_data@) =~= entry_models(nd0).drop_first()) by {
                assert forall|i: int|
                    0 <= i < new_data@.len() implies entry_models(new_data@)[i] == entry_models(
                    nd0,
                ).drop_first()[i] by {
                    assert(new_data@[i] == nd0[i + 1]);
                }
            }
            assert(entry_models(defs.font_data@) + entry_models(new_data@) =~= entry_models(fd0)
                + entry_models(nd0)) by {
                assert(entry_models(new_data@) == entry_models(nd0).drop_first());
            }
        }
    }
    let mut idx: usize = 0;
    proof {
        assert(g.keys.take(0) =~= Seq::<Seq<char>>::empty());
        assert(d0.proportional + g.keys.take(0) =~= d0.proportional);
        assert(d0.monospace + g.keys.take(0) =~= d0.monospace);
    }
    while idx < keys.len()
        invariant
            idx <= keys.len(),
            str_models(keys@) == g.keys,
            entry_models(defs.font_data@) == g.font_data,
            str_models(defs.proportional@) == d0.proportional + g.keys.take(idx as int),
            str_models(defs.monospace@) == d0.monospace + g.keys.take(idx as int),
            d0.wf(),
            forall|i: int|
                0 <= i < g.keys.len() ==> !data_has_key(d0.font_data, #[trigger] g.keys[i]),
            forall|i1: int, i2: int| 0 <= i1 < i2 < g.keys.len() ==> g.keys[i1] != g.keys[i2],
        decreases keys.len() - idx,
    {
        let k1 = keys[idx].clone();
        let k2 = keys[idx].clone();
        proof {
            assert(str_models(keys@)[idx as int] == keys@[idx as int]@);
            assert(k1@ == g.keys[idx as int]);
            assert(k2@ == g.keys[idx as int]);
            assert(!(d0.proportional + g.keys.take(idx as int)).contains(g.keys[idx as int])) by {
                let cur = d0.proportional + g.keys.take(idx as int);
                if cur.contains(g.keys[idx as int]) {
                    let w = choose|w: int| 0 <= w < cur.len() && cur[w] == g.keys[idx as int];
                    if w < d0.proportional.len() {
                        assert(d0.proportional[w] == g.keys[idx as int]);
                        assert(data_has_key(d0.font_data, d0.proportional[w]));
                    } else {
                        assert(g.keys.take(idx as int)[w - d0.proportional.len()] == g.keys[idx as int]);
                    }
                }
            }
            assert(!(d0.monospace + g.keys.take(idx as int)).contains(g.keys[idx as int])) by {
                let cur = d0.monospace + g.keys.take(idx as int);
                if cur.contains(g.keys[idx as int]) {
                    let w = choose|w: int| 0 <= w < cur.len() && cur[w] == g.keys[idx as int];
                    if w < d0.monospace.len() {
                        assert(d0.monospace[w] == g.keys[idx as int]);
                        assert(data_has_key(d0.font_data, d0.monospace[w]));
                    } else {
                        assert(g.keys.take(idx as int)[w - d0.monospace.len()] == g.keys[idx as int]);
                    }
                }
            }
        }
        insert_back(&mut defs.proportional, k1);
        insert_back(&mut defs.monospace, k2);
        proof {
            assert((d0.proportional + g.keys.take(idx as int)).push(g.keys[idx as int])
                =~= d0.proportional + g.keys.take(idx as int + 1));
            assert((d0.monospace + g.keys.take(idx as int)).push(g.keys[idx as int])
                =~= d0.monospace + g.keys.take(idx as int + 1));
        }
        idx = idx + 1;
    }
    proof {
        assert(g.keys.take(g.keys.len() as int) =~= g.keys);
        assert(defs@ =~= extend_apply(d0, cand_models(cands@)));
        assert(defs.wf()) by {
            assert forall|i: int, j: int|
                0 <= i < d0.proportional.len() && 0 <= j < g.keys.len() implies d0.proportional[i]
                != g.keys[j] by {
                assert(data_has_key(d0.font_data, d0.proportional[i]));
                assert(!data_has_key(d0.font_data, g.keys[j]));
            }
            assert forall|i: int, j: int|
                0 <= i < d0.monospace.len() && 0 <= j < g.keys.len() implies d0.monospace[i]
                != g.keys[j] by {
                assert(data_has_key(d0.font_data, d0.monospace[i]));
                assert(!data_has_key(d0.font_data, g.keys[j]));
            }
            lemma_no_dup_concat(d0.proportional, g.keys);
            lemma_no_dup_concat(d0.monospace, g.keys);
            assert forall|i: int|
                0 <= i < (d0.proportional + g.keys).len() implies data_has_key(
                g.font_data,
                #[trigger] (d0.proportional + g.keys)[i],
            ) by {
                if i < d0.proportional.len() {
                    assert((d0.proportional + g.keys)[i] == d0.proportional[i]);
                    assert(data_has_key(d0.font_data, d0.proportional[i]));
                } else {
                    assert((d0.proportional + g.keys)[i] == g.keys[i - d0.proportional.len()]);
                }
            }
            assert forall|i: int|
                0 <= i < (d0.monospace + g.keys).len() implies data_has_key(
                g.font_data,
                #[trigger] (d0.monospace + g.keys)[i],
            ) by {
                if i < d0.monospace.len() {
                    assert((d0.monospace + g.keys)[i] == d0.monospace[i]);
                    assert(data_has_key(d0.font_data, d0.monospace[i]));
                } else {
                    assert((d0.monospace + g.keys)[i] == g.keys[i - d0.monospace.len()]);
                }
            }
        }
    }
    (true, names)
}

} // verus!
