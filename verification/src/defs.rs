use vstd::prelude::*;

verus! {

/// One entry of the font-data store: a stable key and the raw bytes loaded
/// under it.
pub struct FontEntry {
    pub key: String,
    pub bytes: Vec<u8>,
}

/// Mathematical content of a `FontDefs` value: the data store as a sequence
/// of key/bytes pairs, and the ordered fallback chain of each family role.
#[verifier::ext_equal]
pub ghost struct DefsModel {
    pub font_data: Seq<(Seq<char>, Seq<u8>)>,
    pub proportional: Seq<Seq<char>>,
    pub monospace: Seq<Seq<char>>,
}

/// Font definitions: a store of font bytes keyed by stable keys, and one
/// ordered, duplicate-free fallback chain of keys per family role (the key
/// at index 0 is tried first).
pub struct FontDefs {
    pub font_data: Vec<FontEntry>,
    pub proportional: Vec<String>,
    pub monospace: Vec<String>,
}

impl View for FontEntry {
    type V = (Seq<char>, Seq<u8>);

    open spec fn view(&self) -> (Seq<char>, Seq<u8>) {
        (self.key@, self.bytes@)
    }
}

/// The key/bytes pairs held by a sequence of store entries.
pub open spec fn entry_models(s: Seq<FontEntry>) -> Seq<(Seq<char>, Seq<u8>)> {
    s.map_values(|e: FontEntry| e@)
}

/// The character sequences of a sequence of strings.
pub open spec fn str_models(s: Seq<String>) -> Seq<Seq<char>> {
    s.map_values(|k: String| k@)
}

impl View for FontDefs {
    type V = DefsModel;

    open spec fn view(&self) -> DefsModel {
        DefsModel {
            font_data: entry_models(self.font_data@),
            proportional: str_models(self.proportional@),
            monospace: str_models(self.monospace@),
        }
    }
}

/// Does the data store hold an entry under `key`?
pub open spec fn data_has_key(fd: Seq<(Seq<char>, Seq<u8>)>, key: Seq<char>) -> bool {
    exists|i: int| 0 <= i < fd.len() && fd[i].0 == key
}

/// No two entries of the data store share a key.
pub open spec fn data_keys_distinct(fd: Seq<(Seq<char>, Seq<u8>)>) -> bool {
    forall|i: int, j: int| 0 <= i < j < fd.len() ==> fd[i].0 != fd[j].0
}

/// The model of a freshly created `FontDefs`.
pub open spec fn empty_model() -> DefsModel {
    DefsModel {
        font_data: Seq::empty(),
        proportional: Seq::empty(),
        monospace: Seq::empty(),
    }
}

impl DefsModel {
    /// Structural invariant: store keys are unique, no fallback chain holds
    /// a key twice, and every key of a fallback chain is present in the
    /// store.
    pub open spec fn wf(self) -> bool {
        &&& data_keys_distinct(self.font_data)
        &&& self.proportional.no_duplicates()
        &&& self.monospace.no_duplicates()
        &&& forall|i: int|
            0 <= i < self.proportional.len() ==> data_has_key(
                self.font_data,
                #[trigger] self.proportional[i],
            )
        &&& forall|i: int|
            0 <= i < self.monospace.len() ==> data_has_key(
                self.font_data,
                #[trigger] self.monospace[i],
            )
    }
}

impl FontDefs {
    /// The structural invariant, lifted to the executable type.
    pub open spec fn wf(self) -> bool {
        self@.wf()
    }

    /// An empty structure: no font data, empty fallback chains.
    pub fn new() -> (d: FontDefs)
        ensures
            d@ == empty_model(),
            d.wf(),
    {
        let d = FontDefs { font_data: Vec::new(), proportional: Vec::new(), monospace: Vec::new() };
        proof {
            assert(entry_models(d.font_data@) =~= empty_model().font_data);
            assert(str_models(d.proportional@) =~= empty_model().proportional);
            assert(str_models(d.monospace@) =~= empty_model().monospace);
        }
        d
    }

    /// True when the store already holds an entry under `key`. Extend-mode
    /// callers use this to avoid re-reading bytes of an installed candidate.
    pub fn contains_key(&self, key: &String) -> (b: bool)
        ensures
            b == data_has_key(self@.font_data, key@),
    {
        data_contains_key(&self.font_data, key)
    }

    /// Executable check of the structural invariant, for callers that
    /// assemble a structure by hand before extending it.
    pub fn is_well_formed(&self) -> (b: bool)
        ensures
            b == self.wf(),
    {
        if !store_keys_unique(&self.font_data) {
            return false;
        }
        if !chain_no_duplicates(&self.proportional) || !chain_no_duplicates(&self.monospace) {
            return false;
        }
        if !chain_in_store(&self.proportional, &self.font_data) || !chain_in_store(
            &self.monospace,
            &self.font_data,
        ) {
            return false;
        }
        true
    }
}

/// Linear scan: does every entry of the store carry a key of its own?
fn store_keys_unique(fd: &Vec<FontEntry>) -> (b: bool)
    ensures
        b == data_keys_distinct(entry_models(fd@)),
{
    let n = fd.len();
    let mut i: usize = 0;
    while i < n
        invariant
            n == fd.len(),
            i <= n,
            forall|p: int, q: int|
                0 <= p < q < n && p < i ==> entry_models(fd@)[p].0 != entry_models(fd@)[q].0,
        decreases n - i,
    {
        let mut q: usize = i + 1;
        while q < n
            invariant
                n == fd.len(),
                i < n,
                i + 1 <= q <= n,
                forall|t: int|
                    i < t < q ==> entry_models(fd@)[i as int].0 != entry_models(fd@)[t].0,
            decreases n - q,
        {
            if fd[i].key == fd[q].key {
                proof {
                    assert(entry_models(fd@)[i as int].0 == entry_models(fd@)[q as int].0);
                }
                return false;
            }
            q = q + 1;
        }
        i = i + 1;
    }
    true
}

/// Linear scan: does a fallback chain hold each of its keys once?
fn chain_no_duplicates(list: &Vec<String>) -> (b: bool)
    ensures
        b == str_models(list@).no_duplicates(),
{
    let n = list.len();
    let mut i: usize = 0;
    while i < n
        invariant
            n == list.len(),
            i <= n,
            forall|p: int, q: int|
                0 <= p < q < n && p < i ==> str_models(list@)[p] != str_models(list@)[q],
        decreases n - i,
    {
        let mut q: usize = i + 1;
        while q < n
            invariant
                n == list.len(),
                i < n,
                i + 1 <= q <= n,
                forall|t: int| i < t < q ==> str_models(list@)[i as int] != str_models(list@)[t],
            decreases n - q,
        {
            if list[i] == list[q] {
                proof {
                    assert(str_models(list@)[i as int] == str_models(list@)[q as int]);
                    assert(!str_models(list@).no_duplicates());
                }
                return false;
            }
            q = q + 1;
        }
        i = i + 1;
    }
    proof {
        assert forall|p: int, q: int|
            0 <= p < n && 0 <= q < n && p != q implies str_models(list@)[p] != str_models(
            list@,
        )[q] by {
            if p < q {
                assert(str_models(list@)[p] != str_models(list@)[q]);
            } else {
                assert(str_models(list@)[q] != str_models(list@)[p]);
            }
        }
    }
    true
}

/// Linear scan: is every key of a fallback chain present in the store?
fn chain_in_store(list: &Vec<String>, fd: &Vec<FontEntry>) -> (b: bool)
    ensures
        b == forall|i: int|
            0 <= i < str_models(list@).len() ==> data_has_key(
                entry_models(fd@),
                #[trigger] str_models(list@)[i],
            ),
{
    let n = list.len();
    let mut i: usize = 0;
    while i < n
        invariant
            n == list.len(),
            i <= n,
            forall|t: int|
                0 <= t < i ==> data_has_key(entry_models(fd@), #[trigger] str_models(list@)[t]),
        decreases n - i,
    {
        if !data_contains_key(fd, &list[i]) {
            proof {
                assert(str_models(list@)[i as int] == list@[i as int]@);
            }
            return false;
        }
        proof {
            assert(str_models(list@)[i as int] == list@[i as int]@);
        }
        i = i + 1;
    }
    true
}

/// Linear scan of the data store for `key`.
pub fn data_contains_key(fd: &Vec<FontEntry>, key: &String) -> (b: bool)
    ensures
        b == data_has_key(entry_models(fd@), key@),
{
    let mut i: usize = 0;
    while i < fd.len()
        invariant
            0 <= i <= fd.len(),
            forall|j: int| 0 <= j < i ==> entry_models(fd@)[j].0 != key@,
        decreases fd.len() - i,
    {
        if fd[i].key == *key {
            proof {
                assert(entry_models(fd@)[i as int].0 == key@);
            }
            return true;
        }
        i = i + 1;
    }
    proof {
        assert(!data_has_key(entry_models(fd@), key@)) by {
            if data_has_key(entry_models(fd@), key@) {
                let j = choose|j: int|
                    0 <= j < entry_models(fd@).len() && entry_models(fd@)[j].0 == key@;
                assert(entry_models(fd@)[j].0 != key@);
            }
        }
    }
    false
}

/// Linear scan of a fallback chain for `key`.
pub fn chain_contains(list: &Vec<String>, key: &String) -> (b: bool)
    ensures
        b == str_models(list@).contains(key@),
{
    let mut i: usize = 0;
    while i < list.len()
        invariant
            0 <= i <= list.len(),
            forall|j: int| 0 <= j < i ==> str_models(list@)[j] != key@,
        decreases list.len() - i,
    {
        if list[i] == *key {
            proof {
                assert(str_models(list@)[i as int] == key@);
            }
            return true;
        }
        i = i + 1;
    }
    proof {
        assert(!str_models(list@).contains(key@)) by {
            if str_models(list@).contains(key@) {
                let j = choose|j: int|
                    0 <= j < str_models(list@).len() && str_models(list@)[j] == key@;
                assert(str_models(list@)[j] != key@);
            }
        }
    }
    false
}

/// Puts `key` at the front of a fallback chain unless the chain already
/// holds it, so that a re-applied key keeps its earlier position.
pub fn insert_front(list: &mut Vec<String>, key: String)
    ensures
        str_models(old(list)@).contains(key@) ==> str_models(final(list)@) == str_models(
            old(list)@,
        ),
        !str_models(old(list)@).contains(key@) ==> str_models(final(list)@) == seq![key@]
            + str_models(old(list)@),
{
    if !chain_contains(list, &key) {
        list.insert(0, key);
        proof {
            assert(str_models(list@) =~= seq![key@] + str_models(old(list)@));
        }
    }
}

/// Appends `key` at the back of a fallback chain unless the chain already
/// holds it, so that existing keys keep their priority.
pub fn insert_back(list: &mut Vec<String>, key: String)
    ensures
        str_models(old(list)@).contains(key@) ==> str_models(final(list)@) == str_models(
            old(list)@,
        ),
        !str_models(old(list)@).contains(key@) ==> str_models(final(list)@) == str_models(
            old(list)@,
        ).push(key@),
{
    if !chain_contains(list, &key) {
        list.push(key);
        proof {
            assert(str_models(list@) =~= str_models(old(list)@).push(key@));
        }
    }
}

} // verus!
