//! The fixed set of methods, and the registry that resolves a method name read
//! from the wire to the method whose payload shape follows it.
use vstd::prelude::*;
use vstd::utf8::{encode_utf8, encode_utf8_decode_utf8};

verus! {

/// A registered method: one parameter shape and one result shape each.
#[derive(Clone, Copy, Debug, PartialEq, Eq, Structural)]
pub enum Method {
    ProfileLoginWithPassword,
    ProfileLoginWithToken,
}

/// The name under which a method travels on the wire.
pub open spec fn method_name(k: Method) -> Seq<char> {
    match k {
        Method::ProfileLoginWithPassword => "Profile.LoginWithPassword"@,
        Method::ProfileLoginWithToken => "Profile.LoginWithToken"@,
    }
}

impl Method {
    pub fn name(&self) -> (r: &'static str)
        ensures
            r@ == method_name(*self),
    {
        match self {
            Method::ProfileLoginWithPassword => "Profile.LoginWithPassword",
            Method::ProfileLoginWithToken => "Profile.LoginWithToken",
        }
    }
}

/// The 64-bit SeaHash of a byte string.
pub uninterp spec fn sea_hash64(bytes: Seq<u8>) -> u64;

/// The dispatch key of a method name: the SeaHash of its UTF-8 bytes.
pub open spec fn dispatch_key(name: Seq<char>) -> u64 {
    sea_hash64(encode_utf8(name))
}

/// Relies on fasthash's `sea::Hash64::hash`, which hands the bytes to
/// `seahash::hash`: the result depends on the bytes alone. That code reads the
/// input through `u16`, `u32` and `u64` loads at its start and at multiples of
/// 8 bytes from it, so it is given a copy that starts on an 8-byte boundary.
#[verifier::external_body]
fn sea_hash(bytes: &[u8]) -> (r: u64)
    ensures
        r == sea_hash64(bytes@),
{
    let mut store: Vec<u8> = vec![0u8; bytes.len() + 7];
    let start = (store.as_ptr() as usize).wrapping_neg() % 8;
    let copy = &mut store[start..start + bytes.len()];
    copy.copy_from_slice(bytes);
    <fasthash::sea::Hash64 as fasthash::FastHash>::hash(&*copy)
}

/// Every registered method, each under its own name.
pub open spec fn standard_entries() -> Seq<(Seq<char>, Method)> {
    seq![
        (method_name(Method::ProfileLoginWithPassword), Method::ProfileLoginWithPassword),
        (method_name(Method::ProfileLoginWithToken), Method::ProfileLoginWithToken),
    ]
}

/// No two names of the table share a dispatch key.
pub open spec fn keys_distinct(entries: Seq<(Seq<char>, Method)>) -> bool {
    forall|i: int, j: int|
        0 <= i < j < entries.len() ==> dispatch_key(#[trigger] entries[i].0) != dispatch_key(
            #[trigger] entries[j].0,
        )
}

/// The method registered under `name`, if any.
pub open spec fn resolve(entries: Seq<(Seq<char>, Method)>, name: Seq<char>) -> Option<Method> {
    if exists|i: int| 0 <= i < entries.len() && (#[trigger] entries[i]).0 == name {
        let i = choose|i: int| 0 <= i < entries.len() && (#[trigger] entries[i]).0 == name;
        Some(entries[i].1)
    } else {
        None
    }
}

/// The table holds `k` under its own name.
pub open spec fn serves(entries: Seq<(Seq<char>, Method)>, k: Method) -> bool {
    exists|i: int| 0 <= i < entries.len() && (#[trigger] entries[i]) == (method_name(k), k)
}

#[derive(Debug)]
struct Entry {
    name: String,
    key: u64,
    method: Method,
}

/// Why a registry could not be built.
#[derive(Clone, Copy, Debug, PartialEq, Eq, Structural)]
pub enum RegistryError {
    /// The names at these two positions share a dispatch key.
    Collision { first: usize, second: usize },
}

/// A table from method names to methods, looked up by dispatch key.
#[derive(Debug)]
pub struct Registry {
    entries: Vec<Entry>,
}

impl View for Registry {
    type V = Seq<(Seq<char>, Method)>;

    closed spec fn view(&self) -> Seq<(Seq<char>, Method)> {
        self.entries@.map_values(|e: Entry| (e.name@, e.method))
    }
}

impl Registry {
    #[verifier::type_invariant]
    closed spec fn keyed(self) -> bool {
        &&& forall|i: int|
            0 <= i < self.entries@.len() ==> (#[trigger] self.entries@[i]).key == dispatch_key(
                self.entries@[i].name@,
            )
        &&& forall|i: int, j: int|
            0 <= i < j < self.entries@.len() ==> (#[trigger] self.entries@[i]).key != (
            #[trigger] self.entries@[j]).key
    }

    /// Builds a registry from `(name, method)` pairs; fails when two names share
    /// a dispatch key.
    pub fn with_entries(table: &[(&str, Method)]) -> (r: Result<Registry, RegistryError>)
        ensures
            r is Ok <==> keys_distinct(table_model(table@)),
            r matches Ok(reg) ==> reg@ == table_model(table@),
            r matches Err(RegistryError::Collision { first, second }) ==> first < second
                < table@.len() && dispatch_key(table@[first as int].0@) == dispatch_key(
                table@[second as int].0@,
            ),
    {
        let ghost model = table_model(table@);
        let mut entries: Vec<Entry> = Vec::new();
        let mut j: usize = 0;
        while j < table.len()
            invariant
                j <= table@.len(),
                model == table_model(table@),
                entries@.len() == j,
                forall|i: int|
                    0 <= i < j ==> (#[trigger] entries@[i]).name@ == table@[i].0@ && entries@[i].method
                        == table@[i].1 && entries@[i].key == dispatch_key(table@[i].0@),
                forall|a: int, b: int|
                    0 <= a < b < j ==> (#[trigger] entries@[a]).key != (#[trigger] entries@[b]).key,
            decreases table@.len() - j,
        {
            let (name, method) = table[j];
            let key = sea_hash(name.as_bytes());
            let mut i: usize = 0;
            while i < j
                invariant
                    i <= j < table@.len(),
                    model == table_model(table@),
                    entries@.len() == j,
                    key == dispatch_key(table@[j as int].0@),
                    forall|a: int|
                        0 <= a < j ==> (#[trigger] entries@[a]).name@ == table@[a].0@
                            && entries@[a].key == dispatch_key(table@[a].0@),
                    forall|a: int| 0 <= a < i ==> (#[trigger] entries@[a]).key != key,
                decreases j - i,
            {
                if entries[i].key == key {
                    proof {
                        assert(model[i as int].0 == table@[i as int].0@);
                        assert(model[j as int].0 == table@[j as int].0@);
                    }
                    return Err(RegistryError::Collision { first: i, second: j });
                }
                i = i + 1;
            }
            entries.push(Entry { name: name.to_owned(), key, method });
            j = j + 1;
        }
        let reg = Registry { entries };
        proof {
            assert(reg@ =~= model);
            assert forall|a: int, b: int| 0 <= a < b < model.len() implies dispatch_key(
                #[trigger] model[a].0,
            ) != dispatch_key(#[trigger] model[b].0) by {
                assert(reg.entries@[a].key != reg.entries@[b].key);
            }
        }
        Ok(reg)
    }

    /// The registry of every method of this crate.
    pub fn new() -> (r: Result<Registry, RegistryError>)
        ensures
            r is Ok <==> keys_distinct(standard_entries()),
            r matches Ok(reg) ==> reg@ == standard_entries(),
    {
        let table = [
            (Method::ProfileLoginWithPassword.name(), Method::ProfileLoginWithPassword),
            (Method::ProfileLoginWithToken.name(), Method::ProfileLoginWithToken),
        ];
        let r = Registry::with_entries(&table);
        assert(table_model(table@) =~= standard_entries());
        r
    }

    /// The number of entries; their dispatch keys are pairwise distinct.
    pub fn len(&self) -> (r: usize)
        ensures
            r == self@.len(),
            keys_distinct(self@),
    {
        proof {
            use_type_invariant(self);
            assert forall|i: int, j: int| 0 <= i < j < self@.len() implies dispatch_key(
                #[trigger] self@[i].0,
            ) != dispatch_key(#[trigger] self@[j].0) by {
                assert(self.entries@[i].key != self.entries@[j].key);
            }
        }
        self.entries.len()
    }

    /// The position of the entry whose dispatch key is `key`, if any.
    pub fn position_of_key(&self, key: u64) -> (r: Option<usize>)
        ensures
            r matches Some(i) ==> i < self@.len() && dispatch_key(self@[i as int].0) == key,
            r is None ==> forall|i: int|
                0 <= i < self@.len() ==> dispatch_key(#[trigger] self@[i].0) != key,
    {
        proof {
            use_type_invariant(self);
        }
        let mut i: usize = 0;
        while i < self.entries.len()
            invariant
                i <= self.entries@.len(),
                forall|a: int|
                    0 <= a < self.entries@.len() ==> (#[trigger] self.entries@[a]).key
                        == dispatch_key(self.entries@[a].name@),
                forall|a: int| 0 <= a < i ==> (#[trigger] self.entries@[a]).key != key,
            decreases self.entries@.len() - i,
        {
            if self.entries[i].key == key {
                return Some(i);
            }
            i = i + 1;
        }
        proof {
            assert forall|a: int| 0 <= a < self@.len() implies dispatch_key(#[trigger] self@[a].0)
                != key by {
                assert(self.entries@[a].key != key);
            }
        }
        None
    }

    /// The method whose name has dispatch key `key`, if any. Keys are pairwise
    /// distinct, so at most one entry matches.
    pub fn method_of_key(&self, key: u64) -> (r: Option<Method>)
        ensures
            r matches Some(k) ==> exists|i: int|
                0 <= i < self@.len() && dispatch_key(#[trigger] self@[i].0) == key && self@[i].1
                    == k,
            r is None <==> forall|i: int|
                0 <= i < self@.len() ==> dispatch_key(#[trigger] self@[i].0) != key,
    {
        match self.position_of_key(key) {
            Some(i) => {
                proof {
                    assert(self@[i as int].1 == self.entries@[i as int].method);
                }
                Some(self.entries[i].method)
            },
            None => None,
        }
    }

    /// Resolves a method name: the method registered under it, or else the
    /// name's dispatch key, for the report.
    pub fn lookup(&self, name: &str) -> (r: Result<Method, u64>)
        ensures
            match resolve(self@, name@) {
                Some(k) => r == Ok::<Method, u64>(k),
                None => r == Err::<Method, u64>(dispatch_key(name@)),
            },
    {
        proof {
            use_type_invariant(self);
        }
        let raw = name.as_bytes();
        let key = sea_hash(raw);
        match self.position_of_key(key) {
            None => {
                proof {
                    assert forall|i: int| 0 <= i < self@.len() implies (#[trigger] self@[i]).0
                        != name@ by {
                        assert(dispatch_key(self@[i].0) != key);
                    }
                }
                Err(key)
            },
            Some(i) => {
                let same = same_bytes(self.entries[i].name.as_str().as_bytes(), raw);
                proof {
                    let n = self@[i as int].0;
                    encode_utf8_decode_utf8(n);
                    encode_utf8_decode_utf8(name@);
                    assert forall|a: int| 0 <= a < self@.len() && (#[trigger] self@[a]).0 == name@
                        implies a == i as int by {
                        assert(self.entries@[a].key == self.entries@[i as int].key);
                        if a < i {
                            assert(self.entries@[a].key != self.entries@[i as int].key);
                        } else if a > i {
                            assert(self.entries@[i as int].key != self.entries@[a].key);
                        }
                    }
                }
                if same {
                    Ok(self.entries[i].method)
                } else {
                    Err(key)
                }
            },
        }
    }
}

/// Whether two byte strings are equal.
pub(crate) fn same_bytes(a: &[u8], b: &[u8]) -> (r: bool)
    ensures
        r == (a@ == b@),
{
    if a.len() != b.len() {
        return false;
    }
    let mut i: usize = 0;
    while i < a.len()
        invariant
            i <= a@.len(),
            a@.len() == b@.len(),
            a@.subrange(0, i as int) == b@.subrange(0, i as int),
        decreases a@.len() - i,
    {
        if a[i] != b[i] {
            assert(a@[i as int] != b@[i as int]);
            return false;
        }
        i = i + 1;
        assert(a@.subrange(0, i as int) =~= a@.subrange(0, i - 1) + seq![a@[i - 1]]);
        assert(b@.subrange(0, i as int) =~= b@.subrange(0, i - 1) + seq![b@[i - 1]]);
    }
    assert(a@ =~= a@.subrange(0, i as int));
    assert(b@ =~= b@.subrange(0, i as int));
    true
}

/// The names and methods of a table of pairs.
pub open spec fn table_model(table: Seq<(&str, Method)>) -> Seq<(Seq<char>, Method)> {
    table.map_values(|e: (&str, Method)| (e.0@, e.1))
}

} // verus!
