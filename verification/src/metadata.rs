//! The schema registry: the run-time description of the remote state
//! machine's modules, with their stable indices, callable functions,
//! constants and storage items.  Loaded once per session and read-only after
//! that; every lookup is pure and fails explicitly when a name is absent.
use crate::error::Error;
use vstd::prelude::*;

verus! {

/// A callable function of a module: its name and its stable index.
#[derive(Debug)]
pub struct FunctionEntry {
    pub name: String,
    pub index: u8,
}

/// A module constant: its name and its raw encoded value.
#[derive(Debug)]
pub struct ConstantEntry {
    pub name: String,
    pub value: Vec<u8>,
}

/// The hasher a storage map declares for one of its keys.
#[derive(Debug, Clone, Copy, PartialEq, Eq, Structural)]
pub enum Hasher {
    /// 16-byte Blake2b digest of the encoded key.
    Blake2_128,
    /// 32-byte Blake2b digest of the encoded key.
    Blake2_256,
    /// 16-byte Blake2b digest followed by the raw encoded key, so a prefix
    /// scan can recover the key.
    Blake2_128Concat,
    /// 16-byte xxHash digest of the encoded key.
    Twox128,
    /// 8-byte xxHash digest followed by the raw encoded key, so a prefix scan
    /// can recover the key.  Not collision-resistant; the remote protocol
    /// relies on this exact form.
    Twox64Concat,
    /// The raw encoded key itself, unhashed.
    Identity,
}

/// The declared layout of a storage item.
#[derive(Debug, Clone, Copy, PartialEq, Eq, Structural)]
pub enum StorageLayout {
    /// A single value, addressed by module and item name alone.
    Plain,
    /// A map from one key, hashed as declared.
    SingleMap { hasher: Hasher },
    /// A map from two keys, each hashed as declared.
    DoubleMap { hasher1: Hasher, hasher2: Hasher },
}

/// A storage item of a module: its name and its declared layout.
#[derive(Debug)]
pub struct StorageEntry {
    pub name: String,
    pub layout: StorageLayout,
}

/// One module of the remote state machine.
#[derive(Debug)]
pub struct Module {
    pub name: String,
    /// The stable numeric index the wire encoding of a call begins with.
    pub index: u8,
    pub functions: Vec<FunctionEntry>,
    pub constants: Vec<ConstantEntry>,
    pub storage: Vec<StorageEntry>,
}

/// The whole schema: the ordered list of modules.
#[derive(Debug)]
pub struct Metadata {
    pub modules: Vec<Module>,
}

/// The position of the first module of the given name, if any.
pub open spec fn find_module(mods: Seq<Module>, name: Seq<char>) -> Option<int>
    decreases mods.len(),
{
    if mods.len() == 0 {
        None
    } else if mods[0].name@ == name {
        Some(0int)
    } else {
        match find_module(mods.drop_first(), name) {
            Some(i) => Some(i + 1),
            None => None,
        }
    }
}

/// The position of the first function entry of the given name, if any.
pub open spec fn find_function(fns: Seq<FunctionEntry>, name: Seq<char>) -> Option<int>
    decreases fns.len(),
{
    if fns.len() == 0 {
        None
    } else if fns[0].name@ == name {
        Some(0int)
    } else {
        match find_function(fns.drop_first(), name) {
            Some(i) => Some(i + 1),
            None => None,
        }
    }
}

/// The position of the first constant entry of the given name, if any.
pub open spec fn find_constant(cs: Seq<ConstantEntry>, name: Seq<char>) -> Option<int>
    decreases cs.len(),
{
    if cs.len() == 0 {
        None
    } else if cs[0].name@ == name {
        Some(0int)
    } else {
        match find_constant(cs.drop_first(), name) {
            Some(i) => Some(i + 1),
            None => None,
        }
    }
}

/// The position of the first storage entry of the given name, if any.
pub open spec fn find_storage(ss: Seq<StorageEntry>, name: Seq<char>) -> Option<int>
    decreases ss.len(),
{
    if ss.len() == 0 {
        None
    } else if ss[0].name@ == name {
        Some(0int)
    } else {
        match find_storage(ss.drop_first(), name) {
            Some(i) => Some(i + 1),
            None => None,
        }
    }
}

impl Metadata {
    /// Look a module up by name; fails with `UnknownModule` exactly when no
    /// module has that name.
    pub fn pallet(&self, name: &str) -> (r: Result<&Module, Error>)
        ensures
            match r {
                Ok(m) => find_module(self.modules@, name@) matches Some(i) && *m
                    == self.modules@[i],
                Err(e) => find_module(self.modules@, name@) is None && e == Error::UnknownModule,
            },
    {
        let needle: String = name.to_owned();
        let n: usize = self.modules.len();
        let mut i: usize = 0;
        while i < n
            invariant
                i <= n,
                n == self.modules@.len(),
                needle@ == name@,
                forall|j: int| 0 <= j < i ==> #[trigger] self.modules@[j].name@ != name@,
            decreases n - i,
        {
            if self.modules[i].name == needle {
                proof {
                    lemma_find_module_at(self.modules@, name@, i as int);
                }
                return Ok(&self.modules[i]);
            }
            i = i + 1;
        }
        proof {
            lemma_find_module_none(self.modules@, name@);
        }
        Err(Error::UnknownModule)
    }
}

/// If no module before `i` matches and `i` does, the search finds `i`.
proof fn lemma_find_module_at(mods: Seq<Module>, name: Seq<char>, i: int)
    requires
        0 <= i < mods.len(),
        mods[i].name@ == name,
        forall|j: int| 0 <= j < i ==> #[trigger] mods[j].name@ != name,
    ensures
        find_module(mods, name) == Some(i),
    decreases i,
{
    if i > 0 {
        lemma_find_module_at(mods.drop_first(), name, i - 1);
    }
}

/// If no module matches, the search finds none.
proof fn lemma_find_module_none(mods: Seq<Module>, name: Seq<char>)
    requires
        forall|j: int| 0 <= j < mods.len() ==> #[trigger] mods[j].name@ != name,
    ensures
        find_module(mods, name) is None,
    decreases mods.len(),
{
    if mods.len() > 0 {
        lemma_find_module_none(mods.drop_first(), name);
    }
}

/// If no function entry before `i` matches and `i` does, the search finds `i`.
proof fn lemma_find_function_at(fns: Seq<FunctionEntry>, name: Seq<char>, i: int)
    requires
        0 <= i < fns.len(),
        fns[i].name@ == name,
        forall|j: int| 0 <= j < i ==> #[trigger] fns[j].name@ != name,
    ensures
        find_function(fns, name) == Some(i),
    decreases i,
{
    if i > 0 {
        lemma_find_function_at(fns.drop_first(), name, i - 1);
    }
}

/// If no function entry matches, the search finds none.
proof fn lemma_find_function_none(fns: Seq<FunctionEntry>, name: Seq<char>)
    requires
        forall|j: int| 0 <= j < fns.len() ==> #[trigger] fns[j].name@ != name,
    ensures
        find_function(fns, name) is None,
    decreases fns.len(),
{
    if fns.len() > 0 {
        lemma_find_function_none(fns.drop_first(), name);
    }
}

/// If no constant entry before `i` matches and `i` does, the search finds `i`.
proof fn lemma_find_constant_at(cs: Seq<ConstantEntry>, name: Seq<char>, i: int)
    requires
        0 <= i < cs.len(),
        cs[i].name@ == name,
        forall|j: int| 0 <= j < i ==> #[trigger] cs[j].name@ != name,
    ensures
        find_constant(cs, name) == Some(i),
    decreases i,
{
    if i > 0 {
        lemma_find_constant_at(cs.drop_first(), name, i - 1);
    }
}

/// If no constant entry matches, the search finds none.
proof fn lemma_find_constant_none(cs: Seq<ConstantEntry>, name: Seq<char>)
    requires
        forall|j: int| 0 <= j < cs.len() ==> #[trigger] cs[j].name@ != name,
    ensures
        find_constant(cs, name) is None,
    decreases cs.len(),
{
    if cs.len() > 0 {
        lemma_find_constant_none(cs.drop_first(), name);
    }
}

/// If no storage entry before `i` matches and `i` does, the search finds `i`.
proof fn lemma_find_storage_at(ss: Seq<StorageEntry>, name: Seq<char>, i: int)
    requires
        0 <= i < ss.len(),
        ss[i].name@ == name,
        forall|j: int| 0 <= j < i ==> #[trigger] ss[j].name@ != name,
    ensures
        find_storage(ss, name) == Some(i),
    decreases i,
{
    if i > 0 {
        lemma_find_storage_at(ss.drop_first(), name, i - 1);
    }
}

/// If no storage entry matches, the search finds none.
proof fn lemma_find_storage_none(ss: Seq<StorageEntry>, name: Seq<char>)
    requires
        forall|j: int| 0 <= j < ss.len() ==> #[trigger] ss[j].name@ != name,
    ensures
        find_storage(ss, name) is None,
    decreases ss.len(),
{
    if ss.len() > 0 {
        lemma_find_storage_none(ss.drop_first(), name);
    }
}

impl Module {
    /// Look a function's index up by name; fails with `UnknownFunction`
    /// exactly when this module declares no function of that name.
    pub fn function_index(&self, name: &str) -> (r: Result<u8, Error>)
        ensures
            match r {
                Ok(ix) => find_function(self.functions@, name@) matches Some(i) && ix
                    == self.functions@[i].index,
                Err(e) => find_function(self.functions@, name@) is None && e
                    == Error::UnknownFunction,
            },
    {
        let needle: String = name.to_owned();
        let n: usize = self.functions.len();
        let mut i: usize = 0;
        while i < n
            invariant
                i <= n,
                n == self.functions@.len(),
                needle@ == name@,
                forall|j: int| 0 <= j < i ==> #[trigger] self.functions@[j].name@ != name@,
            decreases n - i,
        {
            if self.functions[i].name == needle {
                proof {
                    lemma_find_function_at(self.functions@, name@, i as int);
                }
                return Ok(self.functions[i].index);
            }
            i = i + 1;
        }
        proof {
            lemma_find_function_none(self.functions@, name@);
        }
        Err(Error::UnknownFunction)
    }

    /// Look a constant up by name; fails with `UnknownConstant` exactly when
    /// this module declares no constant of that name.
    pub fn constant(&self, name: &str) -> (r: Result<&ConstantEntry, Error>)
        ensures
            match r {
                Ok(c) => find_constant(self.constants@, name@) matches Some(i) && *c
                    == self.constants@[i],
                Err(e) => find_constant(self.constants@, name@) is None && e
                    == Error::UnknownConstant,
            },
    {
        let needle: String = name.to_owned();
        let n: usize = self.constants.len();
        let mut i: usize = 0;
        while i < n
            invariant
                i <= n,
                n == self.constants@.len(),
                needle@ == name@,
                forall|j: int| 0 <= j < i ==> #[trigger] self.constants@[j].name@ != name@,
            decreases n - i,
        {
            if self.constants[i].name == needle {
                proof {
                    lemma_find_constant_at(self.constants@, name@, i as int);
                }
                return Ok(&self.constants[i]);
            }
            i = i + 1;
        }
        proof {
            lemma_find_constant_none(self.constants@, name@);
        }
        Err(Error::UnknownConstant)
    }

    /// Look a storage item up by name; fails with `UnknownStorageItem`
    /// exactly when this module declares no storage item of that name.
    pub fn storage_entry(&self, name: &str) -> (r: Result<&StorageEntry, Error>)
        ensures
            match r {
                Ok(s) => find_storage(self.storage@, name@) matches Some(i) && *s
                    == self.storage@[i],
                Err(e) => find_storage(self.storage@, name@) is None && e
                    == Error::UnknownStorageItem,
            },
    {
        let needle: String = name.to_owned();
        let n: usize = self.storage.len();
        let mut i: usize = 0;
        while i < n
            invariant
                i <= n,
                n == self.storage@.len(),
                needle@ == name@,
                forall|j: int| 0 <= j < i ==> #[trigger] self.storage@[j].name@ != name@,
            decreases n - i,
        {
            if self.storage[i].name == needle {
                proof {
                    lemma_find_storage_at(self.storage@, name@, i as int);
                }
                return Ok(&self.storage[i]);
            }
            i = i + 1;
        }
        proof {
            lemma_find_storage_none(self.storage@, name@);
        }
        Err(Error::UnknownStorageItem)
    }
}

} // verus!
