//! The storage engine: the contract that every engine honours, and an
//! engine that keeps its mapping in memory.

use vstd::hash_map::StringHashMap;
use crate::text::text_eq;
use vstd::prelude::*;
use vstd::string::StringExecFns;

verus! {

/// Why an engine operation failed.
#[derive(Debug, Clone, PartialEq, Eq)]
pub enum KvsError {
    /// The key to remove is not in the store.
    KeyNotFound,
    /// The engine could not read or write its persisted state.
    Io(String),
}

impl KvsError {
    /// The text of the failure.
    pub open spec fn text(self) -> Seq<char> {
        match self {
            KvsError::KeyNotFound => "Key not found"@,
            KvsError::Io(text) => text@,
        }
    }

    /// The text of the failure.
    pub fn message(&self) -> (out: String)
        ensures
            out@ == self.text(),
    {
        match self {
            KvsError::KeyNotFound => "Key not found".to_owned(),
            KvsError::Io(text) => text.clone(),
        }
    }
}

/// A storage engine: one mapping from keys to values, behind three
/// operations. An engine may fail on its persisted state; it never fails on
/// a key that is merely missing, except to say so on `remove`.
pub trait KvsEngine {
    /// The mapping that the engine holds.
    spec fn contents(&self) -> Map<Seq<char>, Seq<char>>;

    /// The engine's own invariant.
    spec fn valid(&self) -> bool;

    /// Inserts the mapping for `key`, or overwrites it. On failure the
    /// error is an I/O error and the mapping is as it was.
    fn set(&mut self, key: String, value: String) -> (out: Result<(), KvsError>)
        requires
            old(self).valid(),
        ensures
            final(self).valid(),
            match out {
                Ok(_) => final(self).contents() == old(self).contents().insert(key@, value@),
                Err(e) => e is Io && final(self).contents() == old(self).contents(),
            },
    ;

    /// The value of `key` where it has one. Never changes the mapping, and
    /// never fails because the key is missing.
    fn get(&mut self, key: String) -> (out: Result<Option<String>, KvsError>)
        requires
            old(self).valid(),
        ensures
            final(self).valid(),
            final(self).contents() == old(self).contents(),
            match out {
                Ok(Some(value)) => old(self).contents().contains_key(key@) && value@ == old(
                    self,
                ).contents()[key@],
                Ok(None) => !old(self).contents().contains_key(key@),
                Err(e) => e is Io,
            },
    ;

    /// Deletes the mapping for `key`. Fails with `KeyNotFound` exactly
    /// where the key is missing; on any failure the mapping is as it was.
    fn remove(&mut self, key: String) -> (out: Result<(), KvsError>)
        requires
            old(self).valid(),
        ensures
            final(self).valid(),
            match out {
                Ok(_) => old(self).contents().contains_key(key@) && final(self).contents() == old(
                    self,
                ).contents().remove(key@),
                Err(e) => final(self).contents() == old(self).contents() && (e is KeyNotFound
                    <==> !old(self).contents().contains_key(key@)),
            },
    ;
}

/// What the contract means for one key: after a `set` the key has the
/// value that was set; after a `remove` it has none, so that a `get` finds
/// nothing and a second `remove` finds no key to remove.
pub proof fn lemma_set_get_remove(
    before: Map<Seq<char>, Seq<char>>,
    key: Seq<char>,
    value: Seq<char>,
)
    ensures
        before.insert(key, value).contains_key(key),
        before.insert(key, value)[key] == value,
        !before.insert(key, value).remove(key).contains_key(key),
        before.insert(key, value).remove(key) == before.remove(key),
{
    assert(before.insert(key, value).remove(key) =~= before.remove(key));
}

/// An engine that keeps its mapping in memory and never fails on I/O.
pub struct MemoryEngine {
    entries: StringHashMap<String>,
}

impl MemoryEngine {
    /// An engine that holds nothing.
    pub fn new() -> (out: MemoryEngine)
        ensures
            out.valid(),
            out.contents() == Map::<Seq<char>, Seq<char>>::empty(),
    {
        let out = MemoryEngine { entries: StringHashMap::new() };
        proof {
            assert(out.contents() =~= Map::<Seq<char>, Seq<char>>::empty());
        }
        out
    }
}

impl KvsEngine for MemoryEngine {
    closed spec fn contents(&self) -> Map<Seq<char>, Seq<char>> {
        self.entries@.map_values(|value: String| value@)
    }

    open spec fn valid(&self) -> bool {
        true
    }

    fn set(&mut self, key: String, value: String) -> (out: Result<(), KvsError>)
        ensures
            out is Ok,
    {
        let ghost before = self.entries@;
        self.entries.insert(key, value);
        proof {
            assert(self.contents() =~= before.map_values(|value: String| value@).insert(
                key@,
                value@,
            ));
        }
        Ok(())
    }

    fn get(&mut self, key: String) -> (out: Result<Option<String>, KvsError>)
        ensures
            out is Ok,
    {
        match self.entries.get(key.as_str()) {
            Some(value) => Ok(Some(value.clone())),
            None => Ok(None),
        }
    }

    fn remove(&mut self, key: String) -> (out: Result<(), KvsError>)
        ensures
            out is Ok <==> old(self).contents().contains_key(key@),
    {
        let ghost before = self.entries@;
        if self.entries.contains_key(key.as_str()) {
            self.entries.remove(key.as_str());
            proof {
                assert(self.contents() =~= before.map_values(|value: String| value@).remove(
                    key@,
                ));
            }
            Ok(())
        } else {
            Err(KvsError::KeyNotFound)
        }
    }
}

/// The engine that a server is started with, as named in its
/// configuration.
#[derive(Debug, Clone, Copy, PartialEq, Eq, Structural)]
pub enum Engine {
    /// The store's own engine.
    Kvs,
    /// The engine backed by an embedded database.
    Sled,
}

impl Engine {
    /// The token that selects this engine.
    pub open spec fn name(self) -> Seq<char> {
        match self {
            Engine::Kvs => "kvs"@,
            Engine::Sled => "sled"@,
        }
    }

    /// What is said of a token that selects no engine.
    pub open spec fn invalid_name(token: Seq<char>) -> Seq<char> {
        "'"@ + token + "' is not a valid engine. Use 'kvs' or 'sled'."@
    }

    /// The engine that the token `s` selects. The match is exact and
    /// case-sensitive; any other token is refused with a message that
    /// names it.
    pub fn from_str(s: &str) -> (out: Result<Engine, String>)
        ensures
            match out {
                Ok(engine) => s@ == engine.name(),
                Err(message) => s@ != "kvs"@ && s@ != "sled"@ && message@ == Engine::invalid_name(
                    s@,
                ),
            },
    {
        if text_eq(s, "kvs") {
            Ok(Engine::Kvs)
        } else if text_eq(s, "sled") {
            Ok(Engine::Sled)
        } else {
            let mut message = "'".to_owned();
            message.append(s);
            message.append("' is not a valid engine. Use 'kvs' or 'sled'.");
            Err(message)
        }
    }

    /// The token that selects this engine.
    pub fn to_string(&self) -> (out: String)
        ensures
            out@ == self.name(),
    {
        match self {
            Engine::Kvs => "kvs".to_owned(),
            Engine::Sled => "sled".to_owned(),
        }
    }
}

} // verus!
