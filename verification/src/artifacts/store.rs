//! Where Canopy keeps the bytes of the artifacts it holds: the name each
//! object is kept under, which store the environment configures, and the
//! in-process store.

use vstd::prelude::*;
use crate::assoc::{assoc, distinct_keys, has_key, lemma_assoc_at, lemma_assoc_push, lemma_assoc_remove, lemma_assoc_update};
use crate::text::push_str;
use super::registration::{uuid_string, uuid_text};

verus! {

/// The key prefix within the bucket where none is configured.
pub fn default_prefix() -> (s: &'static str)
    ensures
        s@ == "artifacts/"@,
{
    "artifacts/"
}

/// Which store holds the bytes.
#[derive(Debug)]
pub enum StoreChoice {
    /// An in-process map, for tests and debug builds alone.
    Memory,
    /// An S3 bucket, its objects under the prefix.
    S3 { bucket: String, prefix: String },
    /// No store: Canopy can hold no artifact.
    Unconfigured,
}

/// Which store the environment configures: the in-process one where it is
/// asked for and the build is a debug build, else the bucket where one is
/// named, under the prefix given or the default, else none.
pub fn store_choice(memory_requested: bool, debug_build: bool, bucket: Option<String>, prefix: Option<String>) -> (r: StoreChoice)
    ensures
        memory_requested && debug_build ==> r is Memory,
        !(memory_requested && debug_build) && bucket is None ==> r is Unconfigured,
        !(memory_requested && debug_build) && bucket is Some ==> (r matches StoreChoice::S3 { bucket: b, prefix: p } && b == bucket.unwrap() && p@ == match prefix {
            Some(q) => q@,
            None => "artifacts/"@,
        }),
{
    if memory_requested && debug_build {
        return StoreChoice::Memory;
    }
    match bucket {
        None => StoreChoice::Unconfigured,
        Some(b) => StoreChoice::S3 {
            bucket: b,
            prefix: match prefix {
                Some(q) => q,
                None => String::from_str(default_prefix()),
            },
        },
    }
}

/// What an endpoint reports when asked to hold an artifact with nowhere to
/// put it.
pub fn unconfigured() -> (s: &'static str)
    ensures
        s@ == "Canopy holds no artifacts: CANOPY_ARTIFACT_BUCKET is not configured"@,
{
    "Canopy holds no artifacts: CANOPY_ARTIFACT_BUCKET is not configured"
}

/// The name an artifact's bytes are kept under: the artifact's id, after the
/// bucket's prefix where there is one.
pub fn object_key(prefix: Option<&str>, artifact: u128) -> (k: String)
    ensures
        k@ == match prefix {
            Some(p) => p@ + uuid_text(artifact),
            None => uuid_text(artifact),
        },
{
    let id = uuid_string(artifact);
    match prefix {
        Some(p) => {
            let mut k = String::from_str(p);
            push_str(&mut k, id.as_str());
            k
        },
        None => id,
    }
}

/// The entries of an object list, keyed by artifact.
pub open spec fn object_entries(s: Seq<(u128, Vec<u8>)>) -> Seq<(u128, Seq<u8>)> {
    s.map_values(|e: (u128, Vec<u8>)| (e.0, e.1@))
}

/// Bytes held in process, by artifact.
#[derive(Debug)]
pub struct MemoryStore {
    objects: Vec<(u128, Vec<u8>)>,
}

impl View for MemoryStore {
    type V = Map<u128, Seq<u8>>;

    closed spec fn view(&self) -> Map<u128, Seq<u8>> {
        assoc(object_entries(self.objects@))
    }
}

/// A copy of some bytes.
fn copy_bytes(b: &Vec<u8>) -> (r: Vec<u8>)
    ensures
        r@ == b@,
{
    let mut out: Vec<u8> = Vec::new();
    let mut i: usize = 0;
    while i < b.len()
        invariant
            i <= b@.len(),
            out@ == b@.take(i as int),
        decreases b@.len() - i,
    {
        out.push(b[i]);
        assert(b@.take(i + 1) =~= b@.take(i as int).push(b@[i as int]));
        i = i + 1;
    }
    assert(b@.take(b@.len() as int) =~= b@);
    out
}

impl MemoryStore {
    /// No artifact is kept twice.
    pub closed spec fn wf(&self) -> bool {
        distinct_keys(object_entries(self.objects@))
    }

    /// A store holding nothing.
    pub fn new() -> (m: MemoryStore)
        ensures
            m.wf(),
            m@ == Map::<u128, Seq<u8>>::empty(),
    {
        let m = MemoryStore { objects: Vec::new() };
        assert(m@ =~= Map::<u128, Seq<u8>>::empty());
        m
    }

    /// Where an artifact's bytes stand, if they are held.
    fn slot(&self, artifact: u128) -> (r: Option<usize>)
        requires
            self.wf(),
        ensures
            r matches Some(i) ==> i < self.objects@.len() && self.objects@[i as int].0 == artifact,
            r is None ==> !has_key(object_entries(self.objects@), artifact),
    {
        let mut i: usize = 0;
        while i < self.objects.len()
            invariant
                i <= self.objects@.len(),
                forall|m: int| 0 <= m < i ==> (#[trigger] self.objects@[m]).0 != artifact,
            decreases self.objects@.len() - i,
        {
            if self.objects[i].0 == artifact {
                return Some(i);
            }
            i = i + 1;
        }
        proof {
            if has_key(object_entries(self.objects@), artifact) {
                let m = choose|m: int| 0 <= m < object_entries(self.objects@).len() && (#[trigger] object_entries(self.objects@)[m]).0 == artifact;
                assert(self.objects@[m].0 == artifact);
            }
        }
        None
    }

    /// Store an artifact's bytes, replacing whatever was held for it.
    pub fn put(&mut self, artifact: u128, bytes: Vec<u8>)
        requires
            old(self).wf(),
        ensures
            final(self).wf(),
            final(self)@ == old(self)@.insert(artifact, bytes@),
    {
        let ghost before = object_entries(self.objects@);
        let ghost b = bytes@;
        match self.slot(artifact) {
            Some(i) => {
                self.objects.set(i, (artifact, bytes));
                proof {
                    lemma_assoc_update(before, i as int, b);
                    assert(object_entries(self.objects@) =~= before.update(i as int, (before[i as int].0, b)));
                }
            },
            None => {
                self.objects.push((artifact, bytes));
                proof {
                    lemma_assoc_push(before, artifact, b);
                    assert(object_entries(self.objects@) =~= before.push((artifact, b)));
                }
            },
        }
    }

    /// An artifact's bytes, or `None` where none are held for it.
    pub fn get(&self, artifact: u128) -> (r: Option<Vec<u8>>)
        requires
            self.wf(),
        ensures
            r is Some == self@.contains_key(artifact),
            r is Some ==> r.unwrap()@ == self@[artifact],
    {
        match self.slot(artifact) {
            Some(i) => {
                proof {
                    lemma_assoc_at(object_entries(self.objects@), i as int);
                }
                Some(copy_bytes(&self.objects[i].1))
            },
            None => None,
        }
    }

    /// Drop an artifact's bytes; dropping what is not held changes nothing.
    pub fn delete(&mut self, artifact: u128)
        requires
            old(self).wf(),
        ensures
            final(self).wf(),
            final(self)@ == old(self)@.remove(artifact),
    {
        let ghost before = object_entries(self.objects@);
        match self.slot(artifact) {
            Some(i) => {
                self.objects.remove(i);
                proof {
                    lemma_assoc_remove(before, i as int);
                    assert(object_entries(self.objects@) =~= before.remove(i as int));
                }
            },
            None => {
                assert(self@ =~= self@.remove(artifact));
            },
        }
    }
}

/// A read gives back what the last write stored for the artifact, a dropped
/// artifact reads as absent, and neither touches any other artifact's bytes.
pub proof fn law_a_read_gives_back_the_last_write(m: Map<u128, Seq<u8>>, artifact: u128, bytes: Seq<u8>, other: u128)
    requires
        other != artifact,
    ensures
        m.insert(artifact, bytes).contains_key(artifact),
        m.insert(artifact, bytes)[artifact] == bytes,
        !m.remove(artifact).contains_key(artifact),
        m.insert(artifact, bytes).contains_key(other) == m.contains_key(other),
        m.contains_key(other) ==> m.insert(artifact, bytes)[other] == m[other],
        m.remove(artifact).contains_key(other) == m.contains_key(other),
        m.contains_key(other) ==> m.remove(artifact)[other] == m[other],
{
}

} // verus!
