use vstd::prelude::*;
use crate::manifest::{Manifest, ManifestV};
use crate::metadata::{MetadataV, TableMetadata};

verus! {

/// One object held by the store: a columnar file image, a manifest
/// document, or a table-metadata document.
#[derive(Debug)]
pub enum StoredBlob {
    Data(Vec<u8>),
    ManifestDoc(Manifest),
    MetadataDoc(TableMetadata),
}

/// Model of a stored object.
pub enum BlobV {
    Data(Seq<u8>),
    ManifestDoc(ManifestV),
    MetadataDoc(MetadataV),
}

impl View for StoredBlob {
    type V = BlobV;

    open spec fn view(&self) -> BlobV {
        match self {
            StoredBlob::Data(b) => BlobV::Data(b@),
            StoredBlob::ManifestDoc(m) => BlobV::ManifestDoc(m@),
            StoredBlob::MetadataDoc(m) => BlobV::MetadataDoc(m@),
        }
    }
}

/// The object at the given key, if any.
pub open spec fn store_lookup(objects: Seq<(String, StoredBlob)>, key: Seq<char>) -> Option<BlobV>
    decreases objects.len(),
{
    if objects.len() == 0 {
        None
    } else if objects[0].0@ == key {
        Some(objects[0].1@)
    } else {
        store_lookup(objects.skip(1), key)
    }
}

/// What one conditional write did.
#[derive(Clone, Copy, PartialEq, Eq, Structural, Debug)]
pub enum PutOutcome {
    /// The key was free and now holds the object.
    Stored,
    /// The key already holds an object, which is left untouched.
    AlreadyPresent,
    /// A transient fault; nothing changed.
    Unavailable,
}

/// The blob store that holds data files, manifests and metadata documents:
/// opaque keys, create-if-absent writes, immediate reads, and atomic
/// visibility per object.  Objects are never overwritten and never removed.
/// `pending_faults` injects transient write faults: while it is positive,
/// each write fails once and consumes one fault.
#[derive(Debug)]
pub struct ObjectStore {
    pub objects: Vec<(String, StoredBlob)>,
    pub pending_faults: u64,
}

impl ObjectStore {
    /// No two objects share a key.
    pub open spec fn wf(&self) -> bool {
        forall|i: int, j: int|
            0 <= i < j < self.objects@.len() ==> (#[trigger] self.objects@[i]).0@ != (
            #[trigger] self.objects@[j]).0@
    }

    /// An empty store with no injected faults.
    pub fn new() -> (s: Self)
        ensures
            s.objects@.len() == 0,
            s.pending_faults == 0,
            s.wf(),
    {
        ObjectStore { objects: Vec::new(), pending_faults: 0 }
    }

    /// Arms the next `n` writes to fail with a transient fault.
    pub fn inject_faults(&mut self, n: u64)
        ensures
            final(self).objects == old(self).objects,
            final(self).pending_faults == n,
            old(self).wf() ==> final(self).wf(),
    {
        self.pending_faults = n;
    }

    /// Reads the object at a key.  Reads are immediate: anything a
    /// successful write stored is visible.
    pub fn get<'a>(&'a self, path: &String) -> (r: Option<&'a StoredBlob>)
        ensures
            match r {
                Some(b) => store_lookup(self.objects@, path@) == Some(b@),
                None => store_lookup(self.objects@, path@) is None,
            },
    {
        let ghost os = self.objects@;
        proof {
            assert(os.skip(0) =~= os);
        }
        for k in 0..self.objects.len()
            invariant
                os == self.objects@,
                store_lookup(os, path@) == store_lookup(os.skip(k as int), path@),
        {
            proof {
                assert(os.skip(k as int)[0] == os[k as int]);
                assert(os.skip(k as int).skip(1) =~= os.skip(k as int + 1));
            }
            if self.objects[k].0 == *path {
                return Some(&self.objects[k].1);
            }
        }
        None
    }

    /// Writes an object at a key only if the key is free: the store's
    /// create-if-absent primitive.  An existing object is never replaced,
    /// so a reader can never observe an object changing.  While faults are
    /// armed, the write fails instead and nothing changes.
    pub fn put_if_absent(&mut self, path: String, blob: StoredBlob) -> (r: PutOutcome)
        requires
            old(self).wf(),
        ensures
            final(self).wf(),
            final(self).pending_faults == (if old(self).pending_faults > 0 {
                (old(self).pending_faults - 1) as u64
            } else {
                0u64
            }),
            r == PutOutcome::Unavailable <==> old(self).pending_faults > 0,
            r == PutOutcome::AlreadyPresent <==> (old(self).pending_faults == 0 && store_lookup(
                old(self).objects@,
                path@,
            ) is Some),
            r == PutOutcome::Stored <==> (old(self).pending_faults == 0 && store_lookup(
                old(self).objects@,
                path@,
            ) is None),
            r != PutOutcome::Stored ==> final(self).objects == old(self).objects,
            forall|k: Seq<char>|
                #[trigger] store_lookup(final(self).objects@, k) == (if r == PutOutcome::Stored
                    && k == path@ {
                    Some(blob@)
                } else {
                    store_lookup(old(self).objects@, k)
                }),
    {
        if self.pending_faults > 0 {
            self.pending_faults = self.pending_faults - 1;
            return PutOutcome::Unavailable;
        }
        let present = match self.get(&path) {
            Some(_) => true,
            None => false,
        };
        if present {
            return PutOutcome::AlreadyPresent;
        }
        let ghost old_objects = self.objects@;
        let ghost pathv = path@;
        let ghost blobv = blob@;
        self.objects.push((path, blob));
        proof {
            let item = self.objects@.last();
            assert(self.objects@ == old_objects.push(item));
            assert(item.0@ == pathv && item.1@ == blobv);
            assert forall|k: Seq<char>| #[trigger] store_lookup(self.objects@, k) == (if k == pathv {
                Some(blobv)
            } else {
                store_lookup(old_objects, k)
            }) by {
                lemma_lookup_snoc(old_objects, item, k);
            }
            assert forall|i: int, j: int|
                0 <= i < j < self.objects@.len() implies (#[trigger] self.objects@[i]).0@ != (
            #[trigger] self.objects@[j]).0@ by {
                if j == self.objects@.len() - 1 {
                    if self.objects@[i].0@ == self.objects@[j].0@ {
                        lemma_lookup_present(old_objects, i, pathv);
                    }
                }
            }
        }
        PutOutcome::Stored
    }
}

/// Looking a key up after appending one object: the new object answers its
/// own key where it was absent, and every other key answers as before.
proof fn lemma_lookup_snoc(
    objects: Seq<(String, StoredBlob)>,
    item: (String, StoredBlob),
    key: Seq<char>,
)
    requires
        store_lookup(objects, item.0@) is None,
    ensures
        store_lookup(objects.push(item), key) == (if key == item.0@ {
            Some(item.1@)
        } else {
            store_lookup(objects, key)
        }),
    decreases objects.len(),
{
    if objects.len() == 0 {
        assert(objects.push(item)[0] == item);
        assert(objects.push(item).skip(1) =~= Seq::<(String, StoredBlob)>::empty());
        if key == item.0@ {
            assert(store_lookup(objects.push(item), key) == Some(item.1@));
        } else {
            assert(store_lookup(objects.push(item), key) == store_lookup(
                objects.push(item).skip(1),
                key,
            ));
            assert(store_lookup(objects.push(item), key) is None);
            assert(store_lookup(objects, key) is None);
        }
    } else {
        assert(objects.push(item)[0] == objects[0]);
        assert(objects.push(item).skip(1) =~= objects.skip(1).push(item));
        assert(store_lookup(objects.skip(1), item.0@) is None);
        lemma_lookup_snoc(objects.skip(1), item, key);
        if objects[0].0@ == key {
            assert(store_lookup(objects.push(item), key) == Some(objects[0].1@));
            assert(key != item.0@);
            assert(store_lookup(objects, key) == Some(objects[0].1@));
        } else {
            assert(store_lookup(objects.push(item), key) == store_lookup(
                objects.skip(1).push(item),
                key,
            ));
            assert(store_lookup(objects, key) == store_lookup(objects.skip(1), key));
        }
    }
}

/// A key that some object holds answers a lookup.
proof fn lemma_lookup_present(objects: Seq<(String, StoredBlob)>, i: int, key: Seq<char>)
    requires
        0 <= i < objects.len(),
        objects[i].0@ == key,
    ensures
        store_lookup(objects, key) is Some,
    decreases objects.len(),
{
    if objects[0].0@ != key {
        assert(objects.skip(1)[i - 1] == objects[i]);
        lemma_lookup_present(objects.skip(1), i - 1, key);
    }
}

} // verus!
