use vstd::prelude::*;

verus! {

/// The model of a pointer value: the pointed-to path, if any.
pub open spec fn pointer_view(p: Option<String>) -> Option<Seq<char>> {
    match p {
        Some(s) => Some(s@),
        None => None,
    }
}

/// The catalog: the single mutable cell per table that names the current
/// table-metadata document.  It is mutated only by compare-and-swap, which
/// is the sole serialization point between concurrent writers.
/// `pending_faults` injects transient faults: while it is positive, each
/// operation fails once and consumes one fault.
#[derive(Debug)]
pub struct Catalog {
    pub pointer: Option<String>,
    pub pending_faults: u64,
}

impl Catalog {
    /// A catalog with no table registered and no injected faults.
    pub fn new() -> (c: Self)
        ensures
            c.pointer is None,
            c.pending_faults == 0,
    {
        Catalog { pointer: None, pending_faults: 0 }
    }

    /// Arms the next `n` operations to fail with a transient fault.
    pub fn inject_faults(&mut self, n: u64)
        ensures
            final(self).pointer == old(self).pointer,
            final(self).pending_faults == n,
    {
        self.pending_faults = n;
    }

    /// Reads the current pointer.  While faults are armed, the read fails
    /// instead; either way the pointer is untouched.
    pub fn read_pointer(&mut self) -> (r: Result<Option<String>, ()>)
        ensures
            final(self).pointer == old(self).pointer,
            final(self).pending_faults == (if old(self).pending_faults > 0 {
                (old(self).pending_faults - 1) as u64
            } else {
                0u64
            }),
            r is Ok <==> old(self).pending_faults == 0,
            r matches Ok(p) ==> pointer_view(p) == pointer_view(old(self).pointer),
    {
        if self.pending_faults > 0 {
            self.pending_faults = self.pending_faults - 1;
            return Err(());
        }
        match &self.pointer {
            Some(p) => Ok(Some(p.clone())),
            None => Ok(None),
        }
    }

    /// Swaps the pointer to a new value only if it still equals the
    /// expected prior value: the conditional update that serializes
    /// concurrent commits.  On a mismatch nothing changes, and the caller
    /// must re-read and rebase.  While faults are armed, the operation
    /// fails instead; a failed or refused swap never moves the pointer.
    pub fn compare_and_swap(&mut self, expected: &Option<String>, new_pointer: String) -> (r:
        Result<bool, ()>)
        ensures
            final(self).pending_faults == (if old(self).pending_faults > 0 {
                (old(self).pending_faults - 1) as u64
            } else {
                0u64
            }),
            r is Ok <==> old(self).pending_faults == 0,
            r == Result::<bool, ()>::Ok(true) ==> pointer_view(old(self).pointer) == pointer_view(
                *expected,
            ) && pointer_view(final(self).pointer) == Some(new_pointer@),
            r == Result::<bool, ()>::Ok(false) ==> pointer_view(old(self).pointer) != pointer_view(
                *expected,
            ) && final(self).pointer == old(self).pointer,
            r is Err ==> final(self).pointer == old(self).pointer,
            r is Ok && pointer_view(old(self).pointer) == pointer_view(*expected) ==> r
                == Result::<bool, ()>::Ok(true),
    {
        if self.pending_faults > 0 {
            self.pending_faults = self.pending_faults - 1;
            return Err(());
        }
        let matches_expected = match (&self.pointer, expected) {
            (None, None) => true,
            (Some(a), Some(b)) => *a == *b,
            _ => false,
        };
        proof {
            assert(matches_expected == (pointer_view(self.pointer) == pointer_view(*expected)));
        }
        if matches_expected {
            self.pointer = Some(new_pointer);
            Ok(true)
        } else {
            Ok(false)
        }
    }
}

} // verus!
