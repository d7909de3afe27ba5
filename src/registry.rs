//! The registry of live foreign objects, keyed by the handles it issues.
//!
//! Handles are issued in increasing order and never issued twice, so a handle
//! names at most one object for the registry's whole life.
use vstd::prelude::*;

verus! {

/// Why a registry operation failed.
#[derive(Debug, Clone, Copy, PartialEq, Eq, Structural)]
pub enum RegistryError {
    /// Every handle has been issued.
    Exhausted,
    /// No live object has this handle.
    UnknownHandle,
}

/// Live objects by handle.
pub struct HandleRegistry<T> {
    next: u64,
    entries: Vec<(u64, T)>,
    contents: Ghost<Map<u64, T>>,
}

impl<T> View for HandleRegistry<T> {
    type V = Map<u64, T>;

    closed spec fn view(&self) -> Map<u64, T> {
        self.contents@
    }
}

impl<T> HandleRegistry<T> {
    /// The least handle that has not been issued yet.
    pub closed spec fn next_handle(&self) -> u64 {
        self.next
    }

    /// The entries hold exactly the live objects, in increasing handle order,
    /// below the next handle to issue.
    pub closed spec fn wf(&self) -> bool {
        &&& 1 <= self.next
        &&& forall|i: int, j: int|
            0 <= i < j < self.entries@.len() ==> (#[trigger] self.entries@[i]).0
                < (#[trigger] self.entries@[j]).0
        &&& forall|i: int|
            0 <= i < self.entries@.len() ==> {
                let e = #[trigger] self.entries@[i];
                &&& e.0 < self.next
                &&& self.contents@.contains_key(e.0)
                &&& self.contents@[e.0] == e.1
            }
        &&& forall|h: u64|
            #[trigger] self.contents@.contains_key(h) ==> exists|i: int|
                0 <= i < self.entries@.len() && (#[trigger] self.entries@[i]).0 == h
    }

    /// An empty registry.
    pub fn new() -> (r: HandleRegistry<T>)
        ensures
            r.wf(),
            r@ == Map::<u64, T>::empty(),
            r.next_handle() == 1,
    {
        HandleRegistry { next: 1, entries: Vec::new(), contents: Ghost(Map::empty()) }
    }

    /// Number of live objects.
    pub fn len(&self) -> (r: usize)
        requires
            self.wf(),
        ensures
            r == self@.len(),
    {
        proof {
            self.lemma_len();
        }
        self.entries.len()
    }

    proof fn lemma_len(&self)
        requires
            self.wf(),
        ensures
            self@.dom().finite(),
            self@.len() == self.entries@.len(),
        decreases self.entries@.len(),
    {
        let keys = self.entries@.map_values(|e: (u64, T)| e.0);
        assert(keys.no_duplicates()) by {
            assert forall|i: int, j: int| 0 <= i < keys.len() && 0 <= j < keys.len() && i != j
                implies keys[i] != keys[j] by {
                if i < j {
                    assert(self.entries@[i].0 < self.entries@[j].0);
                } else {
                    assert(self.entries@[j].0 < self.entries@[i].0);
                }
            }
        }
        assert(keys.to_set() =~= self@.dom()) by {
            assert forall|h: u64| keys.to_set().contains(h) implies self@.dom().contains(h) by {
                let i = choose|i: int| 0 <= i < keys.len() && keys[i] == h;
                assert(self.entries@[i].0 == h);
            }
            assert forall|h: u64| self@.dom().contains(h) implies keys.to_set().contains(h) by {
                let i = choose|i: int| 0 <= i < self.entries@.len() && (#[trigger] self.entries@[i]).0 == h;
                assert(keys[i] == h);
            }
        }
        keys.unique_seq_to_set();
    }

    /// Registers `obj` under a fresh handle, one that no object has ever had.
    pub fn register(&mut self, obj: T) -> (r: Result<u64, RegistryError>)
        requires
            old(self).wf(),
        ensures
            final(self).wf(),
            r is Ok <==> old(self).next_handle() < u64::MAX,
            r matches Ok(h) ==> {
                &&& !old(self)@.contains_key(h)
                &&& h == old(self).next_handle()
                &&& final(self)@ == old(self)@.insert(h, obj)
                &&& final(self).next_handle() == h + 1
            },
            r matches Err(e) ==> e == RegistryError::Exhausted && final(self)@ == old(self)@
                && final(self).next_handle() == old(self).next_handle(),
    {
        if self.next == u64::MAX {
            return Err(RegistryError::Exhausted);
        }
        let h = self.next;
        proof {
            if self.contents@.contains_key(h) {
                let i = choose|i: int| 0 <= i < self.entries@.len() && (#[trigger] self.entries@[i]).0 == h;
                assert(self.entries@[i].0 < self.next);
            }
        }
        let ghost before = self.entries@;
        self.entries.push((h, obj));
        self.next = h + 1;
        self.contents = Ghost(self.contents@.insert(h, obj));
        proof {
            assert forall|k: u64| #[trigger] self.contents@.contains_key(k) implies exists|i: int|
                0 <= i < self.entries@.len() && (#[trigger] self.entries@[i]).0 == k by {
                if k == h {
                    assert(self.entries@[before.len() as int].0 == k);
                } else {
                    let i = choose|i: int| 0 <= i < before.len() && (#[trigger] before[i]).0 == k;
                    assert(self.entries@[i].0 == k);
                }
            }
        }
        Ok(h)
    }

    /// The object registered under `h`, if it is live.
    pub fn lookup(&self, h: u64) -> (r: Option<&T>)
        requires
            self.wf(),
        ensures
            r is Some <==> self@.contains_key(h),
            r matches Some(v) ==> *v == self@[h],
    {
        match self.position(h) {
            Some(i) => Some(&self.entries[i].1),
            None => None,
        }
    }

    /// Where `h` stands in the entries, if it is live.
    fn position(&self, h: u64) -> (r: Option<usize>)
        requires
            self.wf(),
        ensures
            r is Some <==> self@.contains_key(h),
            r matches Some(i) ==> i < self.entries@.len() && self.entries@[i as int].0 == h,
    {
        let mut i: usize = 0;
        while i < self.entries.len()
            invariant
                self.wf(),
                i <= self.entries@.len(),
                forall|j: int| 0 <= j < i ==> (#[trigger] self.entries@[j]).0 != h,
            decreases self.entries@.len() - i,
        {
            if self.entries[i].0 == h {
                return Some(i);
            }
            i = i + 1;
        }
        None
    }

    /// Releases the object registered under `h` and hands it back.
    pub fn release(&mut self, h: u64) -> (r: Result<T, RegistryError>)
        requires
            old(self).wf(),
        ensures
            final(self).wf(),
            final(self).next_handle() == old(self).next_handle(),
            r is Ok <==> old(self)@.contains_key(h),
            r matches Ok(v) ==> v == old(self)@[h] && final(self)@ == old(self)@.remove(h),
            r matches Err(e) ==> e == RegistryError::UnknownHandle && final(self)@ == old(self)@,
    {
        let i = match self.position(h) {
            Some(i) => i,
            None => return Err(RegistryError::UnknownHandle),
        };
        let ghost before = self.entries@;
        let (_, obj) = self.entries.remove(i);
        self.contents = Ghost(self.contents@.remove(h));
        proof {
            let after = self.entries@;
            assert forall|j: int| 0 <= j < after.len() implies #[trigger] after[j] == before[if j
                < i { j } else { j + 1 }] by {}
            assert forall|j: int, k: int| 0 <= j < k < after.len() implies (#[trigger] after[j]).0
                < (#[trigger] after[k]).0 by {
                let jj = if j < i { j } else { j + 1 };
                let kk = if k < i { k } else { k + 1 };
                assert(after[j] == before[jj] && after[k] == before[kk]);
            }
            assert forall|j: int| 0 <= j < after.len() implies {
                let e = #[trigger] after[j];
                &&& e.0 < self.next
                &&& self.contents@.contains_key(e.0)
                &&& self.contents@[e.0] == e.1
            } by {
                let jj = if j < i { j } else { j + 1 };
                assert(after[j] == before[jj]);
                assert(before[jj].0 != h) by {
                    if jj < i {
                        assert(before[jj].0 < before[i as int].0);
                    } else {
                        assert(before[i as int].0 < before[jj].0);
                    }
                }
            }
            assert forall|k: u64| #[trigger] self.contents@.contains_key(k) implies exists|j: int|
                0 <= j < after.len() && (#[trigger] after[j]).0 == k by {
                let jj = choose|jj: int| 0 <= jj < before.len() && (#[trigger] before[jj]).0 == k;
                assert(jj != i);
                let j = if jj < i { jj } else { jj - 1 };
                assert(after[j] == before[jj]);
            }
        }
        Ok(obj)
    }
}

} // verus!
