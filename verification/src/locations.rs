use vstd::prelude::*;

verus! {

/// A small stable handle standing for an interned station code.
#[derive(Debug, PartialEq, Eq, Structural, Clone, Copy, Hash)]
pub struct LocationCodeHandle {
    pub inner: u16,
}

/// An append-only interner from station codes to small handles.
/// Handles are stable once issued and resolve back to the exact code.
#[derive(Debug, Clone)]
pub struct LocationCache {
    storage: Vec<String>,
}

impl View for LocationCache {
    type V = Seq<Seq<char>>;

    closed spec fn view(&self) -> Seq<Seq<char>> {
        self.storage.deep_view()
    }
}

impl LocationCache {
    /// No code is stored twice, and no more codes than handles can index.
    pub open spec fn wf(&self) -> bool {
        &&& (forall|i: int, j: int|
            0 <= i < j < self@.len() ==> #[trigger] self@[i] != #[trigger] self@[j])
        &&& self@.len() <= 65536
    }

    pub fn new() -> (r: Self)
        ensures
            r@ =~= Seq::<Seq<char>>::empty(),
            r.wf(),
    {
        let r = LocationCache { storage: Vec::new() };
        proof {
            assert(r.storage.deep_view() =~= Seq::<Seq<char>>::empty());
        }
        r
    }

    pub fn with_capacity(size: usize) -> (r: Self)
        ensures
            r@ =~= Seq::<Seq<char>>::empty(),
            r.wf(),
    {
        let r = LocationCache { storage: Vec::with_capacity(size) };
        proof {
            assert(r.storage.deep_view() =~= Seq::<Seq<char>>::empty());
        }
        r
    }

    pub fn len(&self) -> (r: usize)
        ensures
            r == self@.len(),
    {
        self.storage.len()
    }

    /// Looks the code up without inserting it.
    pub fn lookup_handle(&self, code: &str) -> (r: Option<LocationCodeHandle>)
        requires
            self.wf(),
        ensures
            (match r {
                Some(h) => h.inner < self@.len() && self@[h.inner as int] == code@,
                None => forall|i: int| 0 <= i < self@.len() ==> self@[i] != code@,
            }),
    {
        let needle = code.to_owned();
        let n = self.storage.len();
        let mut i: usize = 0;
        while i < n
            invariant
                0 <= i <= n == self@.len() <= 65536,
                needle@ == code@,
                self@ == self.storage.deep_view(),
                self@.len() == self.storage@.len(),
                forall|j: int| 0 <= j < i ==> self@[j] != code@,
            decreases n - i,
        {
            assert(self.storage@[i as int]@ == self@[i as int]);
            if self.storage[i] == needle {
                return Some(LocationCodeHandle { inner: i as u16 });
            }
            i = i + 1;
        }
        None
    }

    /// Interns the code: returns the existing handle if the code is known,
    /// otherwise appends it and returns the fresh handle. Either way the
    /// returned handle resolves to exactly this code afterwards.
    pub fn get_handle(&mut self, code: &str) -> (r: LocationCodeHandle)
        requires
            old(self).wf(),
            old(self)@.len() < 65536,
        ensures
            final(self).wf(),
            r.inner < final(self)@.len(),
            final(self)@[r.inner as int] == code@,
            (if exists|i: int| 0 <= i < old(self)@.len() && old(self)@[i] == code@ {
                final(self)@ == old(self)@ && old(self)@[r.inner as int] == code@
            } else {
                final(self)@ =~= old(self)@.push(code@) && r.inner == old(self)@.len()
            }),
    {
        match self.lookup_handle(code) {
            Some(h) => {
                assert(exists|i: int| 0 <= i < self@.len() && self@[i] == code@) by {
                    assert(self@[h.inner as int] == code@);
                }
                h
            },
            None => {
                let idx = self.storage.len();
                self.storage.push(code.to_owned());
                proof {
                    assert(self.storage.deep_view() =~= old(self).storage.deep_view().push(
                        code@,
                    ));
                }
                LocationCodeHandle { inner: idx as u16 }
            },
        }
    }

    /// Resolves a handle back to the interned code.
    pub fn get_str(&self, h: &LocationCodeHandle) -> (r: Option<&str>)
        ensures
            (match r {
                Some(s) => h.inner < self@.len() && s@ == self@[h.inner as int],
                None => h.inner >= self@.len(),
            }),
    {
        proof {
            assert(self@.len() == self.storage@.len());
        }
        if (h.inner as usize) < self.storage.len() {
            let s: &String = &self.storage[h.inner as usize];
            assert(s@ == self@[h.inner as int]);
            Some(s.as_str())
        } else {
            None
        }
    }

    /// The full table of interned codes, in handle order.
    pub fn codes(&self) -> (r: &Vec<String>)
        ensures
            r.deep_view() == self@,
    {
        &self.storage
    }
}

/// Interned codes are pairwise distinct, so every code maps to exactly
/// one handle: together with the contracts of `get_handle` (a re-intern
/// returns the same handle and leaves the table unchanged) and `get_str`
/// (a handle resolves to the code it was issued for), the interner is a
/// bijection between its codes and their handles.
pub proof fn lemma_interner_injective(c: LocationCache, i: int, j: int)
    requires
        c.wf(),
        0 <= i < c@.len(),
        0 <= j < c@.len(),
        c@[i] == c@[j],
    ensures
        i == j,
{
}

} // verus!
