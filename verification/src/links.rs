use vstd::prelude::*;

use crate::locations::{LocationCache, LocationCodeHandle};

verus! {

/// Key identifying an inter-station link; lookup is undirected, so a key
/// built the other way around finds the same entry.
#[derive(Debug, PartialEq, Eq, Structural, Clone, Copy, Hash)]
pub struct LinkCode(pub LocationCodeHandle, pub LocationCodeHandle);

/// An inter-station link as the repository reads it: its two endpoints.
/// The drawn path and its distances stay with the renderer.
#[derive(Debug, PartialEq, Eq, Structural, Clone, Copy)]
pub struct Link {
    pub from: LocationCodeHandle,
    pub to: LocationCodeHandle,
}

impl Link {
    pub fn link_code(&self) -> (r: LinkCode)
        ensures
            r == LinkCode(self.from, self.to),
    {
        LinkCode(self.from, self.to)
    }

    /// Builds a link from its endpoint codes, interning both.
    pub fn new_from_codes(from_code: &str, to_code: &str, locations: &mut LocationCache) -> (r:
        Link)
        requires
            old(locations).wf(),
            old(locations)@.len() + 2 <= 65536,
        ensures
            final(locations).wf(),
            crate::parsing::interner_extends(old(locations)@, final(locations)@),
            final(locations)@.len() <= old(locations)@.len() + 2,
            r.from.inner < final(locations)@.len() && final(locations)@[r.from.inner as int]
                == from_code@,
            r.to.inner < final(locations)@.len() && final(locations)@[r.to.inner as int]
                == to_code@,
    {
        let from = locations.get_handle(from_code);
        let to = locations.get_handle(to_code);
        Link { from, to }
    }
}

/// The lookup table over the link list.
pub struct LinkIndex {
    codes: Vec<LinkCode>,
}

impl LinkIndex {
    pub closed spec fn spec_codes(&self) -> Seq<LinkCode> {
        self.codes@
    }

    /// Whether the key is present exactly as stored.
    pub open spec fn spec_contains_directed(&self, code: LinkCode) -> bool {
        exists|i: int| 0 <= i < self.spec_codes().len() && #[trigger] self.spec_codes()[i] == code
    }

    /// Whether the key is present in either orientation.
    pub open spec fn spec_contains_undirected(&self, code: LinkCode) -> bool {
        self.spec_contains_directed(code) || self.spec_contains_directed(
            LinkCode(code.1, code.0),
        )
    }

    /// Builds the index from the link list, in order.
    pub fn new(links: &Vec<Link>) -> (r: LinkIndex)
        ensures
            r.spec_codes().len() == links@.len(),
            forall|i: int|
                0 <= i < links@.len() ==> #[trigger] r.spec_codes()[i] == LinkCode(
                    links@[i].from,
                    links@[i].to,
                ),
    {
        let mut codes: Vec<LinkCode> = Vec::new();
        let mut i: usize = 0;
        let n = links.len();
        while i < n
            invariant
                0 <= i <= n == links@.len(),
                codes@.len() == i,
                forall|j: int|
                    0 <= j < i ==> #[trigger] codes@[j] == LinkCode(
                        links@[j].from,
                        links@[j].to,
                    ),
            decreases n - i,
        {
            codes.push(links[i].link_code());
            i = i + 1;
        }
        LinkIndex { codes }
    }

    pub fn contains_directed(&self, code: &LinkCode) -> (r: bool)
        ensures
            r == self.spec_contains_directed(*code),
    {
        let n = self.codes.len();
        let mut i: usize = 0;
        while i < n
            invariant
                0 <= i <= n == self.spec_codes().len(),
                forall|j: int| 0 <= j < i ==> #[trigger] self.spec_codes()[j] != *code,
            decreases n - i,
        {
            let c = &self.codes[i];
            if c.0.inner == code.0.inner && c.1.inner == code.1.inner {
                assert(self.spec_codes()[i as int] == *code);
                return true;
            }
            proof {
                assert(self.spec_codes()[i as int] != *code);
            }
            i = i + 1;
        }
        false
    }

    /// Undirected membership: the key, or the key reversed, is stored.
    pub fn contains_undirected(&self, code: &LinkCode) -> (r: bool)
        ensures
            r == self.spec_contains_undirected(*code),
    {
        if self.contains_directed(code) {
            return true;
        }
        let reversed = LinkCode(code.1, code.0);
        self.contains_directed(&reversed)
    }
}

/// Undirected lookup does not care which way around a key is built: a key
/// and its reversal are either both found or both absent.
pub proof fn lemma_undirected_symmetric(index: LinkIndex, a: LocationCodeHandle, b: LocationCodeHandle)
    ensures
        index.spec_contains_undirected(LinkCode(a, b)) == index.spec_contains_undirected(
            LinkCode(b, a),
        ),
{
}

} // verus!
