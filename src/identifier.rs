//! The stack of names in scope while compiling, which turns a name into a
//! de Bruijn depth.
use vstd::prelude::*;

verus! {

/// How far below the top of `names` the nearest frame named `key` lies,
/// searching from `d` frames below the top on.
pub open spec fn depth_from(names: Seq<Seq<u8>>, key: Seq<u8>, d: nat) -> Option<nat>
    decreases names.len() - d,
{
    if d >= names.len() {
        None
    } else if names[names.len() - 1 - d] == key {
        Some(d)
    } else {
        depth_from(names, key, d + 1)
    }
}

/// The de Bruijn depth of `key`: how far below the top its nearest frame lies.
pub open spec fn depth_of(names: Seq<Seq<u8>>, key: Seq<u8>) -> Option<nat> {
    depth_from(names, key, 0)
}

/// A push-down stack of names, each a UTF-8 byte string.
pub struct IdentifierTable {
    identifiers: Vec<Vec<u8>>,
}

impl View for IdentifierTable {
    type V = Seq<Seq<u8>>;

    closed spec fn view(&self) -> Seq<Seq<u8>> {
        self.identifiers@.map_values(|n: Vec<u8>| n@)
    }
}

/// Whether two byte strings are equal.
pub fn bytes_equal(a: &[u8], b: &[u8]) -> (r: bool)
    ensures
        r == (a@ == b@),
{
    if a.len() != b.len() {
        return false;
    }
    let mut i: usize = 0;
    while i < a.len()
        invariant
            a.len() == b.len(),
            i <= a.len(),
            forall|k: int| 0 <= k < i ==> a@[k] == b@[k],
        decreases a.len() - i,
    {
        if a[i] != b[i] {
            return false;
        }
        i += 1;
    }
    assert(a@ =~= b@);
    true
}

impl IdentifierTable {
    /// An empty table.
    pub fn new() -> (r: Self)
        ensures
            r@ == Seq::<Seq<u8>>::empty(),
    {
        IdentifierTable { identifiers: Vec::new() }
    }

    /// Pushes a frame named `key`; returns its index from the bottom.
    pub fn push(&mut self, key: &[u8]) -> (r: usize)
        ensures
            final(self)@ == old(self)@.push(key@),
            r == old(self)@.len(),
    {
        let depth = self.identifiers.len();
        let mut name: Vec<u8> = Vec::new();
        name.extend_from_slice(key);
        assert(name@ =~= key@);
        self.identifiers.push(name);
        proof {
            assert(self@ =~= old(self)@.push(key@));
        }
        depth
    }

    /// Removes the top frame.
    pub fn pop(&mut self)
        requires
            old(self)@.len() > 0,
        ensures
            final(self)@ == old(self)@.drop_last(),
    {
        self.identifiers.pop();
        proof {
            assert(self@ =~= old(self)@.drop_last());
        }
    }

    /// The number of frames.
    pub fn len(&self) -> (r: usize)
        ensures
            r == self@.len(),
    {
        self.identifiers.len()
    }

    /// The name of the frame at index `ident` from the bottom.
    pub fn name(&self, ident: usize) -> (r: &[u8])
        requires
            ident < self@.len(),
        ensures
            r@ == self@[ident as int],
    {
        self.identifiers[ident].as_slice()
    }

    /// Whether some frame is named `key`.
    pub fn is_defined(&self, key: &[u8]) -> (r: bool)
        ensures
            r == (depth_of(self@, key@) is Some),
    {
        self.distance_from_top(key).is_some()
    }

    /// How far below the top the nearest frame named `key` lies: its de Bruijn
    /// depth. Nothing where no frame has that name.
    pub fn distance_from_top(&self, key: &[u8]) -> (r: Option<usize>)
        ensures
            r == (match depth_of(self@, key@) {
                Some(d) => Some(d as usize),
                None => None::<usize>,
            }),
            depth_of(self@, key@) matches Some(d) ==> d < self@.len(),
    {
        let n = self.identifiers.len();
        let mut d: usize = 0;
        while d < n
            invariant
                n == self@.len(),
                d <= n,
                depth_of(self@, key@) == depth_from(self@, key@, d as nat),
            decreases n - d,
        {
            if bytes_equal(self.identifiers[n - 1 - d].as_slice(), key) {
                return Some(d);
            }
            d += 1;
        }
        None
    }

    /// The index from the bottom of the nearest frame named `key`.
    pub fn distance_from_root(&self, key: &[u8]) -> (r: Option<usize>)
        ensures
            r == (match depth_of(self@, key@) {
                Some(d) => Some((self@.len() - 1 - d) as usize),
                None => None::<usize>,
            }),
    {
        assert(self@.len() == self.identifiers@.len());
        match self.distance_from_top(key) {
            Some(d) => Some(self.identifiers.len() - 1 - d),
            None => None,
        }
    }
}

} // verus!
