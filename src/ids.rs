//! Account and token identifiers, both opaque byte strings.

use vstd::prelude::*;

verus! {

/// Whether two byte strings are equal.
fn bytes_equal(a: &Vec<u8>, b: &Vec<u8>) -> (r: bool)
    ensures
        r == (a@ == b@),
{
    if a.len() != b.len() {
        return false;
    }
    let mut i: usize = 0;
    while i < a.len()
        invariant
            a@.len() == b@.len(),
            i <= a@.len(),
            forall|k: int| 0 <= k < i ==> a@[k] == b@[k],
        decreases a@.len() - i,
    {
        if a[i] != b[i] {
            return false;
        }
        i += 1;
    }
    assert(a@ =~= b@);
    true
}

/// A copy of a byte string.
fn copy_bytes(a: &Vec<u8>) -> (r: Vec<u8>)
    ensures
        r@ == a@,
{
    let mut r: Vec<u8> = Vec::new();
    let mut i: usize = 0;
    while i < a.len()
        invariant
            i <= a@.len(),
            r@ == a@.subrange(0, i as int),
        decreases a@.len() - i,
    {
        r.push(a[i]);
        i += 1;
        assert(r@ =~= a@.subrange(0, i as int));
    }
    assert(r@ =~= a@);
    r
}

/// The identity of an account.
pub struct Address {
    pub bytes: Vec<u8>,
}

impl View for Address {
    type V = Seq<u8>;

    open spec fn view(&self) -> Seq<u8> {
        self.bytes@
    }
}

impl Address {
    pub fn new(bytes: Vec<u8>) -> (r: Address)
        ensures
            r@ == bytes@,
    {
        Address { bytes }
    }

    /// Whether both name the same account.
    pub fn same_as(&self, other: &Address) -> (r: bool)
        ensures
            r == (self@ == other@),
    {
        bytes_equal(&self.bytes, &other.bytes)
    }

    /// A copy of this address.
    pub fn duplicate(&self) -> (r: Address)
        ensures
            r@ == self@,
    {
        Address { bytes: copy_bytes(&self.bytes) }
    }
}

/// The identifier of a fungible token.
pub struct TokenId {
    pub bytes: Vec<u8>,
}

impl View for TokenId {
    type V = Seq<u8>;

    open spec fn view(&self) -> Seq<u8> {
        self.bytes@
    }
}

impl TokenId {
    pub fn new(bytes: Vec<u8>) -> (r: TokenId)
        ensures
            r@ == bytes@,
    {
        TokenId { bytes }
    }

    /// Whether both name the same token.
    pub fn same_as(&self, other: &TokenId) -> (r: bool)
        ensures
            r == (self@ == other@),
    {
        bytes_equal(&self.bytes, &other.bytes)
    }
}

} // verus!
