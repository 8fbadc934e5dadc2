//! The key all holdings are aggregated for.

use candid::Principal;
use vstd::prelude::*;

verus! {

/// Longest identity, in bytes.
pub const MAX_IDENTITY_BYTES: usize = 29;

/// An identity: at most [`MAX_IDENTITY_BYTES`] opaque bytes.
#[derive(Debug, PartialEq, Eq)]
pub struct Identity {
    bytes: Vec<u8>,
}

impl View for Identity {
    type V = Seq<u8>;

    closed spec fn view(&self) -> Seq<u8> {
        self.bytes@
    }
}

/// The textual form of the identity with the given bytes: its checksum and
/// bytes in base 32, grouped by dashes.
pub uninterp spec fn principal_text(bytes: Seq<u8>) -> Seq<char>;

/// Calls `Principal::from_slice`, which panics on more than 29 bytes, and
/// `Principal::to_text` on the result: the textual form of the identity.
#[verifier::external_body]
fn principal_to_text(bytes: &Vec<u8>) -> (s: String)
    requires
        bytes@.len() <= MAX_IDENTITY_BYTES,
    ensures
        s@ == principal_text(bytes@),
{
    Principal::from_slice(bytes).to_text()
}

/// The bytes of the identity that a text stands for, where the text is the
/// textual form of one.
pub uninterp spec fn principal_parse(text: Seq<char>) -> Option<Seq<u8>>;

/// Calls `Principal::from_text` and `Principal::as_slice` on the result:
/// the bytes of the identity, at most 29, or `None` where the text is not
/// the textual form of an identity.
#[verifier::external_body]
fn parse_principal(text: &str) -> (r: Option<Vec<u8>>)
    ensures
        r.is_some() == principal_parse(text@).is_some(),
        r.is_some() ==> r.unwrap()@ == principal_parse(text@).unwrap(),
        r.is_some() ==> r.unwrap()@.len() <= MAX_IDENTITY_BYTES,
{
    Principal::from_text(text).ok().map(|p| p.as_slice().to_vec())
}

/// The bytes of the anonymous identity.
pub open spec fn anonymous_bytes() -> Seq<u8> {
    seq![4u8]
}

/// Copies a byte string.
pub fn copy_bytes(src: &Vec<u8>) -> (r: Vec<u8>)
    ensures
        r@ == src@,
{
    let mut out: Vec<u8> = Vec::with_capacity(src.len());
    let mut i: usize = 0;
    while i < src.len()
        invariant
            i <= src.len(),
            out@ == src@.take(i as int),
        decreases src.len() - i,
    {
        out.push(src[i]);
        proof {
            assert(out@ =~= src@.take(i as int + 1));
        }
        i += 1;
    }
    proof {
        assert(src@.take(src.len() as int) =~= src@);
    }
    out
}

/// True when two byte strings are equal.
pub fn same_bytes(a: &Vec<u8>, b: &Vec<u8>) -> (r: bool)
    ensures
        r == (a@ == b@),
{
    if a.len() != b.len() {
        return false;
    }
    let mut i: usize = 0;
    while i < a.len()
        invariant
            a.len() == b.len(),
            i <= a.len(),
            forall|j: int| 0 <= j < i ==> a@[j] == b@[j],
        decreases a.len() - i,
    {
        if a[i] != b[i] {
            return false;
        }
        i += 1;
    }
    proof {
        assert(a@ =~= b@);
    }
    true
}

impl Identity {
    #[verifier::type_invariant]
    spec fn bounded(self) -> bool {
        self.bytes@.len() <= MAX_IDENTITY_BYTES
    }

    /// The identity with the given bytes, or `None` when there are too many.
    pub fn from_bytes(bytes: Vec<u8>) -> (r: Option<Identity>)
        ensures
            r.is_some() == (bytes@.len() <= MAX_IDENTITY_BYTES),
            r.is_some() ==> r.unwrap()@ == bytes@,
    {
        if bytes.len() <= MAX_IDENTITY_BYTES {
            Some(Identity { bytes })
        } else {
            None
        }
    }

    /// The bytes of this identity.
    pub fn as_bytes(&self) -> (r: &Vec<u8>)
        ensures
            r@ == self@,
            r@.len() <= MAX_IDENTITY_BYTES,
    {
        proof {
            use_type_invariant(self);
        }
        &self.bytes
    }

    /// The identity that `text` is the textual form of, if it is one.
    pub fn from_text(text: &str) -> (r: Option<Identity>)
        ensures
            r.is_some() == principal_parse(text@).is_some(),
            r.is_some() ==> r.unwrap()@ == principal_parse(text@).unwrap(),
    {
        match parse_principal(text) {
            Some(bytes) => Some(Identity { bytes }),
            None => None,
        }
    }

    /// The textual form of this identity.
    pub fn to_text(&self) -> (s: String)
        ensures
            s@ == principal_text(self@),
    {
        proof {
            use_type_invariant(self);
        }
        principal_to_text(&self.bytes)
    }

    /// True when both identities have the same bytes.
    pub fn same(&self, other: &Identity) -> (r: bool)
        ensures
            r == (self@ == other@),
    {
        same_bytes(&self.bytes, &other.bytes)
    }

    /// True for the anonymous identity.
    pub fn is_anonymous(&self) -> (r: bool)
        ensures
            r == (self@ == anonymous_bytes()),
    {
        let r = self.bytes.len() == 1 && self.bytes[0] == 4u8;
        proof {
            if r {
                assert(self.bytes@ =~= anonymous_bytes());
            }
        }
        r
    }
}

/// The bytes of a list of identities, in order.
pub open spec fn identity_views(ids: Seq<Identity>) -> Seq<Seq<u8>> {
    ids.map_values(|i: Identity| i@)
}

/// True when `id` is in `list`.
pub fn contains_identity(list: &Vec<Identity>, id: &Identity) -> (r: bool)
    ensures
        r == identity_views(list@).contains(id@),
{
    let mut i: usize = 0;
    while i < list.len()
        invariant
            i <= list@.len(),
            forall|j: int| 0 <= j < i ==> list@[j]@ != id@,
        decreases list@.len() - i,
    {
        if list[i].same(id) {
            proof {
                assert(identity_views(list@)[i as int] == id@);
            }
            return true;
        }
        i += 1;
    }
    proof {
        if identity_views(list@).contains(id@) {
            let j = choose|j: int|
                0 <= j < identity_views(list@).len() && identity_views(list@)[j] == id@;
            assert(list@[j]@ == id@);
        }
    }
    false
}

impl Clone for Identity {
    fn clone(&self) -> (r: Self)
        ensures
            r@ == self@,
    {
        proof {
            use_type_invariant(self);
        }
        Identity { bytes: copy_bytes(&self.bytes) }
    }
}

} // verus!
