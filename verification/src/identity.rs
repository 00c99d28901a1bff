use vstd::prelude::*;

verus! {

/// Longest byte encoding of an owner identity that the textual encoder
/// accepts; longer values cannot be rendered in match results.
pub const MAX_IDENTITY_BYTES: usize = 29;

/// An opaque, comparable, stably-encodable value standing for a caller or
/// owner. Two identities are equal exactly when their underlying bytes are
/// equal; the registry never mints or validates identities itself.
pub struct Identity {
    pub bytes: Vec<u8>,
}

impl View for Identity {
    type V = Seq<u8>;

    open spec fn view(&self) -> Seq<u8> {
        self.bytes@
    }
}

impl Identity {
    /// An identity can be rendered textually only when its byte encoding
    /// is no longer than the encoder's limit.
    pub open spec fn encodable(self) -> bool {
        self@.len() <= MAX_IDENTITY_BYTES
    }

    pub fn from_bytes(bytes: Vec<u8>) -> (r: Identity)
        ensures
            r@ == bytes@,
    {
        Identity { bytes }
    }
}

impl Clone for Identity {
    fn clone(&self) -> (r: Self)
        ensures
            r@ == self@,
    {
        let mut bytes: Vec<u8> = Vec::new();
        let mut i: usize = 0;
        while i < self.bytes.len()
            invariant
                i <= self.bytes.len(),
                bytes@ == self.bytes@.take(i as int),
            decreases self.bytes.len() - i,
        {
            bytes.push(self.bytes[i]);
            i = i + 1;
            proof {
                assert(bytes@ =~= self.bytes@.take(i as int));
            }
        }
        proof {
            assert(bytes@ =~= self.bytes@);
        }
        Identity { bytes }
    }
}

/// The textual form of an identity's byte encoding. The encoder computes
/// it from the bytes alone, so the result is named rather than spelled out.
pub uninterp spec fn text_of(bytes: Seq<u8>) -> Seq<char>;

/// Relies on candid's `Principal::from_slice` and `Principal::to_text`:
/// `from_slice` accepts any slice of at most 29 bytes (and panics beyond
/// that, hence the bound below), and `to_text` renders a checksum-prefixed
/// base32 grouping computed from those bytes alone.
#[verifier::external_body]
pub(crate) fn principal_text(bytes: &Vec<u8>) -> (r: String)
    requires
        bytes@.len() <= MAX_IDENTITY_BYTES,
    ensures
        r@ == text_of(bytes@),
{
    candid::Principal::from_slice(bytes.as_slice()).to_text()
}

/// Byte-for-byte equality of two identities.
pub fn identity_eq(a: &Identity, b: &Identity) -> (r: bool)
    ensures
        r == (a@ == b@),
{
    if a.bytes.len() != b.bytes.len() {
        proof {
            assert(a@.len() != b@.len());
        }
        return false;
    }
    let mut i: usize = 0;
    while i < a.bytes.len()
        invariant
            i <= a.bytes.len(),
            a.bytes.len() == b.bytes.len(),
            forall|j: int| 0 <= j < i ==> a@[j] == b@[j],
        decreases a.bytes.len() - i,
    {
        if a.bytes[i] != b.bytes[i] {
            return false;
        }
        i = i + 1;
    }
    proof {
        assert(a@ =~= b@);
    }
    true
}

} // verus!
