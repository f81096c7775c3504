//! Caller identities.
//!
//! An identity is an opaque string of at most 29 bytes. The registry only ever
//! compares identities and tells the anonymous one from the others, so an
//! [`Identity`] holds the bytes themselves; their textual form is computed by
//! `candid`.

use candid::Principal;
use vstd::prelude::*;

verus! {

/// The longest byte string that is an identity.
pub const MAX_IDENTITY_LENGTH: usize = 29;

/// The bytes of the anonymous identity.
pub open spec fn anonymous_bytes() -> Seq<u8> {
    seq![4u8]
}

/// The textual form that `candid` gives to the principal with these bytes.
pub uninterp spec fn principal_text(bytes: Seq<u8>) -> Seq<char>;

/// The bytes of the principal that `candid` reads from a text, if it reads one.
pub uninterp spec fn principal_from_text(text: Seq<char>) -> Option<Seq<u8>>;

/// `candid::Principal::anonymous`, read through `Principal::as_slice`: the
/// anonymous principal is the single byte 4.
#[verifier::external_body]
fn anonymous_principal_bytes() -> (bytes: Vec<u8>)
    ensures
        bytes@ == anonymous_bytes(),
{
    Principal::anonymous().as_slice().to_vec()
}

/// `candid::Principal::to_text` on the principal with the given bytes. The
/// text is a checksum and the bytes in base 32, grouped by dashes; the contract
/// only names it. `Principal::from_slice` panics on more than 29 bytes.
#[verifier::external_body]
fn principal_to_text(bytes: &Vec<u8>) -> (text: String)
    requires
        bytes@.len() <= MAX_IDENTITY_LENGTH,
    ensures
        text@ == principal_text(bytes@),
{
    Principal::from_slice(bytes.as_slice()).to_text()
}

/// `candid::Principal::from_text`: the bytes of the principal written in
/// `text`, or `None` where the text is not the textual form of a principal. A
/// principal that was read has at most 29 bytes.
#[verifier::external_body]
fn principal_bytes_from_text(text: &str) -> (bytes: Option<Vec<u8>>)
    ensures
        bytes is Some <==> principal_from_text(text@) is Some,
        bytes matches Some(b) ==> principal_from_text(text@) == Some(b@) && b@.len()
            <= MAX_IDENTITY_LENGTH,
{
    match Principal::from_text(text) {
        Ok(principal) => Some(principal.as_slice().to_vec()),
        Err(_) => None,
    }
}

/// An opaque caller identity.
#[derive(Debug, PartialEq, Eq, Hash)]
pub struct Identity {
    bytes: Vec<u8>,
}

impl View for Identity {
    type V = Seq<u8>;

    closed spec fn view(&self) -> Seq<u8> {
        self.bytes@
    }
}

impl Clone for Identity {
    fn clone(&self) -> (copy: Self)
        ensures
            copy@ == self@,
    {
        proof {
            use_type_invariant(self);
        }
        Identity { bytes: self.bytes.clone() }
    }
}

impl Identity {
    #[verifier::type_invariant]
    spec fn within_limit(&self) -> bool {
        self.bytes@.len() <= MAX_IDENTITY_LENGTH
    }

    /// Whether this is the anonymous identity.
    pub open spec fn is_anonymous_spec(&self) -> bool {
        self@ == anonymous_bytes()
    }

    /// The anonymous identity.
    pub fn anonymous() -> (id: Identity)
        ensures
            id@ == anonymous_bytes(),
    {
        Identity { bytes: anonymous_principal_bytes() }
    }

    /// The identity with the given bytes.
    pub fn from_slice(slice: &[u8]) -> (id: Identity)
        requires
            slice@.len() <= MAX_IDENTITY_LENGTH,
        ensures
            id@ == slice@,
    {
        let mut bytes: Vec<u8> = Vec::new();
        let mut i: usize = 0;
        while i < slice.len()
            invariant
                i <= slice@.len(),
                bytes@ == slice@.subrange(0, i as int),
            decreases slice@.len() - i,
        {
            bytes.push(slice[i]);
            i = i + 1;
        }
        Identity { bytes }
    }

    /// The identity with the given bytes, if they are at most 29.
    pub fn try_from_slice(slice: &[u8]) -> (id: Option<Identity>)
        ensures
            slice@.len() <= MAX_IDENTITY_LENGTH ==> id is Some && id->0@ == slice@,
            slice@.len() > MAX_IDENTITY_LENGTH ==> id is None,
    {
        if slice.len() <= MAX_IDENTITY_LENGTH {
            Some(Identity::from_slice(slice))
        } else {
            None
        }
    }

    /// The bytes of this identity.
    pub fn as_slice(&self) -> (slice: &[u8])
        ensures
            slice@ == self@,
            slice@.len() <= MAX_IDENTITY_LENGTH,
    {
        proof {
            use_type_invariant(self);
        }
        self.bytes.as_slice()
    }

    /// Whether this is the anonymous identity.
    pub fn is_anonymous(&self) -> (anonymous: bool)
        ensures
            anonymous == self.is_anonymous_spec(),
    {
        let anonymous = self.bytes.len() == 1 && self.bytes[0] == 4;
        proof {
            assert(anonymous_bytes().len() == 1 && anonymous_bytes()[0] == 4);
            if anonymous {
                assert(self.bytes@ =~= anonymous_bytes());
            }
        }
        anonymous
    }

    /// Whether two identities are the same.
    pub fn equals(&self, other: &Identity) -> (same: bool)
        ensures
            same == (self@ == other@),
    {
        if self.bytes.len() != other.bytes.len() {
            return false;
        }
        let mut i: usize = 0;
        while i < self.bytes.len()
            invariant
                i <= self.bytes@.len(),
                self.bytes@.len() == other.bytes@.len(),
                self.bytes@.subrange(0, i as int) == other.bytes@.subrange(0, i as int),
            decreases self.bytes@.len() - i,
        {
            if self.bytes[i] != other.bytes[i] {
                return false;
            }
            proof {
                assert(self.bytes@.subrange(0, i + 1) == self.bytes@.subrange(0, i as int).push(
                    self.bytes@[i as int],
                ));
                assert(other.bytes@.subrange(0, i + 1) == other.bytes@.subrange(0, i as int).push(
                    other.bytes@[i as int],
                ));
            }
            i = i + 1;
        }
        proof {
            assert(self.bytes@ == self.bytes@.subrange(0, i as int));
            assert(other.bytes@ == other.bytes@.subrange(0, i as int));
        }
        true
    }

    /// The textual form of this identity.
    pub fn to_text(&self) -> (text: String)
        ensures
            text@ == principal_text(self@),
    {
        proof {
            use_type_invariant(self);
        }
        principal_to_text(&self.bytes)
    }

    /// The identity that a text stands for, if it stands for one.
    pub fn from_text(text: &str) -> (id: Option<Identity>)
        ensures
            id is Some <==> principal_from_text(text@) is Some,
            id matches Some(i) ==> principal_from_text(text@) == Some(i@),
    {
        match principal_bytes_from_text(text) {
            Some(bytes) => Some(Identity { bytes }),
            None => None,
        }
    }
}

} // verus!
