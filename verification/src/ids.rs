//! Identity value types: user IDs (public keys) and detached signatures.
//!
//! Both are fixed-length byte strings.  A user ID is rendered for humans as a
//! base58 string; the rendering itself is done by an outside crate and is
//! named, not restated, by the spec function `base58_of`.

use vstd::prelude::*;

verus! {

/// Number of bytes in a user ID (a public key).
pub const USER_ID_LEN: usize = 32;

/// Number of bytes in a detached signature.
pub const SIGNATURE_LEN: usize = 64;

/// Why a byte string or text string was rejected as an identity value.
#[derive(Debug, Clone, Copy, PartialEq, Eq, Structural)]
pub enum IdError {
    /// The byte string does not have the fixed length the type demands.
    WrongLength,
    /// The text is not the base58 rendering of any byte string.
    NotBase58,
}

/// The base58 rendering (Bitcoin alphabet) of a byte string: a pure function
/// of the bytes alone, computed by the bs58 crate.
pub uninterp spec fn base58_of(b: Seq<u8>) -> Seq<char>;

/// Relies on bs58::encode (default Bitcoin alphabet, no checksum): the
/// rendering depends on the input bytes alone, and every input byte yields
/// at least one digit, so a nonempty input renders nonempty.
#[verifier::external_body]
fn encode_base58(b: &Vec<u8>) -> (r: String)
    ensures
        r@ == base58_of(b@),
        b@.len() > 0 ==> r@.len() > 0,
{
    bs58::encode(b).into_string()
}

/// Relies on bs58::decode (default Bitcoin alphabet, no checksum): it accepts
/// exactly the strings bs58::encode produces, and inverts it; base58 renders
/// each byte string to a distinct string.
#[verifier::external_body]
fn decode_base58(s: &str) -> (r: Option<Vec<u8>>)
    ensures
        match r {
            Some(v) => base58_of(v@) == s@ && (forall|w: Seq<u8>| base58_of(w) == s@ ==> w == v@),
            None => forall|w: Seq<u8>| base58_of(w) != s@,
        },
{
    match bs58::decode(s).into_vec() {
        Ok(v) => Some(v),
        Err(_) => None,
    }
}

/// Compares two byte vectors for equality, element by element.
pub fn bytes_eq(a: &Vec<u8>, b: &Vec<u8>) -> (r: bool)
    ensures
        r == (a@ =~= b@),
{
    if a.len() != b.len() {
        return false;
    }
    let n: usize = a.len();
    let mut i: usize = 0;
    while i < n
        invariant
            n == a@.len(),
            a@.len() == b@.len(),
            i <= n,
            forall|j: int| 0 <= j < i ==> a@[j] == b@[j],
        decreases n - i,
    {
        if a[i] != b[i] {
            return false;
        }
        i = i + 1;
    }
    true
}

/// A user's identity: their public key, a fixed-length byte string.  Used as
/// the correlation key across every stored relation; never mutated.
#[derive(Debug)]
pub struct UserID {
    bytes: Vec<u8>,
}

impl View for UserID {
    type V = Seq<u8>;

    closed spec fn view(&self) -> Seq<u8> {
        self.bytes@
    }
}

impl UserID {
    /// A well-formed user ID holds exactly `USER_ID_LEN` bytes.
    pub open spec fn wf(&self) -> bool {
        self@.len() == USER_ID_LEN
    }

    /// Wraps a byte vector, rejecting any of the wrong length.
    pub fn from_vec(bytes: Vec<u8>) -> (r: Result<UserID, IdError>)
        ensures
            r is Ok <==> bytes@.len() == USER_ID_LEN,
            r matches Ok(u) ==> u@ == bytes@ && u.wf(),
            r matches Err(e) ==> e == IdError::WrongLength,
    {
        if bytes.len() == USER_ID_LEN {
            Ok(UserID { bytes })
        } else {
            Err(IdError::WrongLength)
        }
    }

    /// The raw key bytes.
    pub fn bytes(&self) -> (r: &[u8])
        ensures
            r@ == self@,
    {
        self.bytes.as_slice()
    }

    /// The human-readable base58 rendering of the key.
    pub fn to_base58(&self) -> (r: String)
        ensures
            r@ == base58_of(self@),
            self@.len() > 0 ==> r@.len() > 0,
    {
        encode_base58(&self.bytes)
    }

    /// Parses the base58 rendering of a user ID.  Succeeds exactly on strings
    /// that render some byte string of the right length.
    pub fn from_base58(s: &str) -> (r: Result<UserID, IdError>)
        ensures
            r matches Ok(u) ==> u.wf() && base58_of(u@) == s@,
            r is Err ==> forall|w: Seq<u8>| w.len() == USER_ID_LEN ==> base58_of(w) != s@,
    {
        match decode_base58(s) {
            None => Err(IdError::NotBase58),
            Some(v) => {
                if v.len() == USER_ID_LEN {
                    Ok(UserID { bytes: v })
                } else {
                    Err(IdError::WrongLength)
                }
            },
        }
    }

    /// Structural equality of two user IDs.
    pub fn matches(&self, other: &UserID) -> (r: bool)
        ensures
            r == (self@ =~= other@),
    {
        bytes_eq(&self.bytes, &other.bytes)
    }
}

impl Clone for UserID {
    fn clone(&self) -> (r: Self)
        ensures
            r@ == self@,
    {
        let bytes = self.bytes.clone();
        proof {
            assert(bytes@ =~= self.bytes@);
        }
        UserID { bytes }
    }
}

/// A detached signature over a `(user, item bytes)` pair: a fixed-length byte
/// string.  Whether it actually validates is the cryptographic collaborator's
/// business, outside this crate; here it is an opaque identity component.
#[derive(Debug)]
pub struct Signature {
    bytes: Vec<u8>,
}

impl View for Signature {
    type V = Seq<u8>;

    closed spec fn view(&self) -> Seq<u8> {
        self.bytes@
    }
}

impl Signature {
    /// A well-formed signature holds exactly `SIGNATURE_LEN` bytes.
    pub open spec fn wf(&self) -> bool {
        self@.len() == SIGNATURE_LEN
    }

    /// Wraps a byte vector, rejecting any of the wrong length.
    pub fn from_vec(bytes: Vec<u8>) -> (r: Result<Signature, IdError>)
        ensures
            r is Ok <==> bytes@.len() == SIGNATURE_LEN,
            r matches Ok(s) ==> s@ == bytes@ && s.wf(),
            r matches Err(e) ==> e == IdError::WrongLength,
    {
        if bytes.len() == SIGNATURE_LEN {
            Ok(Signature { bytes })
        } else {
            Err(IdError::WrongLength)
        }
    }

    /// The raw signature bytes.
    pub fn bytes(&self) -> (r: &[u8])
        ensures
            r@ == self@,
    {
        self.bytes.as_slice()
    }

    /// The human-readable base58 rendering of the signature.
    pub fn to_base58(&self) -> (r: String)
        ensures
            r@ == base58_of(self@),
    {
        encode_base58(&self.bytes)
    }

    /// Parses the base58 rendering of a signature.
    pub fn from_base58(s: &str) -> (r: Result<Signature, IdError>)
        ensures
            r matches Ok(sig) ==> sig.wf() && base58_of(sig@) == s@,
            r is Err ==> forall|w: Seq<u8>| w.len() == SIGNATURE_LEN ==> base58_of(w) != s@,
    {
        match decode_base58(s) {
            None => Err(IdError::NotBase58),
            Some(v) => {
                if v.len() == SIGNATURE_LEN {
                    Ok(Signature { bytes: v })
                } else {
                    Err(IdError::WrongLength)
                }
            },
        }
    }

    /// Structural equality of two signatures.
    pub fn matches(&self, other: &Signature) -> (r: bool)
        ensures
            r == (self@ =~= other@),
    {
        bytes_eq(&self.bytes, &other.bytes)
    }
}

impl Clone for Signature {
    fn clone(&self) -> (r: Self)
        ensures
            r@ == self@,
    {
        let bytes = self.bytes.clone();
        proof {
            assert(bytes@ =~= self.bytes@);
        }
        Signature { bytes }
    }
}

/// A moment in time: milliseconds since the Unix epoch, UTC.  The embedded
/// item timestamp is caller-controlled; the received timestamp is
/// server-assigned.
#[derive(Debug, Clone, Copy, PartialEq, Eq, Structural)]
pub struct Timestamp {
    pub unix_utc_ms: i64,
}

} // verus!
