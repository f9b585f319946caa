use vstd::prelude::*;

verus! {

/// The most bytes a principal can hold.
pub const MAX_PRINCIPAL_BYTES: usize = 29;

/// A principal of the Internet Computer, kept as its significant bytes
/// (between 0 and 29 of them).
#[derive(Debug, PartialEq, Eq, Hash)]
pub struct Principal {
    bytes: Vec<u8>,
}

impl Principal {
    #[verifier::type_invariant]
    spec fn fits(self) -> bool {
        self.bytes@.len() <= MAX_PRINCIPAL_BYTES
    }
}

impl View for Principal {
    type V = Seq<u8>;

    closed spec fn view(&self) -> Seq<u8> {
        self.bytes@
    }
}

/// A fresh vector holding the given bytes.
pub fn copy_bytes(bytes: &[u8]) -> (out: Vec<u8>)
    ensures
        out@ == bytes@,
{
    let mut out: Vec<u8> = Vec::new();
    let mut i: usize = 0;
    while i < bytes.len()
        invariant
            i <= bytes@.len(),
            out@ == bytes@.subrange(0, i as int),
        decreases bytes@.len() - i,
    {
        out.push(bytes[i]);
        i = i + 1;
    }
    assert(out@ =~= bytes@);
    out
}

impl Principal {
    /// The principal made of the given bytes.
    pub fn from_slice(bytes: &[u8]) -> (p: Principal)
        requires
            bytes@.len() <= MAX_PRINCIPAL_BYTES,
        ensures
            p@ == bytes@,
    {
        Principal { bytes: copy_bytes(bytes) }
    }

    /// The anonymous principal: the single byte 4.
    pub fn anonymous() -> (p: Principal)
        ensures
            p@ == seq![4u8],
    {
        let mut bytes: Vec<u8> = Vec::new();
        bytes.push(4u8);
        assert(bytes@ =~= seq![4u8]);
        Principal { bytes }
    }

    /// The significant bytes; there are at most 29 of them.
    pub fn as_slice(&self) -> (s: &[u8])
        ensures
            s@ == self@,
            s@.len() <= MAX_PRINCIPAL_BYTES,
    {
        proof { use_type_invariant(self); }
        self.bytes.as_slice()
    }

    /// Whether two principals hold the same bytes.
    pub fn same_as(&self, other: &Principal) -> (r: bool)
        ensures
            r == (self@ == other@),
    {
        let n = self.bytes.len();
        if n != other.bytes.len() {
            return false;
        }
        let mut i: usize = 0;
        while i < n
            invariant
                n == self.bytes@.len(),
                n == other.bytes@.len(),
                i <= n,
                forall|j: int| 0 <= j < i ==> self.bytes@[j] == other.bytes@[j],
            decreases n - i,
        {
            if self.bytes[i] != other.bytes[i] {
                return false;
            }
            i = i + 1;
        }
        assert(self.bytes@ =~= other.bytes@);
        true
    }

    /// A second principal with the same bytes.
    pub fn duplicate(&self) -> (p: Principal)
        ensures
            p@ == self@,
    {
        proof { use_type_invariant(self); }
        Principal { bytes: copy_bytes(self.bytes.as_slice()) }
    }
}

impl Clone for Principal {
    fn clone(&self) -> (p: Self)
        ensures
            p@ == self@,
    {
        self.duplicate()
    }
}

/// The error that `candid::Principal::from_text` gives for a text it refuses.
#[verifier::external_type_specification]
#[verifier::external_body]
pub struct ExPrincipalError(candid::types::principal::PrincipalError);

/// The bytes of the principal that `candid::Principal::from_text` reads from a
/// text, or `None` where it refuses the text.
pub uninterp spec fn principal_text_bytes(text: Seq<char>) -> Option<Seq<u8>>;

/// The text that `candid::Principal::to_text` writes for a principal's bytes.
pub uninterp spec fn principal_text(bytes: Seq<u8>) -> Seq<char>;

/// Calls `candid::Principal::from_text`. Claimed of it: it succeeds exactly on the
/// texts that [`principal_text_bytes`] maps to some bytes, the principal it gives
/// holds those bytes, and they are at most 29 (the crate checks the length
/// before it builds a principal).
#[verifier::external_body]
pub(crate) fn parse_principal_text(text: &str) -> (r: Result<Principal, candid::types::principal::PrincipalError>)
    ensures
        r is Ok <==> principal_text_bytes(text@) is Some,
        r matches Ok(p) ==> p@ == principal_text_bytes(text@)->0,
        r matches Ok(p) ==> p@.len() <= MAX_PRINCIPAL_BYTES,
{
    match candid::Principal::from_text(text) {
        Ok(p) => Ok(Principal { bytes: p.as_slice().to_vec() }),
        Err(e) => Err(e),
    }
}

/// Calls `candid::Principal::from_slice` and then `to_text` (which panics on more than
/// 29 bytes, hence the `requires`). Claimed of it: the text is [`principal_text`] of
/// the bytes, and `from_text` reads those same bytes back from it (`to_text` writes
/// the lower-case grouped form that `from_text` checks its input against).
#[verifier::external_body]
pub(crate) fn principal_bytes_to_text(bytes: &[u8]) -> (r: String)
    requires
        bytes@.len() <= MAX_PRINCIPAL_BYTES,
    ensures
        r@ == principal_text(bytes@),
        principal_text_bytes(r@) == Some(bytes@),
{
    candid::Principal::from_slice(bytes).to_text()
}

} // verus!
