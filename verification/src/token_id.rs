use vstd::prelude::*;

use crate::principal::{
    copy_bytes, parse_principal_text, principal_bytes_to_text, principal_text,
    principal_text_bytes, Principal,
};
use crate::types::{TokenIdentifier, TokenIndex, TokenObj};

verus! {

/// How many bytes of a token identifier name the canister.
pub const CANISTER_ID_HASH_LEN_IN_BYTES: usize = 10;

/// The four bytes that open a token identifier: a newline and "tid".
pub open spec fn token_prefix() -> Seq<u8> {
    seq![10u8, 116u8, 105u8, 100u8]
}

pub open spec fn has_token_prefix(b: Seq<u8>) -> bool {
    b.len() >= 4 && b.subrange(0, 4) == token_prefix()
}

/// The number written big-endian in four bytes.
pub open spec fn be_value(b: Seq<u8>) -> int {
    b[0] * 16777216 + b[1] * 65536 + b[2] * 256 + b[3]
}

/// The four big-endian bytes of a number.
pub open spec fn be_bytes(n: u32) -> Seq<u8> {
    seq![
        (n / 16777216) as u8,
        ((n / 65536) % 256) as u8,
        ((n / 256) % 256) as u8,
        (n % 256) as u8,
    ]
}

/// Principal bytes from which a token can be read without a fault: either they do
/// not open with the prefix, or they are exactly prefix, canister and index.
pub open spec fn token_bytes_readable(b: Seq<u8>) -> bool {
    !has_token_prefix(b) || b.len() == 18
}

/// The token that principal bytes stand for, as (index, canister): bytes without
/// the prefix are a canister with index 0.
pub open spec fn token_of_bytes(b: Seq<u8>) -> (u32, Seq<u8>) {
    if !has_token_prefix(b) {
        (0u32, b)
    } else {
        (be_value(b.subrange(14, 18)) as u32, b.subrange(4, 14))
    }
}

/// The token that a token text stands for, or `None` where the text is no principal.
pub open spec fn decoded_token(t: Seq<char>) -> Option<(u32, Seq<u8>)> {
    match principal_text_bytes(t) {
        Some(b) => Some(token_of_bytes(b)),
        None => None,
    }
}

/// The index of the token a valid text names.
pub open spec fn decoded_index(t: Seq<char>) -> u32 {
    token_of_bytes(principal_text_bytes(t)->0).0
}

/// The canister of the token a valid text names.
pub open spec fn decoded_canister(t: Seq<char>) -> Seq<u8> {
    token_of_bytes(principal_text_bytes(t)->0).1
}

/// Texts that decoding handles without a fault (an error answer included).
pub open spec fn token_text_decodable(t: Seq<char>) -> bool {
    match principal_text_bytes(t) {
        Some(b) => token_bytes_readable(b),
        None => true,
    }
}

/// Texts that decode to a token.
pub open spec fn token_text_valid(t: Seq<char>) -> bool {
    match principal_text_bytes(t) {
        Some(b) => token_bytes_readable(b),
        None => false,
    }
}

/// The 18 bytes that identify token `i` of canister `c` (of at most 10 bytes):
/// prefix, canister, index big-endian, then zeros.
pub open spec fn token_blob(c: Seq<u8>, i: u32) -> Seq<u8> {
    token_prefix() + c + be_bytes(i) + Seq::new((10 - c.len()) as nat, |_j: int| 0u8)
}

pub open spec fn token_obj_is(t: TokenObj, index: u32, canister: Seq<u8>) -> bool {
    t.index == index && t.canister@ == canister
}

/// Whether the bytes open with the token prefix.
fn starts_with_token_prefix(bytes: &[u8]) -> (r: bool)
    ensures
        r == has_token_prefix(bytes@),
{
    if bytes.len() < 4 {
        return false;
    }
    let r = bytes[0] == 10u8 && bytes[1] == 116u8 && bytes[2] == 105u8 && bytes[3] == 100u8;
    assert(r == (bytes@.subrange(0, 4) =~= token_prefix()));
    r
}

/// Whether a token can be read from the principal bytes without a fault.
pub fn readable_token_bytes(bytes: &[u8]) -> (r: bool)
    ensures
        r == token_bytes_readable(bytes@),
{
    !starts_with_token_prefix(bytes) || bytes.len() == 18
}

/// The bytes from `start` to `end`.
fn copy_range(bytes: &[u8], start: usize, end: usize) -> (out: Vec<u8>)
    requires
        start <= end <= bytes@.len(),
    ensures
        out@ == bytes@.subrange(start as int, end as int),
{
    let mut out: Vec<u8> = Vec::new();
    let mut i: usize = start;
    while i < end
        invariant
            start <= i <= end <= bytes@.len(),
            out@ == bytes@.subrange(start as int, i as int),
        decreases end - i,
    {
        out.push(bytes[i]);
        i = i + 1;
        assert(out@ =~= bytes@.subrange(start as int, i as int));
    }
    out
}

/// The token that principal bytes stand for.
pub fn token_obj_from_bytes(bytes: &[u8]) -> (t: TokenObj)
    requires
        token_bytes_readable(bytes@),
    ensures
        (t.index, t.canister@) == token_of_bytes(bytes@),
{
    if !starts_with_token_prefix(bytes) {
        return TokenObj { index: 0, canister: copy_bytes(bytes) };
    }
    let canister = copy_range(bytes, 4, 4 + CANISTER_ID_HASH_LEN_IN_BYTES);
    let index: u32 = (bytes[14] as u32) * 16777216 + (bytes[15] as u32) * 65536
        + (bytes[16] as u32) * 256 + (bytes[17] as u32);
    TokenObj { index, canister }
}

/// Reads a token identifier. A text that is no principal gives the error
/// "invalid token id".
pub fn decode_token_id(tid: TokenIdentifier) -> (r: Result<TokenObj, String>)
    requires
        token_text_decodable(tid@),
    ensures
        match decoded_token(tid@) {
            Some((i, c)) => r matches Ok(t) && token_obj_is(t, i, c),
            None => r matches Err(e) && e@ == "invalid token id"@,
        },
{
    match parse_principal_text(tid.as_str()) {
        Ok(principal) => Ok(token_obj_from_bytes(principal.as_slice())),
        Err(_) => Err(String::from_str("invalid token id")),
    }
}

/// Whether the token text names a token of canister `p`.
pub fn is_principal(tid: TokenIdentifier, p: Principal) -> (r: bool)
    requires
        token_text_valid(tid@),
    ensures
        r == (decoded_canister(tid@) == p@),
{
    let tobj = match decode_token_id(tid) {
        Ok(t) => t,
        Err(_) => {
            proof { assert(false); }
            return false;
        },
    };
    let pb = p.as_slice();
    let n = tobj.canister.len();
    if n != pb.len() {
        return false;
    }
    let mut i: usize = 0;
    while i < n
        invariant
            n == tobj.canister@.len(),
            n == pb@.len(),
            tobj.canister@ == decoded_canister(tid@),
            pb@ == p@,
            i <= n,
            forall|j: int| 0 <= j < i ==> tobj.canister@[j] == pb@[j],
        decreases n - i,
    {
        if tobj.canister[i] != pb[i] {
            assert(tobj.canister@[i as int] != pb@[i as int]);
            return false;
        }
        i = i + 1;
    }
    assert(tobj.canister@ =~= pb@);
    true
}

/// The index of the token that a token text names.
pub fn get_index(tid: TokenIdentifier) -> (r: TokenIndex)
    requires
        token_text_valid(tid@),
    ensures
        r == decoded_index(tid@),
{
    match decode_token_id(tid) {
        Ok(t) => t.index,
        Err(_) => {
            proof { assert(false); }
            0
        },
    }
}

/// The text of token `token_index` of canister `canister_id`. For a canister of ten
/// bytes (the length of canister ids) decoding it gives back the same token.
pub fn encode_token_id(canister_id: Principal, token_index: TokenIndex) -> (r: TokenIdentifier)
    requires
        canister_id@.len() <= CANISTER_ID_HASH_LEN_IN_BYTES,
    ensures
        r@ == principal_text(token_blob(canister_id@, token_index)),
        canister_id@.len() == CANISTER_ID_HASH_LEN_IN_BYTES ==> token_text_valid(r@)
            && decoded_token(r@) == Some((token_index, canister_id@)),
{
    let canister_blob = canister_id.as_slice();
    let mut data: Vec<u8> = Vec::new();
    data.push(10u8);
    data.push(116u8);
    data.push(105u8);
    data.push(100u8);
    let mut k: usize = 0;
    while k < canister_blob.len()
        invariant
            k <= canister_blob@.len() <= CANISTER_ID_HASH_LEN_IN_BYTES,
            data@ == token_prefix() + canister_blob@.subrange(0, k as int),
        decreases canister_blob@.len() - k,
    {
        data.push(canister_blob[k]);
        k = k + 1;
        assert(data@ =~= token_prefix() + canister_blob@.subrange(0, k as int));
    }
    assert(canister_blob@.subrange(0, k as int) =~= canister_blob@);
    data.push((token_index / 16777216) as u8);
    data.push(((token_index / 65536) % 256) as u8);
    data.push(((token_index / 256) % 256) as u8);
    data.push((token_index % 256) as u8);
    let ghost head = data@;
    assert(head =~= token_prefix() + canister_id@ + be_bytes(token_index));
    while data.len() < 18
        invariant
            head.len() <= data@.len() <= 18,
            head.len() == 8 + canister_id@.len(),
            data@.subrange(0, head.len() as int) == head,
            forall|j: int| head.len() <= j < data@.len() ==> data@[j] == 0u8,
        decreases 18 - data@.len(),
    {
        data.push(0u8);
    }
    proof {
        let blob = token_blob(canister_id@, token_index);
        assert(data@ =~= blob);
        if canister_id@.len() == CANISTER_ID_HASH_LEN_IN_BYTES {
            assert(blob.subrange(0, 4) =~= token_prefix());
            assert(blob.subrange(4, 14) =~= canister_id@);
            assert(blob.subrange(14, 18) =~= be_bytes(token_index));
        }
    }
    principal_bytes_to_text(data.as_slice())
}

} // verus!
