use nft_backend::account::{from_principal, to_aid};
use nft_backend::canister::{check_token_text, decode_id, is_principal as is_principal_call, token_id, Trap};
use nft_backend::principal::Principal;
use nft_backend::token_id::{decode_token_id, encode_token_id, get_index, is_principal, token_obj_from_bytes};
use nft_backend::types::User;

fn canister() -> Principal {
    Principal::from_slice(&[0, 0, 0, 0, 0, 0, 0, 1, 1, 1])
}

fn text_of(bytes: &[u8]) -> String {
    candid::Principal::from_slice(bytes).to_text()
}

#[test]
fn plain_principal_text_decodes_to_index_zero() {
    let t = decode_token_id("rrkah-fqaaa-aaaaa-aaaaq-cai".to_string()).unwrap();
    assert_eq!(t.index, 0);
    assert_eq!(t.canister, vec![0, 0, 0, 0, 0, 0, 0, 1, 1, 1]);
}

#[test]
fn text_that_is_no_principal_is_an_invalid_token_id() {
    let r = decode_token_id("not a principal".to_string());
    assert_eq!(r.err(), Some("invalid token id".to_string()));
}

#[test]
fn prefixed_bytes_give_canister_and_big_endian_index() {
    let bytes = [10u8, 116, 105, 100, 1, 2, 3, 4, 5, 6, 7, 8, 9, 10, 0, 0, 1, 2];
    let t = token_obj_from_bytes(&bytes);
    assert_eq!(t.index, 258);
    assert_eq!(t.canister, vec![1, 2, 3, 4, 5, 6, 7, 8, 9, 10]);
    let t = decode_token_id(text_of(&bytes)).unwrap();
    assert_eq!(t.index, 258);
}

#[test]
fn encoded_token_decodes_back() {
    for index in [0u32, 1, 255, 256, 65536, 16777216, u32::MAX] {
        let tid = encode_token_id(canister(), index);
        let t = decode_token_id(tid.clone()).unwrap();
        assert_eq!(t.index, index);
        assert_eq!(t.canister, canister().as_slice().to_vec());
        assert_eq!(get_index(tid.clone()), index);
        assert!(is_principal(tid, canister()));
    }
}

#[test]
fn encoded_token_is_the_text_of_the_token_blob() {
    let tid = encode_token_id(canister(), 0x01020304);
    let blob = [10u8, 116, 105, 100, 0, 0, 0, 0, 0, 0, 0, 1, 1, 1, 1, 2, 3, 4];
    assert_eq!(tid, text_of(&blob));
}

#[test]
fn short_canister_is_padded_with_zeros() {
    let short = Principal::from_slice(&[7, 7]);
    let tid = encode_token_id(short, 9);
    let blob = [10u8, 116, 105, 100, 7, 7, 0, 0, 0, 9, 0, 0, 0, 0, 0, 0, 0, 0];
    assert_eq!(tid, text_of(&blob));
}

#[test]
fn token_of_another_canister_is_not_ours() {
    let other = Principal::from_slice(&[0, 0, 0, 0, 0, 0, 0, 2, 1, 1]);
    let tid = encode_token_id(other, 3);
    assert!(!is_principal(tid, canister()));
}

#[test]
fn token_text_faults_are_told_apart() {
    assert_eq!(check_token_text("no principal"), Some(Trap::UndecodableToken));
    let malformed = text_of(&[10, 116, 105, 100, 1, 2]);
    assert_eq!(check_token_text(&malformed), Some(Trap::MalformedToken));
    assert_eq!(check_token_text(&encode_token_id(canister(), 1)), None);
    assert_eq!(decode_id(malformed.clone()), Err(Trap::MalformedToken));
    assert_eq!(is_principal_call(malformed, canister()), Err(Trap::MalformedToken));
    assert_eq!(
        decode_id("no principal".to_string()),
        Ok(Err("invalid token id".to_string()))
    );
}

#[test]
fn token_id_refuses_long_canister() {
    let long = Principal::from_slice(&[1; 11]);
    assert_eq!(token_id(long, 1), Err(Trap::CanisterIdTooLong));
    assert_eq!(token_id(canister(), 1), Ok(encode_token_id(canister(), 1)));
}

#[test]
fn account_of_principal_is_the_ledger_account() {
    let p = Principal::from_slice(&[1, 2, 3]);
    let expected = ic_ledger_types::AccountIdentifier::new(
        &candid::Principal::from_slice(&[1, 2, 3]),
        &ic_ledger_types::DEFAULT_SUBACCOUNT,
    )
    .to_string();
    let aid = from_principal(p.clone());
    assert_eq!(aid, expected);
    assert_eq!(aid.len(), 64);
    assert_eq!(to_aid(User::Principal(p)), expected);
    assert_eq!(to_aid(User::Address("abc".to_string())), "abc".to_string());
}

#[test]
fn anonymous_principal_is_the_byte_four() {
    assert_eq!(Principal::anonymous().as_slice(), &[4u8][..]);
    assert_eq!(text_of(Principal::anonymous().as_slice()), "2vxsx-fae");
}
