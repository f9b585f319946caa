use vstd::prelude::*;

use crate::principal::{copy_bytes, Principal};

verus! {

/// A count of tokens.
pub type Balance = u32;

/// The number of a token within this collection.
pub type TokenIndex = u32;

/// A ledger subaccount.
pub type SubAccount = Vec<u8>;

/// The text form of a token: a principal whose bytes hold the canister and the index.
pub type TokenIdentifier = String;

/// The hexadecimal text of a ledger account.
pub type AccountIdentifier = String;

/// The name of an interface extension.
pub type Extension = String;

/// What a balance query answers.
pub type BalanceResponse = Result<Balance, CommonError>;

/// What a transfer answers.
pub type TransferResponse = Result<Balance, TransferError>;

/// A note attached to a transfer.
pub type Memo = Vec<u8>;

/// A decoded token identifier: the canister that issued it and its index there.
#[derive(Clone, Debug, PartialEq, Eq)]
pub struct TokenObj {
    pub index: TokenIndex,
    pub canister: Vec<u8>,
}

/// Someone who can hold a token: a principal, or an account given by its text.
#[derive(Clone, Debug, PartialEq, Eq)]
pub enum User {
    Principal(Principal),
    Address(AccountIdentifier),
}

#[derive(Clone, Debug, PartialEq, Eq)]
pub enum CommonError {
    InvalidToken(TokenIdentifier),
    Other(String),
}

#[derive(Clone, Debug, PartialEq, Eq)]
pub enum TransferError {
    CannotNotify(AccountIdentifier),
    InsufficientBalance(Balance),
    InvalidToken(TokenIdentifier),
    Rejected,
    Unauthorized(AccountIdentifier),
    Other(String),
}

#[derive(Clone, Debug, PartialEq, Eq)]
pub struct AllowanceRequest {
    pub token: TokenIdentifier,
    pub owner: User,
    pub spender: Principal,
}

#[derive(Clone, Debug, PartialEq, Eq)]
pub struct ApproveRequest {
    pub token: TokenIdentifier,
    pub subaccount: Option<SubAccount>,
    pub allowance: Balance,
    pub spender: Principal,
}

#[derive(Clone, Debug, PartialEq, Eq)]
pub struct BalanceRequest {
    pub token: TokenIdentifier,
    pub user: User,
}

#[derive(Clone, Debug, PartialEq, Eq)]
pub struct MintRequest {
    pub to: User,
    pub metadata: Option<Vec<u8>>,
}

#[derive(Clone, Debug, PartialEq, Eq)]
pub struct ClaimRequest {
    pub to: User,
    pub index: TokenIndex,
}

/// What is known of a token.
#[derive(Clone, Debug, PartialEq, Eq)]
pub enum Metadata {
    Fungible { decimals: u8, metadata: Option<Vec<u8>>, name: String, symbol: String },
    NonFungible { metadata: Option<Vec<u8>> },
}

/// The contents of [`Metadata`], as plain values.
pub enum MetadataView {
    Fungible { decimals: u8, metadata: Option<Seq<u8>>, name: Seq<char>, symbol: Seq<char> },
    NonFungible { metadata: Option<Seq<u8>> },
}

pub open spec fn blob_view(b: Option<Vec<u8>>) -> Option<Seq<u8>> {
    match b {
        Some(v) => Some(v@),
        None => None,
    }
}

impl View for Metadata {
    type V = MetadataView;

    open spec fn view(&self) -> MetadataView {
        match self {
            Metadata::Fungible { decimals, metadata, name, symbol } => MetadataView::Fungible {
                decimals: *decimals,
                metadata: blob_view(*metadata),
                name: name@,
                symbol: symbol@,
            },
            Metadata::NonFungible { metadata } => MetadataView::NonFungible {
                metadata: blob_view(*metadata),
            },
        }
    }
}

/// A fresh copy of an optional blob.
pub fn copy_blob(b: &Option<Vec<u8>>) -> (r: Option<Vec<u8>>)
    ensures
        blob_view(r) == blob_view(*b),
{
    match b {
        Some(v) => Some(copy_bytes(v.as_slice())),
        None => None,
    }
}

impl Metadata {
    /// A second value with the same contents.
    pub fn duplicate(&self) -> (r: Metadata)
        ensures
            r@ == self@,
    {
        match self {
            Metadata::Fungible { decimals, metadata, name, symbol } => Metadata::Fungible {
                decimals: *decimals,
                metadata: copy_blob(metadata),
                name: name.clone(),
                symbol: symbol.clone(),
            },
            Metadata::NonFungible { metadata } => Metadata::NonFungible {
                metadata: copy_blob(metadata),
            },
        }
    }
}

#[derive(Clone, Debug, PartialEq, Eq)]
pub struct TransferRequest {
    pub from: User,
    pub to: User,
    pub token: TokenIdentifier,
    pub memo: Memo,
    pub subaccount: Option<SubAccount>,
    pub amount: Balance,
}

#[derive(Clone, Debug, PartialEq, Eq)]
pub struct HeaderField(pub String, pub String);

#[derive(Clone, Debug, PartialEq, Eq)]
pub struct HttpRequest {
    pub method: String,
    pub url: String,
    pub headers: Vec<HeaderField>,
    pub body: Vec<u8>,
}

#[derive(Clone, Debug, PartialEq, Eq)]
pub struct HttpResponse {
    pub status_code: u16,
    pub headers: Vec<HeaderField>,
    pub body: Vec<u8>,
}

/// The counters of the claim campaign.
#[derive(Clone, Debug, PartialEq, Eq)]
pub struct Info {
    pub reserve: u32,
    pub claimed: u32,
    pub available: u32,
    pub supply: u32,
}

} // verus!
