use std::collections::HashMap;

use vstd::prelude::*;
use vstd::std_specs::hash::spec_hash_map_iter;
use vstd::std_specs::iter::IteratorSpec;
use vstd::utf8::encode_utf8;

use crate::account::{account_identifier_text, from_principal, to_aid, user_account};
use crate::keyed_map::KeyedMap;
use crate::principal::Principal;
use crate::token_id::{decoded_canister, decoded_index, get_index, is_principal, token_text_valid};
use crate::types::{
    blob_view, AccountIdentifier, Balance, BalanceResponse, CommonError, Metadata, MetadataView,
    TokenIdentifier, TokenIndex, TransferError, TransferResponse, User,
};

verus! {

/// The owner text that a minted token carries until it is claimed.
pub open spec fn unclaimed_owner() -> Seq<char> {
    "AstroX"@
}

/// The note kept beside each manager.
pub open spec fn manager_note() -> Seq<char> {
    "init manager"@
}

/// The state of the registry as plain values.
pub struct StorageView {
    pub manager: Map<Seq<u8>, Seq<char>>,
    pub minter: Seq<u8>,
    pub registry: Map<u32, Seq<char>>,
    pub allowance: Map<u32, Seq<u8>>,
    pub token_metadata: Map<u32, MetadataView>,
    pub next_token_id: u32,
    pub next_claim_id: u32,
    pub reserve: u32,
    pub supply: u32,
    pub supply_claim: u32,
    pub claimed: Map<Seq<char>, u32>,
}

impl StorageView {
    /// The state after a manager is added.
    pub open spec fn with_manager(self, p: Seq<u8>) -> StorageView {
        StorageView { manager: self.manager.insert(p, manager_note()), ..self }
    }

    /// The state after a token is minted with the given metadata blob.
    pub open spec fn minted(self, metadata: Option<Seq<u8>>) -> StorageView {
        StorageView {
            registry: self.registry.insert(self.next_token_id, unclaimed_owner()),
            token_metadata: self.token_metadata.insert(
                self.next_token_id,
                MetadataView::NonFungible { metadata },
            ),
            supply: (self.supply + 1) as u32,
            next_token_id: (self.next_token_id + 1) as u32,
            ..self
        }
    }

    /// Whether the account has not claimed a token yet.
    pub open spec fn can_claim(self, account: Seq<char>) -> bool {
        !self.claimed.contains_key(account)
    }

    /// The state after the account claims the next claimable token.
    pub open spec fn claimed_by(self, account: Seq<char>) -> StorageView {
        StorageView {
            registry: self.registry.insert(self.next_claim_id, account),
            claimed: self.claimed.insert(account, self.next_claim_id),
            next_claim_id: (self.next_claim_id + 1) as u32,
            ..self
        }
    }

    /// Whether the token is a reserved one still held by the placeholder owner.
    pub open spec fn is_reserved_unclaimed(self, token: u32) -> bool {
        &&& token < self.reserve
        &&& self.registry.contains_key(token)
        &&& self.registry[token] == unclaimed_owner()
    }

    /// Whether a reserved token may be handed out: it is below the reserve, it
    /// exists, and its owner text is shorter than an account (not handed out yet).
    pub open spec fn reserve_open(self, token: u32) -> bool {
        &&& token < self.reserve
        &&& self.registry.contains_key(token)
        &&& encode_utf8(self.registry[token]).len() < 18
    }

    /// The state after a token is given to an account.
    pub open spec fn assigned(self, token: u32, account: Seq<char>) -> StorageView {
        StorageView { registry: self.registry.insert(token, account), ..self }
    }

    /// The state after a token moves to an account, its allowance spent.
    pub open spec fn transferred(self, token: u32, account: Seq<char>) -> StorageView {
        StorageView {
            registry: self.registry.insert(token, account),
            allowance: self.allowance.remove(token),
            ..self
        }
    }

    /// The state after a spender is allowed to move a token.
    pub open spec fn approved(self, token: u32, spender: Seq<u8>) -> StorageView {
        StorageView { allowance: self.allowance.insert(token, spender), ..self }
    }
}

impl StorageView {
    /// The bookkeeping that the operations keep: the supply counts the minted
    /// tokens, exactly the minted tokens have an owner and metadata, and the claim
    /// supply does not exceed the supply.
    pub open spec fn consistent(self) -> bool {
        &&& self.supply == self.next_token_id
        &&& self.supply_claim <= self.supply
        &&& forall|k: u32| #[trigger] self.registry.contains_key(k) <==> k < self.next_token_id
        &&& forall|k: u32| #[trigger] self.token_metadata.contains_key(k) <==> k < self.next_token_id
    }

    /// The state that survives an upgrade: everything but the reserve, which restarts at 0.
    pub open spec fn after_upgrade(self) -> StorageView {
        StorageView { reserve: 0, ..self }
    }
}

/// The part of the registry that is saved across an upgrade (all but the reserve).
pub struct StorageStable {
    pub manager: KeyedMap<Principal, String>,
    pub minter: Principal,
    pub registry: HashMap<TokenIndex, AccountIdentifier>,
    pub allowance: HashMap<TokenIndex, Principal>,
    pub token_metadata: HashMap<TokenIndex, Metadata>,
    pub next_token_id: TokenIndex,
    pub next_claim_id: TokenIndex,
    pub supply: Balance,
    pub supply_claim: Balance,
    pub claimed: KeyedMap<AccountIdentifier, TokenIndex>,
}

impl View for StorageStable {
    type V = StorageView;

    /// The saved state, with the reserve it restores to (0).
    open spec fn view(&self) -> StorageView {
        StorageView {
            manager: self.manager@.map_values(|s: String| s@),
            minter: self.minter@,
            registry: self.registry@.map_values(|s: String| s@),
            allowance: self.allowance@.map_values(|p: Principal| p@),
            token_metadata: self.token_metadata@.map_values(|m: Metadata| m@),
            next_token_id: self.next_token_id,
            next_claim_id: self.next_claim_id,
            reserve: 0,
            supply: self.supply,
            supply_claim: self.supply_claim,
            claimed: self.claimed@,
        }
    }
}

/// How a transfer is decided.
pub enum TransferVerdict {
    /// The text names no token of this canister, or no such token exists.
    BadToken,
    /// The token is not held by the account it is sent from.
    WrongOwner,
    /// The caller is neither the holder nor the approved spender.
    NoAllowance,
    /// The token moves.
    Moved,
}

impl StorageView {
    /// Whether the text names an existing token of the given canister.
    pub open spec fn names_token(self, tid: Seq<char>, canister: Seq<u8>) -> bool {
        decoded_canister(tid) == canister && self.registry.contains_key(decoded_index(tid))
    }

    /// Whether the caller may move the token: it holds it, or it is its approved spender.
    pub open spec fn may_move(self, token: u32, owner: Seq<char>, caller: Seq<u8>) -> bool {
        owner == account_identifier_text(caller)
            || (self.allowance.contains_key(token) && self.allowance[token] == caller)
    }

    /// How a transfer of the token named by `tid` from the account `owner`, asked by
    /// `caller` of canister `canister`, is decided.
    pub open spec fn transfer_verdict(
        self,
        tid: Seq<char>,
        owner: Seq<char>,
        caller: Seq<u8>,
        canister: Seq<u8>,
    ) -> TransferVerdict {
        let token = decoded_index(tid);
        if !self.names_token(tid, canister) {
            TransferVerdict::BadToken
        } else if owner != self.registry[token] {
            TransferVerdict::WrongOwner
        } else if !self.may_move(token, owner, caller) {
            TransferVerdict::NoAllowance
        } else {
            TransferVerdict::Moved
        }
    }

    /// Whether the caller holds the token named by `tid` and so may approve a spender.
    pub open spec fn may_approve(self, tid: Seq<char>, caller: Seq<u8>, canister: Seq<u8>) -> bool {
        self.names_token(tid, canister) && self.registry[decoded_index(tid)]
            == account_identifier_text(caller)
    }
}

/// What a transfer answers and leaves behind.
pub open spec fn transfer_post(
    old: StorageView,
    new: StorageView,
    tid: TokenIdentifier,
    from: User,
    to: User,
    caller: Principal,
    canister: Principal,
    r: TransferResponse,
) -> bool {
    let owner = user_account(from);
    match old.transfer_verdict(tid@, owner, caller@, canister@) {
        TransferVerdict::BadToken => r == Err::<Balance, TransferError>(
            TransferError::InvalidToken(tid),
        ) && new == old,
        TransferVerdict::WrongOwner => (r matches Err(TransferError::Unauthorized(a)) && a@ == owner)
            && new == old,
        TransferVerdict::NoAllowance => (r matches Err(TransferError::Unauthorized(a)) && a@
            == account_identifier_text(caller@)) && new == old,
        TransferVerdict::Moved => r == Ok::<Balance, TransferError>(1) && new == old.transferred(
            decoded_index(tid@),
            user_account(to),
        ),
    }
}

/// What an approval answers and leaves behind.
pub open spec fn approve_post(
    old: StorageView,
    new: StorageView,
    tid: TokenIdentifier,
    spender: Principal,
    caller: Principal,
    canister: Principal,
    r: bool,
) -> bool {
    &&& r == old.may_approve(tid@, caller@, canister@)
    &&& new == if r { old.approved(decoded_index(tid@), spender@) } else { old }
}

/// What an allowance query answers: 1 when `spender` may move the token held by
/// `from`, 0 when not, an error when `from` does not hold it or it does not exist.
pub open spec fn allowance_post(
    s: StorageView,
    tid: TokenIdentifier,
    from: User,
    spender: Principal,
    canister: Principal,
    r: Result<Balance, CommonError>,
) -> bool {
    let token = decoded_index(tid@);
    if !s.names_token(tid@, canister@) {
        r == Err::<Balance, CommonError>(CommonError::InvalidToken(tid))
    } else if user_account(from) != s.registry[token] {
        r matches Err(CommonError::Other(m)) && m@ == "Invalid owner"@
    } else if s.allowance.contains_key(token) && s.allowance[token] == spender@ {
        r == Ok::<Balance, CommonError>(1)
    } else {
        r == Ok::<Balance, CommonError>(0)
    }
}

/// What a balance query answers: 1 when the user holds the token, 0 when not.
pub open spec fn balance_post(
    s: StorageView,
    tid: TokenIdentifier,
    user: User,
    canister: Principal,
    r: BalanceResponse,
) -> bool {
    if !s.names_token(tid@, canister@) {
        r == Err::<Balance, CommonError>(CommonError::InvalidToken(tid))
    } else if user_account(user) == s.registry[decoded_index(tid@)] {
        r == Ok::<Balance, CommonError>(1)
    } else {
        r == Ok::<Balance, CommonError>(0)
    }
}

/// What an owner query answers: the account holding the token.
pub open spec fn owner_of_post(
    s: StorageView,
    tid: TokenIdentifier,
    canister: Principal,
    r: Result<AccountIdentifier, CommonError>,
) -> bool {
    if !s.names_token(tid@, canister@) {
        r == Err::<AccountIdentifier, CommonError>(CommonError::InvalidToken(tid))
    } else {
        r matches Ok(o) && o@ == s.registry[decoded_index(tid@)]
    }
}

/// What a metadata query answers: the metadata of the token.
pub open spec fn metadata_post(
    s: StorageView,
    tid: TokenIdentifier,
    canister: Principal,
    r: Result<Metadata, CommonError>,
) -> bool {
    let token = decoded_index(tid@);
    if decoded_canister(tid@) != canister@ || !s.token_metadata.contains_key(token) {
        r == Err::<Metadata, CommonError>(CommonError::InvalidToken(tid))
    } else {
        r matches Ok(m) && m@ == s.token_metadata[token]
    }
}

/// The registry: managers, minter, owners, allowances, metadata and the counters
/// of the claim campaign.
pub struct Storage {
    pub manager: KeyedMap<Principal, String>,
    pub minter: Principal,
    pub registry: HashMap<TokenIndex, AccountIdentifier>,
    pub allowance: HashMap<TokenIndex, Principal>,
    pub token_metadata: HashMap<TokenIndex, Metadata>,
    pub next_token_id: TokenIndex,
    pub next_claim_id: TokenIndex,
    pub reserve: Balance,
    pub supply: Balance,
    pub supply_claim: Balance,
    pub claimed: KeyedMap<AccountIdentifier, TokenIndex>,
}

/// What a vector holds after a push.
pub proof fn lemma_push_contains<T>(s: Seq<T>, x: T, k: T)
    ensures
        s.push(x).contains(k) <==> (s.contains(k) || k == x),
{
    if s.contains(k) {
        let i = choose|i: int| 0 <= i < s.len() && s[i] == k;
        assert(s.push(x)[i] == k);
    }
    if k == x {
        assert(s.push(x)[s.len() as int] == k);
    }
    if s.push(x).contains(k) {
        let i = choose|i: int| 0 <= i < s.push(x).len() && s.push(x)[i] == k;
        if i < s.len() {
            assert(s[i] == k);
        }
    }
}

impl View for Storage {
    type V = StorageView;

    open spec fn view(&self) -> StorageView {
        StorageView {
            manager: self.manager@.map_values(|s: String| s@),
            minter: self.minter@,
            registry: self.registry@.map_values(|s: String| s@),
            allowance: self.allowance@.map_values(|p: Principal| p@),
            token_metadata: self.token_metadata@.map_values(|m: Metadata| m@),
            next_token_id: self.next_token_id,
            next_claim_id: self.next_claim_id,
            reserve: self.reserve,
            supply: self.supply,
            supply_claim: self.supply_claim,
            claimed: self.claimed@,
        }
    }
}

impl Storage {
    /// An empty registry whose minter is the anonymous principal.
    pub fn new() -> (s: Storage)
        ensures
            s@.manager == Map::<Seq<u8>, Seq<char>>::empty(),
            s@.minter == seq![4u8],
            s@.registry == Map::<u32, Seq<char>>::empty(),
            s@.allowance == Map::<u32, Seq<u8>>::empty(),
            s@.token_metadata == Map::<u32, MetadataView>::empty(),
            s@.next_token_id == 0,
            s@.next_claim_id == 0,
            s@.reserve == 0,
            s@.supply == 0,
            s@.supply_claim == 0,
            s@.claimed == Map::<Seq<char>, u32>::empty(),
            s@.consistent(),
    {
        let s = Storage {
            manager: KeyedMap::new(),
            minter: Principal::anonymous(),
            registry: HashMap::new(),
            allowance: HashMap::new(),
            token_metadata: HashMap::new(),
            next_token_id: 0,
            next_claim_id: 0,
            supply: 0,
            supply_claim: 0,
            claimed: KeyedMap::new(),
            reserve: 0,
        };
        assert(s@.manager =~= Map::<Seq<u8>, Seq<char>>::empty());
        assert(s@.registry =~= Map::<u32, Seq<char>>::empty());
        assert(s@.allowance =~= Map::<u32, Seq<u8>>::empty());
        assert(s@.token_metadata =~= Map::<u32, MetadataView>::empty());
        s
    }

    /// Makes `caller` a manager.
    pub fn init_manager(&mut self, caller: Principal)
        ensures
            final(self)@ == old(self)@.with_manager(caller@),
    {
        let ghost p = caller@;
        let note = String::from_str("init manager");
        self.manager.insert(caller, note);
        assert(self@.manager =~= old(self)@.manager.insert(p, manager_note()));
    }

    /// Makes `caller` a manager and answers how many managers there are.
    pub fn add_manager(&mut self, caller: Principal) -> (n: u64)
        ensures
            final(self)@ == old(self)@.with_manager(caller@),
            n == final(self)@.manager.len(),
    {
        self.init_manager(caller);
        let n = self.manager.len();
        assert(self.manager@.map_values(|s: String| s@).dom() =~= self.manager@.dom());
        n as u64
    }

    /// Whether `caller` is a manager.
    pub fn is_manager(&self, caller: Principal) -> (r: bool)
        ensures
            r == self@.manager.contains_key(caller@),
    {
        self.manager.contains_key(&caller)
    }

    /// Mints the next token with the given metadata; it is owned by the
    /// placeholder "AstroX" until claimed. Answers its index.
    pub fn mint(&mut self, _to: User, metadata: Option<Vec<u8>>) -> (token_id: TokenIndex)
        requires
            old(self).next_token_id < u32::MAX,
            old(self).supply < u32::MAX,
        ensures
            token_id == old(self)@.next_token_id,
            final(self)@ == old(self)@.minted(blob_view(metadata)),
    {
        let token_id = self.next_token_id;
        let ghost blob = blob_view(metadata);
        let md = Metadata::NonFungible { metadata };
        self.registry.insert(token_id, String::from_str("AstroX"));
        self.token_metadata.insert(token_id, md);
        self.supply = self.supply + 1;
        self.next_token_id = self.next_token_id + 1;
        assert(self@.registry =~= old(self)@.registry.insert(token_id, unclaimed_owner()));
        assert(self@.token_metadata =~= old(self)@.token_metadata.insert(
            token_id,
            MetadataView::NonFungible { metadata: blob },
        ));
        token_id
    }

    /// Whether the principal's account has not claimed a token yet.
    pub fn is_claimable(&self, principal: Principal) -> (r: bool)
        ensures
            r == self@.can_claim(account_identifier_text(principal@)),
    {
        let receiver = from_principal(principal);
        !self.claimed.contains_key(&receiver)
    }

    /// Gives the next claimable token to the principal's account and answers its index.
    pub fn claim(&mut self, principal: Principal) -> (token_id: TokenIndex)
        requires
            old(self).next_claim_id < old(self).supply_claim,
            old(self)@.can_claim(account_identifier_text(principal@)),
        ensures
            token_id == old(self).next_claim_id,
            final(self)@ == old(self)@.claimed_by(account_identifier_text(principal@)),
    {
        let receiver = from_principal(principal);
        let token_id = self.next_claim_id;
        let ghost account = receiver@;
        self.registry.insert(token_id, receiver.clone());
        self.claimed.insert(receiver, token_id);
        self.next_claim_id = self.next_claim_id + 1;
        assert(self@.registry =~= old(self)@.registry.insert(token_id, account));
        token_id
    }

    /// Gives a reserved token that is still unassigned to the user's account.
    pub fn force_claim(&mut self, to: User, token_id: TokenIndex) -> (r: TokenIndex)
        requires
            old(self)@.reserve_open(token_id),
        ensures
            r == token_id,
            final(self)@ == old(self)@.assigned(token_id, user_account(to)),
    {
        let receiver = to_aid(to);
        let ghost account = receiver@;
        self.registry.insert(token_id, receiver);
        assert(self@.registry =~= old(self)@.registry.insert(token_id, account));
        token_id
    }

    /// The reserved tokens that no one holds yet, each once, in no set order.
    pub fn reserves(&self) -> (r: Vec<TokenIndex>)
        ensures
            r@.no_duplicates(),
            forall|k: u32| r@.contains(k) <==> self@.is_reserved_unclaimed(k),
    {
        let placeholder = String::from_str("AstroX");
        let mut out: Vec<TokenIndex> = Vec::new();
        let ghost entries = spec_hash_map_iter(&self.registry).remaining();
        for kv in it: self.registry.iter()
            invariant
                placeholder@ == unclaimed_owner(),
                it.seq() == entries,
                entries == spec_hash_map_iter(&self.registry).remaining(),
                entries.no_duplicates(),
                out@.no_duplicates(),
                forall|k: u32| out@.contains(k) <==> exists|j: int|
                    0 <= j < it.index() && *(#[trigger] entries[j]).0 == k
                        && self@.is_reserved_unclaimed(k),
        {
            let ghost j0 = it.index();
            let (key, val) = kv;
            proof {
                assert(kv == entries[j0]);
                assert(self.registry@.contains_key(*entries[j0].0));
            }
            let take = *key < self.reserve && *val == placeholder;
            assert(take == self@.is_reserved_unclaimed(*key));
            let ghost before = out@;
            if take {
                proof {
                    if out@.contains(*key) {
                        let j = choose|j: int|
                            0 <= j < j0 && *(#[trigger] entries[j]).0 == *key
                                && self@.is_reserved_unclaimed(*key);
                        assert(self.registry@.contains_key(*entries[j].0));
                        assert(entries[j] == entries[j0]);
                    }
                }
                out.push(*key);
            }
            proof {
                assert forall|k: u32| out@.contains(k) <==> exists|j: int|
                    0 <= j < j0 + 1 && *(#[trigger] entries[j]).0 == k
                        && self@.is_reserved_unclaimed(k) by {
                    if take {
                        assert(out@ == before.push(*key));
                        lemma_push_contains(before, *key, k);
                    }
                    if k == *key && self@.is_reserved_unclaimed(k) {
                        assert(*entries[j0].0 == k);
                    }
                }
            }
        }
        proof {
            assert forall|k: u32| self@.is_reserved_unclaimed(k) implies out@.contains(k) by {
                assert(entries.contains((&k, &self.registry@[k])));
                let j = choose|j: int| 0 <= j < entries.len() && entries[j] == (&k, &self.registry@[k]);
                assert(*entries[j].0 == k);
            }
        }
        out
    }

    /// Moves a token from one account to another, on behalf of `caller` in canister
    /// `canister`; the token's allowance is spent.
    pub fn transfer_from(
        &mut self,
        tid: TokenIdentifier,
        from: User,
        to: User,
        caller: Principal,
        canister: Principal,
    ) -> (r: TransferResponse)
        requires
            token_text_valid(tid@),
        ensures
            transfer_post(old(self)@, final(self)@, tid, from, to, caller, canister, r),
    {
        if !is_principal(tid.clone(), canister) {
            return Err(TransferError::InvalidToken(tid.clone()));
        }
        let token = get_index(tid.clone());
        let spender = from_principal(caller.duplicate());
        let owner = to_aid(from);
        let receiver = to_aid(to);
        let ghost receiver_account = receiver@;
        match self.registry.get(&token) {
            Some(token_owner) => {
                if owner != *token_owner {
                    return Err(TransferError::Unauthorized(owner));
                }
                if owner != spender {
                    match self.allowance.get(&token) {
                        Some(token_spender) => {
                            if !caller.same_as(token_spender) {
                                return Err(TransferError::Unauthorized(spender));
                            }
                        },
                        None => return Err(TransferError::Unauthorized(spender)),
                    }
                }
                self.allowance.remove(&token);
                self.registry.insert(token, receiver);
                assert(self@.registry =~= old(self)@.registry.insert(token, receiver_account));
                assert(self@.allowance =~= old(self)@.allowance.remove(token));
                Ok(1)
            },
            None => Err(TransferError::InvalidToken(tid)),
        }
    }

    /// Lets `spender` move a token that `caller` holds; answers whether it did.
    pub fn approve(
        &mut self,
        tid: TokenIdentifier,
        spender: Principal,
        caller: Principal,
        canister: Principal,
    ) -> (r: bool)
        requires
            token_text_valid(tid@),
        ensures
            approve_post(old(self)@, final(self)@, tid, spender, caller, canister, r),
    {
        if !is_principal(tid.clone(), canister) {
            return false;
        }
        let token = get_index(tid);
        let owner = from_principal(caller);
        let ghost spender_bytes = spender@;
        match self.registry.get(&token) {
            Some(token_owner) => {
                if owner != *token_owner {
                    return false;
                }
                self.allowance.insert(token, spender);
                assert(self@.allowance =~= old(self)@.allowance.insert(token, spender_bytes));
                true
            },
            None => false,
        }
    }

    /// Whether `spender` may move the token that `from` holds (1) or not (0).
    pub fn allowance(
        &self,
        tid: TokenIdentifier,
        from: User,
        spender: Principal,
        canister: Principal,
    ) -> (r: Result<Balance, CommonError>)
        requires
            token_text_valid(tid@),
        ensures
            allowance_post(self@, tid, from, spender, canister, r),
    {
        if !is_principal(tid.clone(), canister) {
            return Err(CommonError::InvalidToken(tid));
        }
        let token = get_index(tid.clone());
        let owner = to_aid(from);
        match self.registry.get(&token) {
            Some(token_owner) => {
                if owner != *token_owner {
                    return Err(CommonError::Other(String::from_str("Invalid owner")));
                }
                match self.allowance.get(&token) {
                    Some(token_spender) => {
                        if spender.same_as(token_spender) {
                            Ok(1)
                        } else {
                            Ok(0)
                        }
                    },
                    None => Ok(0),
                }
            },
            None => Err(CommonError::InvalidToken(tid)),
        }
    }

    /// Whether the user holds the token (1) or not (0).
    pub fn balance(&self, tid: TokenIdentifier, user: User, canister: Principal) -> (r:
        BalanceResponse)
        requires
            token_text_valid(tid@),
        ensures
            balance_post(self@, tid, user, canister, r),
    {
        if !is_principal(tid.clone(), canister) {
            return Err(CommonError::InvalidToken(tid));
        }
        let token = get_index(tid.clone());
        let aid = to_aid(user);
        match self.registry.get(&token) {
            Some(token_owner) => {
                if aid == *token_owner {
                    Ok(1)
                } else {
                    Ok(0)
                }
            },
            None => Err(CommonError::InvalidToken(tid)),
        }
    }

    /// The account that holds the token.
    pub fn owner_of(&self, tid: TokenIdentifier, canister: Principal) -> (r: Result<
        AccountIdentifier,
        CommonError,
    >)
        requires
            token_text_valid(tid@),
        ensures
            owner_of_post(self@, tid, canister, r),
    {
        if !is_principal(tid.clone(), canister) {
            return Err(CommonError::InvalidToken(tid));
        }
        let token = get_index(tid.clone());
        match self.registry.get(&token) {
            Some(token_owner) => Ok(token_owner.clone()),
            None => Err(CommonError::InvalidToken(tid)),
        }
    }

    /// The metadata of the token.
    pub fn metadata(&self, tid: TokenIdentifier, canister: Principal) -> (r: Result<
        Metadata,
        CommonError,
    >)
        requires
            token_text_valid(tid@),
        ensures
            metadata_post(self@, tid, canister, r),
    {
        if !is_principal(tid.clone(), canister) {
            return Err(CommonError::InvalidToken(tid));
        }
        let token = get_index(tid.clone());
        match self.token_metadata.get(&token) {
            Some(metadata) => Ok(metadata.duplicate()),
            None => Err(CommonError::InvalidToken(tid)),
        }
    }

    /// The state to save before an upgrade.
    pub fn into_stable(self) -> (r: StorageStable)
        ensures
            r@ == self@.after_upgrade(),
    {
        StorageStable {
            manager: self.manager,
            minter: self.minter,
            registry: self.registry,
            allowance: self.allowance,
            token_metadata: self.token_metadata,
            next_token_id: self.next_token_id,
            next_claim_id: self.next_claim_id,
            supply: self.supply,
            supply_claim: self.supply_claim,
            claimed: self.claimed,
        }
    }

    /// The registry restored after an upgrade; its reserve starts again at 0.
    pub fn from_stable(s: StorageStable) -> (r: Storage)
        ensures
            r@ == s@,
    {
        Storage {
            manager: s.manager,
            minter: s.minter,
            registry: s.registry,
            allowance: s.allowance,
            token_metadata: s.token_metadata,
            next_token_id: s.next_token_id,
            next_claim_id: s.next_claim_id,
            supply: s.supply,
            supply_claim: s.supply_claim,
            claimed: s.claimed,
            reserve: 0,
        }
    }
}

} // verus!
