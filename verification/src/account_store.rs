//! The accounts that requests rotate over, and the keys that callers hold.

use vstd::prelude::*;
use vstd::string::*;

use crate::clock::{in_millis, is_reading, millis_of, now_ms};
use crate::ids::{api_key_from, api_key_text, is_uuid, new_uuid};
use crate::seqs::{
    first, lemma_filter_alike, lemma_filter_distinct, lemma_filter_pushed, lemma_filter_take,
    lemma_first_beside, lemma_first_dropped, lemma_first_kept, lemma_first_pushed,
    lemma_first_updated, lemma_position, lemma_position_is, lemma_position_none,
    lemma_update_first_at, position, update_first,
};

verus! {

/// Account status.
#[derive(Debug, Clone, Copy, PartialEq, Eq, Structural)]
pub enum AccountStatus {
    Active,
    Inactive,
    Error,
    ReAuth,
}

impl AccountStatus {
    /// The name of the status.
    pub open spec fn name(self) -> Seq<char> {
        match self {
            AccountStatus::Active => "active"@,
            AccountStatus::Inactive => "inactive"@,
            AccountStatus::Error => "error"@,
            AccountStatus::ReAuth => "re-auth"@,
        }
    }

    /// The name of the status.
    pub fn to_string(&self) -> (name: String)
        ensures
            name@ == self.name(),
    {
        match self {
            AccountStatus::Active => "active".to_owned(),
            AccountStatus::Inactive => "inactive".to_owned(),
            AccountStatus::Error => "error".to_owned(),
            AccountStatus::ReAuth => "re-auth".to_owned(),
        }
    }
}

/// A Copilot account with tokens.
#[derive(Debug)]
pub struct CopilotAccount {
    pub id: String,
    pub label: String,
    pub github_token: String,
    pub copilot_token: Option<String>,
    pub copilot_token_expiry: Option<u64>,
    pub account_type: String,
    pub status: AccountStatus,
    pub last_used: Option<u64>,
    pub error_count: u32,
    pub created_at: u64,
}

impl Clone for CopilotAccount {
    fn clone(&self) -> (same: CopilotAccount)
        ensures
            same == *self,
    {
        CopilotAccount {
            id: self.id.clone(),
            label: self.label.clone(),
            github_token: self.github_token.clone(),
            copilot_token: match &self.copilot_token {
                Some(token) => Some(token.clone()),
                None => None,
            },
            copilot_token_expiry: self.copilot_token_expiry,
            account_type: self.account_type.clone(),
            status: self.status,
            last_used: self.last_used,
            error_count: self.error_count,
            created_at: self.created_at,
        }
    }
}

/// An API key entry.
#[derive(Debug)]
pub struct ApiKeyEntry {
    pub key: String,
    pub label: String,
    pub created_at: u64,
    pub last_used: Option<u64>,
    pub request_count: u64,
}

impl Clone for ApiKeyEntry {
    fn clone(&self) -> (same: ApiKeyEntry)
        ensures
            same == *self,
    {
        ApiKeyEntry {
            key: self.key.clone(),
            label: self.label.clone(),
            created_at: self.created_at,
            last_used: self.last_used,
            request_count: self.request_count,
        }
    }
}

/// The accounts, the place of the rotation, and the keys: what is kept on disk.
#[derive(Debug)]
pub struct AccountsData {
    pub accounts: Vec<CopilotAccount>,
    pub rotation_index: usize,
    pub api_keys: Vec<ApiKeyEntry>,
}

impl Default for AccountsData {
    fn default() -> (data: AccountsData)
        ensures
            data.accounts@ == Seq::<CopilotAccount>::empty(),
            data.rotation_index == 0,
            data.api_keys@ == Seq::<ApiKeyEntry>::empty(),
    {
        AccountsData { accounts: Vec::new(), rotation_index: 0, api_keys: Vec::new() }
    }
}

/// The store of accounts and keys.
#[derive(Debug)]
pub struct AccountStore {
    pub data: AccountsData,
}

// ---------------------------------------------------------------------------
// What the store computes
// ---------------------------------------------------------------------------

/// An account that requests may go to: active, with a token.
pub open spec fn ready() -> spec_fn(CopilotAccount) -> bool {
    |account: CopilotAccount|
        account.status == AccountStatus::Active && account.copilot_token is Some
}

/// The account has that id.
pub open spec fn has_id(id: Seq<char>) -> spec_fn(CopilotAccount) -> bool {
    |account: CopilotAccount| account.id@ == id
}

/// The account has another id.
pub open spec fn has_other_id(id: Seq<char>) -> spec_fn(CopilotAccount) -> bool {
    |account: CopilotAccount| account.id@ != id
}

/// The entry is of that key.
pub open spec fn has_key(key: Seq<char>) -> spec_fn(ApiKeyEntry) -> bool {
    |entry: ApiKeyEntry| entry.key@ == key
}

/// The entry is of another key.
pub open spec fn has_other_key(key: Seq<char>) -> spec_fn(ApiKeyEntry) -> bool {
    |entry: ApiKeyEntry| entry.key@ != key
}

/// Whatever the account is, it becomes that one.
pub open spec fn becomes(updated: CopilotAccount) -> spec_fn(CopilotAccount) -> CopilotAccount {
    |account: CopilotAccount| updated
}

/// The account, last used at that time.
pub open spec fn used_at(now: u64) -> spec_fn(CopilotAccount) -> CopilotAccount {
    |account: CopilotAccount| CopilotAccount { last_used: Some(now), ..account }
}

/// The account with the token that the service has given it: active, until the
/// token ends.
pub open spec fn activated(
    account: CopilotAccount,
    token: String,
    expires_at: u64,
) -> CopilotAccount {
    CopilotAccount {
        copilot_token: Some(token),
        copilot_token_expiry: Some(in_millis(expires_at)),
        status: AccountStatus::Active,
        ..account
    }
}

/// The account with the token that the service has given it, and no errors.
pub open spec fn refreshed(
    account: CopilotAccount,
    token: String,
    expires_at: u64,
) -> CopilotAccount {
    CopilotAccount { error_count: 0, ..activated(account, token, expires_at) }
}

/// One more, with the wrap of a `u32`.
pub open spec fn next_count(count: u32) -> u32 {
    if count == u32::MAX {
        0
    } else {
        (count + 1) as u32
    }
}

/// The account after one more error: from the third on it stands in error.
pub open spec fn failed() -> spec_fn(CopilotAccount) -> CopilotAccount {
    |account: CopilotAccount|
        CopilotAccount {
            error_count: next_count(account.error_count),
            status: if next_count(account.error_count) >= 3 {
                AccountStatus::Error
            } else {
                account.status
            },
            ..account
        }
}

/// The entry after one more request at that time.
pub open spec fn counted_at(now: u64) -> spec_fn(ApiKeyEntry) -> ApiKeyEntry {
    |entry: ApiKeyEntry|
        ApiKeyEntry {
            request_count: if entry.request_count == u64::MAX {
                0
            } else {
                (entry.request_count + 1) as u64
            },
            last_used: Some(now),
            ..entry
        }
}

/// An account as it is first stored.
pub open spec fn is_new_account(
    account: CopilotAccount,
    id: Seq<char>,
    label: String,
    github_token: String,
    account_type: String,
    now: u64,
) -> bool {
    &&& account.id@ == id
    &&& account.label == label
    &&& account.github_token == github_token
    &&& account.copilot_token is None
    &&& account.copilot_token_expiry is None
    &&& account.account_type == account_type
    &&& account.status == AccountStatus::Inactive
    &&& account.last_used is None
    &&& account.error_count == 0
    &&& account.created_at == now
}

/// An entry as it is first stored.
pub open spec fn is_new_key(entry: ApiKeyEntry, id: Seq<char>, label: String, now: u64) -> bool {
    &&& entry.key@ == api_key_text(id)
    &&& entry.label == label
    &&& entry.created_at == now
    &&& entry.last_used is None
    &&& entry.request_count == 0
}

impl AccountStore {
    /// The accounts, in the order in which they were added.
    pub open spec fn accounts(self) -> Seq<CopilotAccount> {
        self.data.accounts@
    }

    /// The keys, in the order in which they were added.
    pub open spec fn keys(self) -> Seq<ApiKeyEntry> {
        self.data.api_keys@
    }

    /// The accounts that requests rotate over.
    pub open spec fn active(self) -> Seq<CopilotAccount> {
        self.accounts().filter(ready())
    }

    /// Where the rotation stands.
    pub open spec fn turn(self) -> int {
        self.data.rotation_index as int
    }

    /// Where the rotation stands after one more request.
    pub open spec fn next_turn(self) -> int {
        one_further(self.active().len() as int, self.turn())
    }
}

/// One further around that many accounts, with the wrap of a `usize`.
pub open spec fn one_further(count: int, turn: int) -> int {
    if turn == usize::MAX {
        0
    } else {
        (turn + 1) % count
    }
}

// ---------------------------------------------------------------------------
// The store
// ---------------------------------------------------------------------------

/// Gives an account the token that the service has given for it.
pub fn activate(account: &mut CopilotAccount, token: String, expires_at: u64)
    ensures
        *final(account) == activated(*old(account), token, expires_at),
{
    account.copilot_token = Some(token);
    account.copilot_token_expiry = Some(millis_of(expires_at));
    account.status = AccountStatus::Active;
}

/// Gives an account the token that the service has given for it, and clears
/// its errors.
pub fn refresh(account: &mut CopilotAccount, token: String, expires_at: u64)
    ensures
        *final(account) == refreshed(*old(account), token, expires_at),
{
    activate(account, token, expires_at);
    account.error_count = 0;
}

/// Whether requests may go to the account.
fn is_ready(account: &CopilotAccount) -> (is: bool)
    ensures
        is == ready()(*account),
{
    account.status == AccountStatus::Active && account.copilot_token.is_some()
}

impl AccountStore {
    /// A store without accounts and keys.
    pub fn new() -> (store: AccountStore)
        ensures
            store.accounts() == Seq::<CopilotAccount>::empty(),
            store.turn() == 0,
            store.keys() == Seq::<ApiKeyEntry>::empty(),
    {
        AccountStore { data: AccountsData::default() }
    }

    /// Takes over what was read from disk, where a file was there.
    pub fn load(&mut self, content: Option<AccountsData>)
        ensures
            final(self).data == match content {
                Some(data) => data,
                None => old(self).data,
            },
    {
        if let Some(data) = content {
            self.data = data;
        }
    }

    // ── Accounts ──────────────────────────────────────────────────────────

    /// All accounts.
    pub fn get_all_accounts(&self) -> (accounts: Vec<CopilotAccount>)
        ensures
            accounts@ == self.accounts(),
    {
        let mut accounts: Vec<CopilotAccount> = Vec::new();
        let count: usize = self.data.accounts.len();
        let mut i: usize = 0;
        while i < count
            invariant
                i <= count,
                count == self.data.accounts.len(),
                accounts@ == self.accounts().take(i as int),
            decreases count - i,
        {
            accounts.push(self.data.accounts[i].clone());
            proof {
                assert(self.accounts().take(i + 1) =~= self.accounts().take(i as int).push(
                    self.accounts()[i as int],
                ));
            }
            i = i + 1;
        }
        proof {
            assert(self.accounts().take(count as int) =~= self.accounts());
        }
        accounts
    }

    /// The accounts that requests may go to.
    pub fn get_active_accounts(&self) -> (accounts: Vec<CopilotAccount>)
        ensures
            accounts@ == self.active(),
    {
        let mut accounts: Vec<CopilotAccount> = Vec::new();
        let count: usize = self.data.accounts.len();
        let mut i: usize = 0;
        proof {
            reveal(Seq::filter);
            assert(self.accounts().take(0).filter(ready()) =~= seq![]);
        }
        while i < count
            invariant
                i <= count,
                count == self.data.accounts.len(),
                accounts@ == self.accounts().take(i as int).filter(ready()),
            decreases count - i,
        {
            proof {
                lemma_filter_take(self.accounts(), ready(), i as int);
            }
            if is_ready(&self.data.accounts[i]) {
                accounts.push(self.data.accounts[i].clone());
            }
            i = i + 1;
        }
        proof {
            assert(self.accounts().take(count as int) =~= self.accounts());
        }
        accounts
    }

    /// The place of the first account of that id.
    fn find_account(&self, id: &str) -> (place: Option<usize>)
        ensures
            match place {
                Some(i) => i < self.accounts().len() && position(self.accounts(), has_id(id@))
                    == Some(i as int),
                None => position(self.accounts(), has_id(id@)) is None,
            },
    {
        let count: usize = self.data.accounts.len();
        let mut i: usize = 0;
        while i < count
            invariant
                i <= count,
                count == self.data.accounts.len(),
                forall|j: int| 0 <= j < i ==> !has_id(id@)(#[trigger] self.accounts()[j]),
            decreases count - i,
        {
            if crate::text::same_text(self.data.accounts[i].id.as_str(), id) {
                proof {
                    lemma_position_is(self.accounts(), has_id(id@), i as int);
                }
                return Some(i);
            }
            i = i + 1;
        }
        proof {
            lemma_position_none(self.accounts(), has_id(id@));
        }
        None
    }

    /// The first account of that id.
    pub fn get_account(&self, id: &str) -> (account: Option<CopilotAccount>)
        ensures
            account == first(self.accounts(), has_id(id@)),
    {
        match self.find_account(id) {
            Some(i) => Some(self.data.accounts[i].clone()),
            None => None,
        }
    }

    /// Stores a new account under that id.
    pub fn add_account_with(
        &mut self,
        id: String,
        now: u64,
        label: String,
        github_token: String,
        account_type: String,
    ) -> (account: CopilotAccount)
        ensures
            is_new_account(account, id@, label, github_token, account_type, now),
            final(self).accounts() == old(self).accounts().push(account),
            final(self).turn() == old(self).turn(),
            final(self).keys() == old(self).keys(),
    {
        let account: CopilotAccount = CopilotAccount {
            id,
            label,
            github_token,
            copilot_token: None,
            copilot_token_expiry: None,
            account_type,
            status: AccountStatus::Inactive,
            last_used: None,
            error_count: 0,
            created_at: now,
        };
        self.data.accounts.push(account.clone());
        account
    }

    /// Stores a new account under a random id, as of now.
    pub fn add_account(
        &mut self,
        label: String,
        github_token: String,
        account_type: String,
    ) -> (account: CopilotAccount)
        ensures
            is_uuid(account.id@),
            is_reading(account.created_at),
            is_new_account(
                account,
                account.id@,
                label,
                github_token,
                account_type,
                account.created_at,
            ),
            final(self).accounts() == old(self).accounts().push(account),
            final(self).turn() == old(self).turn(),
            final(self).keys() == old(self).keys(),
    {
        let id: String = new_uuid();
        let now: u64 = now_ms();
        self.add_account_with(id, now, label, github_token, account_type)
    }

    /// Replaces the first account of the same id.
    pub fn update_account(&mut self, updated: CopilotAccount)
        ensures
            final(self).accounts() == update_first(
                old(self).accounts(),
                has_id(updated.id@),
                becomes(updated),
            ),
            final(self).turn() == old(self).turn(),
            final(self).keys() == old(self).keys(),
    {
        match self.find_account(updated.id.as_str()) {
            Some(i) => {
                self.data.accounts.set(i, updated);
            },
            None => {},
        }
    }

    /// Removes the accounts of that id; tells whether there was one.
    pub fn remove_account(&mut self, id: &str) -> (removed: bool)
        ensures
            final(self).accounts() == old(self).accounts().filter(has_other_id(id@)),
            removed == exists|i: int|
                0 <= i < old(self).accounts().len() && #[trigger] old(self).accounts()[i].id@
                    == id@,
            final(self).turn() == old(self).turn(),
            final(self).keys() == old(self).keys(),
    {
        let ghost before = self.accounts();
        let mut kept: Vec<CopilotAccount> = Vec::new();
        let mut removed: bool = false;
        let count: usize = self.data.accounts.len();
        let mut i: usize = 0;
        proof {
            reveal(Seq::filter);
            assert(before.take(0).filter(has_other_id(id@)) =~= seq![]);
        }
        while i < count
            invariant
                i <= count,
                count == self.data.accounts.len(),
                *self == *old(self),
                before == self.accounts(),
                kept@ == before.take(i as int).filter(has_other_id(id@)),
                removed == exists|j: int| 0 <= j < i && #[trigger] before[j].id@ == id@,
            decreases count - i,
        {
            proof {
                lemma_filter_take(before, has_other_id(id@), i as int);
            }
            if crate::text::same_text(self.data.accounts[i].id.as_str(), id) {
                removed = true;
                proof {
                    assert(before[i as int].id@ == id@);
                }
            } else {
                kept.push(self.data.accounts[i].clone());
            }
            i = i + 1;
        }
        proof {
            assert(before.take(count as int) =~= before);
        }
        self.data.accounts = kept;
        removed
    }

    // ── Rotation ──────────────────────────────────────────────────────────

    /// The account whose turn it is; the turn passes to the next. None where
    /// no account is active.
    pub fn get_next_rotation_account(&mut self) -> (account: Option<CopilotAccount>)
        ensures
            old(self).active().len() == 0 ==> account is None && *final(self) == *old(self),
            old(self).active().len() > 0 ==> {
                &&& account == Some(
                    old(self).active()[old(self).turn() % old(self).active().len() as int],
                )
                &&& final(self).turn() == old(self).next_turn()
                &&& final(self).accounts() == old(self).accounts()
                &&& final(self).keys() == old(self).keys()
            },
    {
        let mut active: Vec<CopilotAccount> = self.get_active_accounts();
        let count: usize = active.len();
        if count == 0 {
            return None;
        }
        let turn: usize = self.data.rotation_index;
        let chosen: usize = turn % count;
        let next: usize = turn.wrapping_add(1);
        proof {
            vstd::arithmetic::div_mod::lemma_small_mod(0, count as nat);
            assert(next == if turn == usize::MAX {
                0
            } else {
                turn + 1
            });
        }
        self.data.rotation_index = next % count;
        Some(active.swap_remove(chosen))
    }

    /// Notes a use of the first account of that id at that time.
    pub fn mark_account_used_at(&mut self, id: &str, now: u64)
        ensures
            final(self).accounts() == update_first(old(self).accounts(), has_id(id@), used_at(now)),
            final(self).turn() == old(self).turn(),
            final(self).keys() == old(self).keys(),
    {
        match self.find_account(id) {
            Some(i) => {
                let mut account: CopilotAccount = self.data.accounts[i].clone();
                account.last_used = Some(now);
                self.data.accounts.set(i, account);
            },
            None => {},
        }
    }

    /// Notes a use of the first account of that id, now.
    pub fn mark_account_used(&mut self, id: &str)
        ensures
            exists|now: u64| #[trigger]
                is_reading(now) && final(self).accounts() == update_first(
                    old(self).accounts(),
                    has_id(id@),
                    used_at(now),
                ),
            final(self).turn() == old(self).turn(),
            final(self).keys() == old(self).keys(),
    {
        let now: u64 = now_ms();
        self.mark_account_used_at(id, now);
    }

    /// Notes an error of the first account of that id: the third takes it out
    /// of the rotation.
    pub fn mark_account_error(&mut self, id: &str)
        ensures
            final(self).accounts() == update_first(old(self).accounts(), has_id(id@), failed()),
            final(self).turn() == old(self).turn(),
            final(self).keys() == old(self).keys(),
    {
        match self.find_account(id) {
            Some(i) => {
                let mut account: CopilotAccount = self.data.accounts[i].clone();
                account.error_count = account.error_count.wrapping_add(1);
                if account.error_count >= 3 {
                    account.status = AccountStatus::Error;
                }
                self.data.accounts.set(i, account);
            },
            None => {},
        }
    }

    // ── API keys ──────────────────────────────────────────────────────────

    /// All keys.
    pub fn get_api_keys(&self) -> (keys: Vec<ApiKeyEntry>)
        ensures
            keys@ == self.keys(),
    {
        let mut keys: Vec<ApiKeyEntry> = Vec::new();
        let count: usize = self.data.api_keys.len();
        let mut i: usize = 0;
        while i < count
            invariant
                i <= count,
                count == self.data.api_keys.len(),
                keys@ == self.keys().take(i as int),
            decreases count - i,
        {
            keys.push(self.data.api_keys[i].clone());
            proof {
                assert(self.keys().take(i + 1) =~= self.keys().take(i as int).push(
                    self.keys()[i as int],
                ));
            }
            i = i + 1;
        }
        proof {
            assert(self.keys().take(count as int) =~= self.keys());
        }
        keys
    }

    /// Stores a new key made from that id.
    pub fn add_api_key_with(&mut self, id: &str, now: u64, label: String) -> (entry: ApiKeyEntry)
        ensures
            is_new_key(entry, id@, label, now),
            final(self).keys() == old(self).keys().push(entry),
            final(self).accounts() == old(self).accounts(),
            final(self).turn() == old(self).turn(),
    {
        let entry: ApiKeyEntry = ApiKeyEntry {
            key: api_key_from(id),
            label,
            created_at: now,
            last_used: None,
            request_count: 0,
        };
        self.data.api_keys.push(entry.clone());
        entry
    }

    /// Stores a new random key, as of now.
    pub fn add_api_key(&mut self, label: String) -> (entry: ApiKeyEntry)
        ensures
            exists|id: Seq<char>| #[trigger]
                is_uuid(id) && is_new_key(entry, id, label, entry.created_at),
            is_reading(entry.created_at),
            final(self).keys() == old(self).keys().push(entry),
            final(self).accounts() == old(self).accounts(),
            final(self).turn() == old(self).turn(),
    {
        let id: String = new_uuid();
        let now: u64 = now_ms();
        self.add_api_key_with(id.as_str(), now, label)
    }

    /// Removes the entries of that key; tells whether there was one.
    pub fn remove_api_key(&mut self, key: &str) -> (removed: bool)
        ensures
            final(self).keys() == old(self).keys().filter(has_other_key(key@)),
            removed == exists|i: int|
                0 <= i < old(self).keys().len() && #[trigger] old(self).keys()[i].key@ == key@,
            final(self).accounts() == old(self).accounts(),
            final(self).turn() == old(self).turn(),
    {
        let ghost before = self.keys();
        let mut kept: Vec<ApiKeyEntry> = Vec::new();
        let mut removed: bool = false;
        let count: usize = self.data.api_keys.len();
        let mut i: usize = 0;
        proof {
            reveal(Seq::filter);
            assert(before.take(0).filter(has_other_key(key@)) =~= seq![]);
        }
        while i < count
            invariant
                i <= count,
                count == self.data.api_keys.len(),
                *self == *old(self),
                before == self.keys(),
                kept@ == before.take(i as int).filter(has_other_key(key@)),
                removed == exists|j: int| 0 <= j < i && #[trigger] before[j].key@ == key@,
            decreases count - i,
        {
            proof {
                lemma_filter_take(before, has_other_key(key@), i as int);
            }
            if crate::text::same_text(self.data.api_keys[i].key.as_str(), key) {
                removed = true;
                proof {
                    assert(before[i as int].key@ == key@);
                }
            } else {
                kept.push(self.data.api_keys[i].clone());
            }
            i = i + 1;
        }
        proof {
            assert(before.take(count as int) =~= before);
        }
        self.data.api_keys = kept;
        removed
    }

    /// The place of the first entry of that key.
    fn find_key(&self, key: &str) -> (place: Option<usize>)
        ensures
            match place {
                Some(i) => i < self.keys().len() && position(self.keys(), has_key(key@)) == Some(
                    i as int,
                ),
                None => position(self.keys(), has_key(key@)) is None,
            },
    {
        let count: usize = self.data.api_keys.len();
        let mut i: usize = 0;
        while i < count
            invariant
                i <= count,
                count == self.data.api_keys.len(),
                forall|j: int| 0 <= j < i ==> !has_key(key@)(#[trigger] self.keys()[j]),
            decreases count - i,
        {
            if crate::text::same_text(self.data.api_keys[i].key.as_str(), key) {
                proof {
                    lemma_position_is(self.keys(), has_key(key@), i as int);
                }
                return Some(i);
            }
            i = i + 1;
        }
        proof {
            lemma_position_none(self.keys(), has_key(key@));
        }
        None
    }

    /// The first entry of that key.
    pub fn validate_api_key(&self, key: &str) -> (entry: Option<ApiKeyEntry>)
        ensures
            entry == first(self.keys(), has_key(key@)),
    {
        match self.find_key(key) {
            Some(i) => Some(self.data.api_keys[i].clone()),
            None => None,
        }
    }

    /// Counts a request under the first entry of that key, at that time.
    pub fn record_api_key_usage_at(&mut self, key: &str, now: u64)
        ensures
            final(self).keys() == update_first(old(self).keys(), has_key(key@), counted_at(now)),
            final(self).accounts() == old(self).accounts(),
            final(self).turn() == old(self).turn(),
    {
        match self.find_key(key) {
            Some(i) => {
                let mut entry: ApiKeyEntry = self.data.api_keys[i].clone();
                entry.request_count = entry.request_count.wrapping_add(1);
                entry.last_used = Some(now);
                self.data.api_keys.set(i, entry);
            },
            None => {},
        }
    }

    /// Counts a request under the first entry of that key, now.
    pub fn record_api_key_usage(&mut self, key: &str)
        ensures
            exists|now: u64| #[trigger]
                is_reading(now) && final(self).keys() == update_first(
                    old(self).keys(),
                    has_key(key@),
                    counted_at(now),
                ),
            final(self).accounts() == old(self).accounts(),
            final(self).turn() == old(self).turn(),
    {
        let now: u64 = now_ms();
        self.record_api_key_usage_at(key, now);
    }

    /// Whether callers need a key.
    pub fn has_api_keys(&self) -> (has: bool)
        ensures
            has == (self.keys().len() > 0),
    {
        !self.data.api_keys.is_empty()
    }
}

// ---------------------------------------------------------------------------
// Laws
// ---------------------------------------------------------------------------

/// Where the rotation stands after so many requests.
pub open spec fn turn_after(count: int, turn: int, requests: nat) -> int
    decreases requests,
{
    if requests == 0 {
        turn
    } else {
        one_further(count, turn_after(count, turn, (requests - 1) as nat))
    }
}

/// Requests go around the active accounts one by one: after so many requests
/// the turn has come so many accounts further. (A turn of `usize::MAX`, which
/// wraps, is left out.)
pub proof fn law_turns_go_around(count: int, turn: int, requests: nat)
    requires
        0 < count <= usize::MAX,
        0 <= turn < usize::MAX,
    ensures
        turn_after(count, turn, requests) % count == (turn + requests) % count,
        0 <= turn_after(count, turn, requests) < usize::MAX,
    decreases requests,
{
    if requests > 0 {
        let before = turn_after(count, turn, (requests - 1) as nat);
        law_turns_go_around(count, turn, (requests - 1) as nat);
        vstd::arithmetic::div_mod::lemma_mod_bound(before + 1, count);
        vstd::arithmetic::div_mod::lemma_mod_twice(before + 1, count);
        vstd::arithmetic::div_mod::lemma_add_mod_noop(before, 1, count);
        vstd::arithmetic::div_mod::lemma_add_mod_noop(turn + requests - 1, 1, count);
    }
}

impl AccountStore {
    /// The place among the active accounts of the one that serves a request,
    /// after so many others and while the accounts stay the same.
    pub open spec fn place_after(self, requests: nat) -> int {
        turn_after(self.active().len() as int, self.turn(), requests)
            % self.active().len() as int
    }

    /// One of as many requests in a row as there are active accounts goes to
    /// the one at that place.
    pub open spec fn gets_a_request(self, place: int) -> bool {
        exists|request: nat|
            request < self.active().len() && #[trigger] self.place_after(request) == place
    }
}

proof fn lemma_turns_shift(count: int, turn: int, requests: nat)
    ensures
        turn_after(count, one_further(count, turn), requests) == turn_after(
            count,
            turn,
            requests + 1,
        ),
    decreases requests,
{
    if requests > 0 {
        lemma_turns_shift(count, turn, (requests - 1) as nat);
        assert(turn_after(count, turn, requests) == one_further(
            count,
            turn_after(count, turn, (requests - 1) as nat),
        ));
    } else {
        assert(turn_after(count, turn, 0) == turn);
    }
    assert(turn_after(count, turn, requests + 1) == one_further(
        count,
        turn_after(count, turn, requests),
    ));
}

/// What is next for a store after a request was second next before it, and the
/// request itself went to what was next.
pub proof fn law_turns_pass_on(before: AccountStore, after: AccountStore, requests: nat)
    requires
        after.accounts() == before.accounts(),
        after.turn() == before.next_turn(),
    ensures
        before.place_after(0) == before.turn() % before.active().len() as int,
        after.place_after(requests) == before.place_after(requests + 1),
{
    lemma_turns_shift(before.active().len() as int, before.turn(), requests);
}

/// The rotation is fair: while the accounts stay the same, as many requests in
/// a row as there are active accounts go to each of them once. (A turn of
/// `usize::MAX`, which wraps, is left out.)
pub proof fn law_round_robin(store: AccountStore)
    requires
        store.active().len() > 0,
        store.turn() < usize::MAX,
    ensures
        forall|place: int|
            0 <= place < store.active().len() ==> #[trigger] store.gets_a_request(place),
        forall|a: nat, b: nat|
            a < b < store.active().len() ==> #[trigger] store.place_after(a)
                != #[trigger] store.place_after(b),
{
    let count = store.active().len() as int;
    let turn = store.turn();
    store.accounts().lemma_filter_len(ready());
    assert(store.data.accounts.len() <= usize::MAX);
    assert forall|place: int| 0 <= place < count implies #[trigger] store.gets_a_request(place) by {
        let request = ((place - turn) % count) as nat;
        vstd::arithmetic::div_mod::lemma_mod_bound(place - turn, count);
        law_turns_go_around(count, turn, request);
        vstd::arithmetic::div_mod::lemma_add_mod_noop_right(turn, place - turn, count);
        vstd::arithmetic::div_mod::lemma_small_mod(place as nat, count as nat);
        assert(store.place_after(request) == place);
    }
    assert forall|a: nat, b: nat| a < b < count implies #[trigger] store.place_after(a)
        != #[trigger] store.place_after(b) by {
        law_turns_go_around(count, turn, a);
        law_turns_go_around(count, turn, b);
        if (turn + a) % count == (turn + b) % count {
            vstd::arithmetic::div_mod::lemma_sub_mod_noop(turn + b, turn + a, count);
            vstd::arithmetic::div_mod::lemma_small_mod((b - a) as nat, count as nat);
            vstd::arithmetic::div_mod::lemma_small_mod(0, count as nat);
        }
    }
}

/// Requests go to stored accounts only, to active ones with a token.
pub proof fn law_only_ready_accounts(store: AccountStore)
    ensures
        forall|i: int|
            0 <= i < store.active().len() ==> ready()(#[trigger] store.active()[i])
                && store.accounts().contains(store.active()[i]),
{
    assert forall|i: int| 0 <= i < store.active().len() implies ready()(
        #[trigger] store.active()[i],
    ) && store.accounts().contains(store.active()[i]) by {
        store.accounts().lemma_filter_pred(ready(), i);
        store.accounts().lemma_filter_contains_rev(ready(), store.active()[i]);
    }
}

/// An account of which a third error is noted gets no requests any more. (A
/// count of errors that wraps is left out.)
pub proof fn law_third_error_ends_the_turns(accounts: Seq<CopilotAccount>, id: Seq<char>)
    requires
        first(accounts, has_id(id)) matches Some(account) && 2 <= account.error_count < u32::MAX,
    ensures
        first(update_first(accounts, has_id(id), failed()), has_id(id)) matches Some(account)
            && account.status == AccountStatus::Error && !ready()(account),
{
    lemma_first_updated(accounts, has_id(id), failed());
}

/// Three errors of an account without any put it in error.
pub proof fn law_three_errors(account: CopilotAccount)
    requires
        account.error_count == 0,
    ensures
        failed()(account).status == account.status,
        failed()(failed()(account)).status == account.status,
        failed()(failed()(failed()(account))).status == AccountStatus::Error,
{
}

/// An updated account is what is found under its id; under other ids all is as
/// it was.
pub proof fn law_update_then_get(
    accounts: Seq<CopilotAccount>,
    updated: CopilotAccount,
    other: Seq<char>,
)
    ensures
        first(accounts, has_id(updated.id@)) is Some ==> first(
            update_first(accounts, has_id(updated.id@), becomes(updated)),
            has_id(updated.id@),
        ) == Some(updated),
        first(accounts, has_id(updated.id@)) is None ==> update_first(
            accounts,
            has_id(updated.id@),
            becomes(updated),
        ) == accounts,
        other != updated.id@ ==> first(
            update_first(accounts, has_id(updated.id@), becomes(updated)),
            has_id(other),
        ) == first(accounts, has_id(other)),
{
    lemma_first_updated(accounts, has_id(updated.id@), becomes(updated));
    if other != updated.id@ {
        lemma_first_beside(accounts, has_id(updated.id@), becomes(updated), has_id(other));
    }
}

/// A removed account is not found any more; the others are as they were.
pub proof fn law_remove_then_get(accounts: Seq<CopilotAccount>, id: Seq<char>, other: Seq<char>)
    ensures
        first(accounts.filter(has_other_id(id)), has_id(id)) is None,
        other != id ==> first(accounts.filter(has_other_id(id)), has_id(other)) == first(
            accounts,
            has_id(other),
        ),
{
    lemma_first_dropped(accounts, has_other_id(id), has_id(id));
    if other != id {
        lemma_first_kept(accounts, has_other_id(id), has_id(other));
    }
}

/// A stored account is found under its id, where that id is new; the others
/// are as they were.
pub proof fn law_add_then_get(
    accounts: Seq<CopilotAccount>,
    account: CopilotAccount,
    other: Seq<char>,
)
    ensures
        first(accounts, has_id(account.id@)) is None ==> first(
            accounts.push(account),
            has_id(account.id@),
        ) == Some(account),
        other != account.id@ ==> first(accounts.push(account), has_id(other)) == first(
            accounts,
            has_id(other),
        ),
{
    lemma_first_pushed(accounts, account, has_id(account.id@));
    lemma_first_pushed(accounts, account, has_id(other));
}

/// A stored key is valid, and so is every key that was.
pub proof fn law_added_key_is_valid(keys: Seq<ApiKeyEntry>, entry: ApiKeyEntry, other: Seq<char>)
    ensures
        first(keys.push(entry), has_key(entry.key@)) is Some,
        first(keys, has_key(other)) is Some ==> first(keys.push(entry), has_key(other)) == first(
            keys,
            has_key(other),
        ),
{
    lemma_first_pushed(keys, entry, has_key(entry.key@));
    lemma_first_pushed(keys, entry, has_key(other));
}

/// A revoked key is not valid any more; the others are as they were.
pub proof fn law_removed_key_is_invalid(keys: Seq<ApiKeyEntry>, key: Seq<char>, other: Seq<char>)
    ensures
        first(keys.filter(has_other_key(key)), has_key(key)) is None,
        other != key ==> first(keys.filter(has_other_key(key)), has_key(other)) == first(
            keys,
            has_key(other),
        ),
{
    lemma_first_dropped(keys, has_other_key(key), has_key(key));
    if other != key {
        lemma_first_kept(keys, has_other_key(key), has_key(other));
    }
}

/// A counted request counts for its own key and no other, and leaves every key
/// as valid as it was.
pub proof fn law_usage_counts_per_key(
    keys: Seq<ApiKeyEntry>,
    key: Seq<char>,
    now: u64,
    other: Seq<char>,
)
    ensures
        first(update_first(keys, has_key(key), counted_at(now)), has_key(key)) == match first(
            keys,
            has_key(key),
        ) {
            Some(entry) => Some(counted_at(now)(entry)),
            None => None,
        },
        other != key ==> first(
            update_first(keys, has_key(key), counted_at(now)),
            has_key(other),
        ) == first(keys, has_key(other)),
{
    lemma_first_updated(keys, has_key(key), counted_at(now));
    if other != key {
        lemma_first_beside(keys, has_key(key), counted_at(now), has_key(other));
    }
}

/// The id of an account.
pub open spec fn id_of() -> spec_fn(CopilotAccount) -> Seq<char> {
    |account: CopilotAccount| account.id@
}

/// The ids of a list of accounts.
pub open spec fn ids(accounts: Seq<CopilotAccount>) -> Seq<Seq<char>> {
    accounts.map_values(id_of())
}

/// No id is given twice: where the ids of the accounts differ, they still do
/// after a removal, and after a new account with a new id; no other operation
/// changes an id.
pub proof fn law_ids_stay_distinct(
    accounts: Seq<CopilotAccount>,
    id: Seq<char>,
    account: CopilotAccount,
    now: u64,
)
    requires
        ids(accounts).no_duplicates(),
    ensures
        ids(accounts.filter(has_other_id(id))).no_duplicates(),
        first(accounts, has_id(account.id@)) is None ==> ids(
            accounts.push(account),
        ).no_duplicates(),
        ids(update_first(accounts, has_id(account.id@), becomes(account))) == ids(accounts),
        ids(update_first(accounts, has_id(id), used_at(now))) == ids(accounts),
        ids(update_first(accounts, has_id(id), failed())) == ids(accounts),
{
    lemma_filter_distinct(accounts, has_other_id(id), id_of());
    lemma_position(accounts, has_id(account.id@));
    lemma_position(accounts, has_id(id));
    if first(accounts, has_id(account.id@)) is None {
        let all = ids(accounts.push(account));
        assert forall|i: int, j: int|
            0 <= i < all.len() && 0 <= j < all.len() && i != j implies all[i] != all[j] by {
            let last = accounts.len() as int;
            if i == last {
                assert(!has_id(account.id@)(accounts[j]));
            } else if j == last {
                assert(!has_id(account.id@)(accounts[i]));
            } else {
                assert(ids(accounts)[i] != ids(accounts)[j]);
            }
        }
    }
    assert(ids(update_first(accounts, has_id(account.id@), becomes(account))) =~= ids(accounts));
    assert(ids(update_first(accounts, has_id(id), used_at(now))) =~= ids(accounts));
    assert(ids(update_first(accounts, has_id(id), failed())) =~= ids(accounts));
}

/// The rotation goes over the active accounts that have a token, in stored order,
/// and over no others: an account that is stored behind the others comes last in
/// it where it is active and has a token, and changes nothing else.
pub proof fn law_rotation_is_over_active_accounts(
    before: AccountStore,
    after: AccountStore,
    account: CopilotAccount,
)
    requires
        after.accounts() == before.accounts().push(account),
    ensures
        after.active() == if account.status == AccountStatus::Active && account.copilot_token
            is Some {
            before.active().push(account)
        } else {
            before.active()
        },
        before.accounts().len() == 0 ==> before.active().len() == 0,
{
    lemma_filter_pushed(before.accounts(), account, ready());
    before.accounts().lemma_filter_len(ready());
}

/// An account is in the rotation exactly where it is stored, active, and has a
/// token: how often it was used, and when, does not matter.
pub proof fn law_active_accounts_take_part(store: AccountStore, account: CopilotAccount)
    ensures
        store.active().contains(account) <==> store.accounts().contains(account)
            && account.status == AccountStatus::Active && account.copilot_token is Some,
{
    if store.active().contains(account) {
        let i = choose|i: int| 0 <= i < store.active().len() && store.active()[i] == account;
        store.accounts().lemma_filter_pred(ready(), i);
        store.accounts().lemma_filter_contains_rev(ready(), account);
    }
    if store.accounts().contains(account) && account.status == AccountStatus::Active
        && account.copilot_token is Some {
        let i = choose|i: int| 0 <= i < store.accounts().len() && store.accounts()[i] == account;
        store.accounts().lemma_filter_contains(ready(), i);
    }
}

/// The accounts are the same but for when they were last used.
pub open spec fn same_but_use(a: CopilotAccount, b: CopilotAccount) -> bool {
    &&& a.id == b.id
    &&& a.label == b.label
    &&& a.github_token == b.github_token
    &&& a.copilot_token == b.copilot_token
    &&& a.copilot_token_expiry == b.copilot_token_expiry
    &&& a.account_type == b.account_type
    &&& a.status == b.status
    &&& a.error_count == b.error_count
    &&& a.created_at == b.created_at
}

/// A use of an account leaves the rotation as it is: the same accounts take part
/// in the same order, and none is changed but for when it was last used.
pub proof fn law_use_keeps_the_rotation(
    before: AccountStore,
    after: AccountStore,
    id: Seq<char>,
    now: u64,
)
    requires
        after.accounts() == update_first(before.accounts(), has_id(id), used_at(now)),
    ensures
        after.active().len() == before.active().len(),
        forall|i: int|
            0 <= i < before.active().len() ==> same_but_use(
                #[trigger] before.active()[i],
                after.active()[i],
            ),
{
    let alike = |a: CopilotAccount, b: CopilotAccount| same_but_use(a, b);
    assert forall|i: int| 0 <= i < before.accounts().len() implies ready()(
        #[trigger] before.accounts()[i],
    ) == ready()(after.accounts()[i]) && alike(before.accounts()[i], after.accounts()[i]) by {
        lemma_update_first_at(before.accounts(), has_id(id), used_at(now), i);
    }
    lemma_position(before.accounts(), has_id(id));
    lemma_filter_alike(before.accounts(), after.accounts(), ready(), alike);
    assert forall|i: int| 0 <= i < before.active().len() implies same_but_use(
        #[trigger] before.active()[i],
        after.active()[i],
    ) by {
        assert(alike(before.accounts().filter(ready())[i], after.accounts().filter(ready())[i]));
    }
}

/// The account at that place is the first of its id.
pub open spec fn is_first_of(accounts: Seq<CopilotAccount>, i: int, id: Seq<char>) -> bool {
    &&& 0 <= i < accounts.len()
    &&& accounts[i].id@ == id
    &&& forall|j: int| 0 <= j < i ==> (#[trigger] accounts[j]).id@ != id
}

/// What is noted of an account is noted of the first of that id and of no other.
/// A use sets the time of its last use. An error counts, and the third and later
/// ones put the account in error. An update puts the new account in its place.
pub proof fn law_notes_are_of_one_account(
    accounts: Seq<CopilotAccount>,
    id: Seq<char>,
    now: u64,
    updated: CopilotAccount,
    i: int,
)
    requires
        0 <= i < accounts.len(),
        updated.id@ == id,
    ensures
        update_first(accounts, has_id(id), used_at(now)).len() == accounts.len(),
        update_first(accounts, has_id(id), failed()).len() == accounts.len(),
        update_first(accounts, has_id(id), becomes(updated)).len() == accounts.len(),
        !is_first_of(accounts, i, id) ==> {
            &&& update_first(accounts, has_id(id), used_at(now))[i] == accounts[i]
            &&& update_first(accounts, has_id(id), failed())[i] == accounts[i]
            &&& update_first(accounts, has_id(updated.id@), becomes(updated))[i] == accounts[i]
        },
        is_first_of(accounts, i, id) ==> {
            let used = update_first(accounts, has_id(id), used_at(now))[i];
            let erred = update_first(accounts, has_id(id), failed())[i];
            &&& used.last_used == Some(now)
            &&& same_but_use(used, accounts[i])
            &&& accounts[i].error_count < u32::MAX ==> erred.error_count == accounts[i].error_count
                + 1
            &&& accounts[i].error_count == u32::MAX ==> erred.error_count == 0
            &&& erred.status == if erred.error_count >= 3 {
                AccountStatus::Error
            } else {
                accounts[i].status
            }
            &&& erred.id == accounts[i].id
            &&& erred.copilot_token == accounts[i].copilot_token
            &&& erred.copilot_token_expiry == accounts[i].copilot_token_expiry
            &&& erred.github_token == accounts[i].github_token
            &&& erred.label == accounts[i].label
            &&& erred.account_type == accounts[i].account_type
            &&& erred.last_used == accounts[i].last_used
            &&& erred.created_at == accounts[i].created_at
            &&& update_first(accounts, has_id(updated.id@), becomes(updated))[i] == updated
        },
{
    lemma_update_first_at(accounts, has_id(id), used_at(now), i);
    lemma_update_first_at(accounts, has_id(id), failed(), i);
    lemma_update_first_at(accounts, has_id(id), becomes(updated), i);
    let picked = has_id(id)(accounts[i]) && (forall|j: int|
        0 <= j < i ==> !has_id(id)(#[trigger] accounts[j]));
    if is_first_of(accounts, i, id) {
        assert forall|j: int| 0 <= j < i implies !has_id(id)(#[trigger] accounts[j]) by {}
        assert(picked);
    }
    if picked {
        assert forall|j: int| 0 <= j < i implies (#[trigger] accounts[j]).id@ != id by {
            assert(!has_id(id)(accounts[j]));
        }
        assert(is_first_of(accounts, i, id));
    }
}

/// A token that an account is given changes its token, the end of the token and
/// its status, and nothing else; where errors are cleared, these too. The end is
/// kept in milliseconds.
pub proof fn law_token_changes_no_more(account: CopilotAccount, token: String, expires_at: u64)
    ensures
        ({
            let given = activated(account, token, expires_at);
            let cleared = refreshed(account, token, expires_at);
            &&& given.copilot_token == Some(token)
            &&& given.status == AccountStatus::Active
            &&& expires_at * 1000 <= u64::MAX ==> given.copilot_token_expiry == Some(
                (expires_at * 1000) as u64,
            )
            &&& given.id == account.id
            &&& given.label == account.label
            &&& given.github_token == account.github_token
            &&& given.account_type == account.account_type
            &&& given.last_used == account.last_used
            &&& given.error_count == account.error_count
            &&& given.created_at == account.created_at
            &&& cleared.error_count == 0
            &&& cleared.copilot_token == given.copilot_token
            &&& cleared.copilot_token_expiry == given.copilot_token_expiry
            &&& cleared.status == given.status
            &&& cleared.id == account.id
            &&& cleared.label == account.label
            &&& cleared.github_token == account.github_token
            &&& cleared.account_type == account.account_type
            &&& cleared.last_used == account.last_used
            &&& cleared.created_at == account.created_at
        }),
{
}

/// A new account takes no part in the rotation until it has a token, and then it
/// does.
pub proof fn law_new_account_waits_for_its_token(
    store: AccountStore,
    account: CopilotAccount,
    id: Seq<char>,
    label: String,
    github_token: String,
    account_type: String,
    now: u64,
    token: String,
    expires_at: u64,
)
    requires
        is_new_account(account, id, label, github_token, account_type, now),
    ensures
        !store.active().contains(account),
        account.status == AccountStatus::Inactive,
        account.copilot_token is None && account.copilot_token_expiry is None,
        account.last_used is None && account.error_count == 0,
        account.id@ == id && account.label == label && account.github_token == github_token,
        account.account_type == account_type && account.created_at == now,
        store.accounts().contains(activated(account, token, expires_at))
            ==> store.active().contains(activated(account, token, expires_at)),
{
    law_active_accounts_take_part(store, account);
    law_active_accounts_take_part(store, activated(account, token, expires_at));
}

/// What is found under an id is the first account of that id, and something is
/// found where there is one.
pub proof fn law_accounts_are_found_by_id(accounts: Seq<CopilotAccount>, id: Seq<char>, i: int)
    ensures
        is_first_of(accounts, i, id) ==> first(accounts, has_id(id)) == Some(accounts[i]),
        first(accounts, has_id(id)) is Some ==> exists|k: int| #[trigger]
            is_first_of(accounts, k, id) && first(accounts, has_id(id)) == Some(accounts[k]),
{
    lemma_position(accounts, has_id(id));
    if is_first_of(accounts, i, id) {
        lemma_position_is(accounts, has_id(id), i);
    }
    match position(accounts, has_id(id)) {
        Some(k) => {
            assert forall|j: int| 0 <= j < k implies (#[trigger] accounts[j]).id@ != id by {
                assert(!has_id(id)(accounts[j]));
            }
            assert(is_first_of(accounts, k, id));
        },
        None => {},
    }
}

/// A removal takes out the accounts of that id, and the entries of that key, and
/// leaves all others in their order.
pub proof fn law_removals_leave_the_others(
    accounts: Seq<CopilotAccount>,
    account: CopilotAccount,
    id: Seq<char>,
    keys: Seq<ApiKeyEntry>,
    entry: ApiKeyEntry,
    key: Seq<char>,
)
    ensures
        accounts.push(account).filter(has_other_id(id)) == if account.id@ == id {
            accounts.filter(has_other_id(id))
        } else {
            accounts.filter(has_other_id(id)).push(account)
        },
        keys.push(entry).filter(has_other_key(key)) == if entry.key@ == key {
            keys.filter(has_other_key(key))
        } else {
            keys.filter(has_other_key(key)).push(entry)
        },
{
    lemma_filter_pushed(accounts, account, has_other_id(id));
    lemma_filter_pushed(keys, entry, has_other_key(key));
}

/// The entry at that place is the first of its key.
pub open spec fn is_first_entry(keys: Seq<ApiKeyEntry>, i: int, key: Seq<char>) -> bool {
    &&& 0 <= i < keys.len()
    &&& keys[i].key@ == key
    &&& forall|j: int| 0 <= j < i ==> (#[trigger] keys[j]).key@ != key
}

/// A request counts once, under the first entry of its key and under no other,
/// and notes its time there; nothing else of an entry changes. What is found
/// under a key is that entry.
pub proof fn law_requests_count_under_their_key(
    keys: Seq<ApiKeyEntry>,
    key: Seq<char>,
    now: u64,
    i: int,
)
    requires
        0 <= i < keys.len(),
    ensures
        update_first(keys, has_key(key), counted_at(now)).len() == keys.len(),
        !is_first_entry(keys, i, key) ==> update_first(keys, has_key(key), counted_at(now))[i]
            == keys[i],
        is_first_entry(keys, i, key) ==> {
            let counted = update_first(keys, has_key(key), counted_at(now))[i];
            &&& keys[i].request_count < u64::MAX ==> counted.request_count == keys[i].request_count
                + 1
            &&& counted.last_used == Some(now)
            &&& counted.key == keys[i].key
            &&& counted.label == keys[i].label
            &&& counted.created_at == keys[i].created_at
            &&& first(keys, has_key(key)) == Some(keys[i])
        },
{
    lemma_update_first_at(keys, has_key(key), counted_at(now), i);
    let picked = has_key(key)(keys[i]) && (forall|j: int|
        0 <= j < i ==> !has_key(key)(#[trigger] keys[j]));
    if is_first_entry(keys, i, key) {
        assert forall|j: int| 0 <= j < i implies !has_key(key)(#[trigger] keys[j]) by {}
        lemma_position_is(keys, has_key(key), i);
        assert(picked);
    }
    if picked {
        assert forall|j: int| 0 <= j < i implies (#[trigger] keys[j]).key@ != key by {
            assert(!has_key(key)(keys[j]));
        }
        assert(is_first_entry(keys, i, key));
    }
}

/// A new key was never used; it is made of its identifier.
pub proof fn law_new_key_is_unused(entry: ApiKeyEntry, id: Seq<char>, label: String, now: u64)
    requires
        is_new_key(entry, id, label, now),
    ensures
        entry.request_count == 0 && entry.last_used is None,
        entry.created_at == now && entry.label == label,
        entry.key@ == "rc-"@ + crate::text::without(id, '-'),
{
}

/// The turn passes to the next account and comes back around. (A turn of
/// `usize::MAX`, which wraps, is left out.)
pub proof fn law_turn_passes_to_the_next(store: AccountStore)
    requires
        store.turn() < usize::MAX,
        store.active().len() > 0,
    ensures
        store.turn() + 1 < store.active().len() ==> store.next_turn() == store.turn() + 1,
        store.turn() + 1 == store.active().len() ==> store.next_turn() == 0,
        0 <= store.next_turn() < store.active().len(),
{
    let count = store.active().len() as int;
    vstd::arithmetic::div_mod::lemma_mod_bound(store.turn() + 1, count);
    if store.turn() + 1 < count {
        vstd::arithmetic::div_mod::lemma_small_mod((store.turn() + 1) as nat, count as nat);
    }
    if store.turn() + 1 == count {
        vstd::arithmetic::div_mod::lemma_mod_self_0(count);
    }
}

/// Each status has its own name.
pub proof fn law_status_names(a: AccountStatus, b: AccountStatus)
    ensures
        a.name() == b.name() <==> a == b,
        AccountStatus::Active.name() == "active"@,
        AccountStatus::Inactive.name() == "inactive"@,
        AccountStatus::Error.name() == "error"@,
        AccountStatus::ReAuth.name() == "re-auth"@,
{
    reveal_strlit("active");
    reveal_strlit("inactive");
    reveal_strlit("error");
    reveal_strlit("re-auth");
    assert("active"@.len() == 6);
    assert("inactive"@.len() == 8);
    assert("error"@.len() == 5);
    assert("re-auth"@.len() == 7);
}

/// What a store holds is what is kept on disk of it.
pub proof fn law_store_is_what_is_kept(store: AccountStore)
    ensures
        store.accounts() == store.data.accounts@,
        store.keys() == store.data.api_keys@,
        store.turn() == store.data.rotation_index,
{
}

/// A turn that can go no further comes around to the first account.
pub proof fn law_last_turn_comes_around(store: AccountStore)
    requires
        store.turn() == usize::MAX,
    ensures
        store.next_turn() == 0,
{
}

} // verus!
