//! Accounts, and the form in which they are shown.

use vstd::prelude::*;

use crate::ids::{format_hash, format_key, hash_text, key_text};
use crate::timestamp::Timestamp;

verus! {

/// The app that an account belongs to.
pub struct AccountApp {
    pub id: [u8; 32],
    pub description: String,
    pub service_url: Option<String>,
    pub logo_url: Option<String>,
}

/// An account with the indexer.
pub struct Account {
    pub account_key: [u8; 32],
    pub connect_key: String,
    pub max_pinned_data: u64,
    pub pinned_data: u64,
    pub app: AccountApp,
    pub last_used: Timestamp,
}

/// The app of an account, ready to be written as JSON.
pub struct AccountAppJson {
    pub id: String,
    pub description: String,
    pub service_url: Option<String>,
    pub logo_url: Option<String>,
}

/// An account, ready to be written as JSON. The time is in milliseconds since the Unix epoch.
pub struct AccountJson {
    pub account_key: String,
    pub connect_key: String,
    pub max_pinned_data: u64,
    pub pinned_data: u64,
    pub app: AccountAppJson,
    pub last_used: i64,
}

/// Whether `json` shows `account`, last used at the millisecond `last_used`.
pub open spec fn shows_account(json: AccountJson, account: Account, last_used: int) -> bool {
    &&& json.account_key@ == key_text(account.account_key@)
    &&& json.connect_key == account.connect_key
    &&& json.max_pinned_data == account.max_pinned_data
    &&& json.pinned_data == account.pinned_data
    &&& json.app.id@ == hash_text(account.app.id@)
    &&& json.app.description == account.app.description
    &&& json.app.service_url == account.app.service_url
    &&& json.app.logo_url == account.app.logo_url
    &&& json.last_used == last_used
}

/// Shows an account that was last used at the millisecond `last_used`.
pub fn account_json(account: Account, last_used: i64) -> (json: AccountJson)
    ensures
        shows_account(json, account, last_used as int),
        json.account_key@ == key_text(account.account_key@),
        json.connect_key@ == account.connect_key@,
        json.max_pinned_data == account.max_pinned_data,
        json.pinned_data == account.pinned_data,
        json.app.id@ == hash_text(account.app.id@),
        json.app.description@ == account.app.description@,
        json.app.service_url == account.app.service_url,
        json.app.logo_url == account.app.logo_url,
        json.last_used == last_used,
{
    AccountJson {
        account_key: format_key(&account.account_key),
        connect_key: account.connect_key,
        max_pinned_data: account.max_pinned_data,
        pinned_data: account.pinned_data,
        app: AccountAppJson {
            id: format_hash(&account.app.id),
            description: account.app.description,
            service_url: account.app.service_url,
            logo_url: account.app.logo_url,
        },
        last_used,
    }
}

} // verus!
