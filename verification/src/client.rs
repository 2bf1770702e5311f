//! The records that the money-management service returns, and the client's
//! mode of operation.

use crate::types::{
    AccountId, CategoryId, ItemId, RecurringFrequency, RecurringId, TagId, TransactionId, TransactionType,
};
use std::path::PathBuf;
use vstd::prelude::*;

verus! {

/// `std::path::PathBuf`, carried through as it is: nothing is known of what
/// a path holds.
#[verifier::external_type_specification]
#[verifier::external_body]
pub struct ExPathBuf(std::path::PathBuf);

/// `PathBuf`'s `clone`, of whose result nothing is claimed.
pub assume_specification[ <std::path::PathBuf as Clone>::clone ](p: &std::path::PathBuf) -> (r:
    std::path::PathBuf);

/// `serde_json::Value`, carried through as it is: nothing is known of what
/// a value holds.
#[verifier::external_type_specification]
#[verifier::external_body]
pub struct ExJsonValue(serde_json::Value);

/// How the client reaches the service: over HTTP, or from recorded answers.
#[derive(Debug, Clone)]
pub enum ClientMode {
    Http { base_url: String, token: Option<String>, token_file: PathBuf, session_dir: Option<PathBuf> },
    Fixtures(PathBuf),
}

/// The client of the service, in the mode it was made for.
#[derive(Debug, Clone)]
pub struct CopilotClient {
    mode: ClientMode,
}

impl CopilotClient {
    /// The mode that the client was made with.
    pub closed spec fn mode_of(&self) -> ClientMode {
        self.mode
    }

    /// A client in the given mode.
    pub fn new(mode: ClientMode) -> (r: Self)
        ensures
            r.mode_of() == mode,
    {
        Self { mode }
    }

    /// The mode that the client was made with.
    pub fn mode(&self) -> (r: &ClientMode)
        ensures
            *r == self.mode_of(),
    {
        &self.mode
    }
}

/// Where a page of a listing stands among the pages.
#[derive(Debug)]
pub struct PageInfo {
    pub end_cursor: Option<String>,
    pub has_next_page: Option<bool>,
    pub has_previous_page: Option<bool>,
    pub start_cursor: Option<String>,
}

/// One page of transactions.
#[derive(Debug)]
pub struct TransactionsPage {
    pub transactions: Vec<Transaction>,
    pub page_info: PageInfo,
}

/// A tag that transactions can carry.
#[derive(Debug)]
pub struct Tag {
    pub id: TagId,
    pub name: Option<String>,
    pub color_name: Option<String>,
}

/// A transaction as the service describes it.
#[derive(Debug)]
pub struct Transaction {
    pub id: TransactionId,
    pub date: Option<String>,
    pub name: Option<String>,
    pub amount: Option<serde_json::Value>,
    pub item_id: Option<ItemId>,
    pub txn_type: Option<TransactionType>,
    pub is_reviewed: Option<bool>,
    pub category_id: Option<CategoryId>,
    pub account_id: Option<AccountId>,
    pub recurring_id: Option<RecurringId>,
    pub user_notes: Option<String>,
    pub tags: Option<Vec<Tag>>,
}

/// What names a transaction in a request that changes it.
#[derive(Debug)]
pub struct TransactionIdRef {
    pub account_id: AccountId,
    pub id: TransactionId,
    pub item_id: ItemId,
}

/// Why one transaction of a bulk edit was not changed.
#[derive(Debug, Clone)]
pub struct BulkEditFailed {
    pub error: Option<String>,
    pub error_code: Option<String>,
}

/// What a bulk edit changed and what it could not change.
#[derive(Debug)]
pub struct BulkEditTransactionsResult {
    pub updated: Vec<Transaction>,
    pub failed: Vec<BulkEditFailed>,
}

/// The icon of a category.
#[derive(Debug)]
pub enum Icon {
    EmojiUnicode { unicode: Option<String> },
    Genmoji { id: Option<String>, src: Option<String> },
    Other,
}

/// A category, with the categories below it.
#[derive(Debug)]
pub struct Category {
    pub id: CategoryId,
    pub name: Option<String>,
    pub is_rollover_disabled: Option<bool>,
    pub can_be_deleted: Option<bool>,
    pub is_excluded: Option<bool>,
    pub template_id: Option<String>,
    pub color_name: Option<String>,
    pub icon: Option<Icon>,
    pub child_categories: Option<Vec<Category>>,
}

/// A recurring transaction.
#[derive(Debug)]
pub struct Recurring {
    pub id: RecurringId,
    pub name: Option<String>,
    pub frequency: Option<RecurringFrequency>,
    pub category_id: Option<CategoryId>,
}

/// The budget of one month.
#[derive(Debug, Clone)]
pub struct BudgetMonth {
    pub month: String,
    pub amount: String,
}

} // verus!
