//! The command line as data: the options and subcommands that a run is made
//! of, after the arguments were read.

use crate::types::{CategoryId, RecurringFrequency, RecurringId, TagId, TransactionId, TransactionType};
use std::path::PathBuf;
use vstd::prelude::*;

verus! {

#[derive(Debug, Clone, Copy, PartialEq, Eq, Structural)]
pub enum OutputFormat {
    Json,
    Table,
}

#[derive(Debug, Clone, Copy, PartialEq, Eq, Structural)]
pub enum ColorMode {
    Auto,
    Always,
    Never,
}

#[derive(Debug, Clone)]
pub struct Cli {
    pub command: Command,
    pub output: OutputFormat,
    pub color: ColorMode,
    pub dry_run: bool,
    /// Skip confirmation prompts for write actions.
    pub yes: bool,
    pub base_url: String,
    pub token: Option<String>,
    pub token_file: Option<PathBuf>,
    pub session_dir: Option<PathBuf>,
    pub fixtures_dir: Option<PathBuf>,
}

#[derive(Debug, Clone)]
pub enum Command {
    Auth { cmd: AuthCmd },
    Transactions { cmd: TransactionsCmd },
    Categories { cmd: CategoriesCmd },
    Recurrings { cmd: RecurringsCmd },
    Tags { cmd: TagsCmd },
    Budgets { cmd: BudgetsCmd },
    Version,
}

#[derive(Debug, Clone)]
pub enum AuthCmd {
    Status,
    Login(AuthLoginArgs),
    Refresh(AuthRefreshArgs),
    SetToken(AuthSetTokenArgs),
    Logout,
}

#[derive(Debug, Clone, Copy, PartialEq, Eq, Structural)]
pub enum AuthLoginMode {
    /// Opens a browser and waits for the login.
    Interactive,
    /// Sends a magic link by mail; the link is pasted back.
    EmailLink,
    /// Uses a secrets file with mail address and password.
    Credentials,
}

#[derive(Debug, Clone)]
pub struct AuthLoginArgs {
    pub secrets_file: Option<PathBuf>,
    pub mode: AuthLoginMode,
    pub email: Option<String>,
    pub timeout_seconds: u64,
    pub persist_session: bool,
}

#[derive(Debug, Clone)]
pub struct AuthRefreshArgs {
    pub timeout_seconds: u64,
}

#[derive(Debug, Clone)]
pub struct AuthSetTokenArgs {
    pub token_file: Option<PathBuf>,
}

#[derive(Debug, Clone)]
pub enum TransactionsCmd {
    List(TransactionsListArgs),
    Search(TransactionsSearchArgs),
    Show(TransactionsShowArgs),
    Review(TransactionsReviewArgs),
    Unreview(TransactionsReviewArgs),
    SetCategory(TransactionsSetCategoryArgs),
    AssignRecurring(TransactionsAssignRecurringArgs),
    SetNotes(TransactionsSetNotesArgs),
    SetTags(TransactionsSetTagsArgs),
    Edit(TransactionsEditArgs),
}

#[derive(Debug, Clone, Copy, PartialEq, Eq, Structural)]
pub enum TransactionsSort {
    DateDesc,
    DateAsc,
    AmountDesc,
    AmountAsc,
}

#[derive(Debug, Clone, Copy, PartialEq, Eq, Structural)]
pub enum TransactionField {
    Date,
    Name,
    Amount,
    Reviewed,
    Category,
    Tags,
    Type,
    Id,
}

#[derive(Debug, Clone)]
pub struct TransactionsListArgs {
    pub limit: usize,
    pub after: Option<String>,
    pub pages: usize,
    pub all: bool,
    pub reviewed: bool,
    pub unreviewed: bool,
    pub category_id: Option<CategoryId>,
    pub category: Option<String>,
    pub tag: Vec<String>,
    pub date: Option<String>,
    pub name_contains: Option<String>,
    pub sort: Option<TransactionsSort>,
    pub fields: Vec<TransactionField>,
    pub page_info: bool,
}

#[derive(Debug, Clone)]
pub struct TransactionsSearchArgs {
    pub query: String,
    pub limit: usize,
    pub after: Option<String>,
    pub pages: usize,
    pub all: bool,
    pub reviewed: bool,
    pub unreviewed: bool,
    pub category_id: Option<CategoryId>,
    pub category: Option<String>,
    pub tag: Vec<String>,
    pub date: Option<String>,
    pub sort: Option<TransactionsSort>,
    pub fields: Vec<TransactionField>,
    pub page_info: bool,
}

#[derive(Debug, Clone)]
pub struct TransactionsShowArgs {
    pub id: TransactionId,
    pub limit: usize,
}

#[derive(Debug, Clone)]
pub struct TransactionsReviewArgs {
    pub ids: Vec<TransactionId>,
}

#[derive(Debug, Clone)]
pub struct TransactionsSetCategoryArgs {
    pub ids: Vec<TransactionId>,
    pub category_id: Option<CategoryId>,
    pub category: Option<String>,
}

#[derive(Debug, Clone)]
pub struct TransactionsAssignRecurringArgs {
    pub ids: Vec<TransactionId>,
    pub recurring_id: RecurringId,
}

#[derive(Debug, Clone)]
pub struct TransactionsSetNotesArgs {
    pub ids: Vec<TransactionId>,
    pub notes: Option<String>,
    pub clear: bool,
}

#[derive(Debug, Clone, Copy, PartialEq, Eq, Structural)]
pub enum TagUpdateMode {
    /// The tags given replace those that the transaction has.
    Replace,
    Add,
    Remove,
}

#[derive(Debug, Clone)]
pub struct TransactionsSetTagsArgs {
    pub ids: Vec<TransactionId>,
    pub mode: TagUpdateMode,
    pub tag_ids: Vec<TagId>,
}

#[derive(Debug, Clone)]
pub struct TransactionsEditArgs {
    pub ids: Vec<TransactionId>,
    pub type_: Option<TransactionType>,
    pub input_json: Option<String>,
}

#[derive(Debug, Clone)]
pub enum CategoriesCmd {
    List(CategoriesListArgs),
    Show { id: CategoryId },
    Create(CategoriesCreateArgs),
    Edit(CategoriesEditArgs),
}

#[derive(Debug, Clone)]
pub struct CategoriesListArgs {
    pub spend: bool,
    pub budget: bool,
    pub rollovers: bool,
    pub children: bool,
    pub name_contains: Option<String>,
}

#[derive(Debug, Clone)]
pub struct CategoriesCreateArgs {
    pub name: String,
    pub emoji: Option<String>,
    pub color_name: Option<String>,
    pub excluded: bool,
    pub template_id: Option<String>,
    pub budget_unassigned_amount: Option<i64>,
}

#[derive(Debug, Clone)]
pub struct CategoriesEditArgs {
    pub id: String,
    pub name: Option<String>,
    pub emoji: Option<String>,
    pub color_name: Option<String>,
    pub excluded: Option<bool>,
}

#[derive(Debug, Clone)]
pub enum RecurringsCmd {
    List(RecurringsListArgs),
    Show { id: RecurringId },
    Create(RecurringsCreateArgs),
    Edit(RecurringsEditArgs),
}

#[derive(Debug, Clone)]
pub enum TagsCmd {
    List,
    Create(TagsCreateArgs),
    Delete(TagsDeleteArgs),
}

#[derive(Debug, Clone)]
pub struct TagsCreateArgs {
    pub name: String,
    pub color_name: Option<String>,
}

#[derive(Debug, Clone)]
pub struct TagsDeleteArgs {
    pub id: TagId,
}

#[derive(Debug, Clone)]
pub struct RecurringsListArgs {
    pub category_id: Option<CategoryId>,
    pub name_contains: Option<String>,
}

#[derive(Debug, Clone)]
pub struct RecurringsCreateArgs {
    pub transaction_id: TransactionId,
    pub frequency: RecurringFrequency,
}

#[derive(Debug, Clone)]
pub struct RecurringsEditArgs {
    pub id: RecurringId,
    pub name_contains: Option<String>,
    pub min_amount: Option<i64>,
    pub max_amount: Option<i64>,
    pub recalculate_only_for_future: bool,
}

#[derive(Debug, Clone, Copy, PartialEq, Eq, Structural)]
pub enum BudgetsCmd {
    Month,
    SetAmount,
}

/// One line of a key and value listing.
#[derive(Debug, Clone)]
pub struct KeyValueRow {
    pub key: String,
    pub value: String,
}

} // verus!
