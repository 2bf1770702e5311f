//! Identifiers and enumerations of the money-management service.

use crate::text::str_eq;
use std::marker::PhantomData;
use vstd::prelude::*;

verus! {

/// An identifier of the service. The marker says which kind of thing it
/// names, so that identifiers of different kinds are not mixed up.
#[derive(Debug, Hash)]
pub struct OwnedId<T> {
    raw: String,
    _marker: PhantomData<T>,
}

impl<T> View for OwnedId<T> {
    type V = Seq<char>;

    closed spec fn view(&self) -> Seq<char> {
        self.raw@
    }
}

impl<T> OwnedId<T> {
    /// An identifier from its text.
    pub fn new(raw: String) -> (r: Self)
        ensures
            r@ == raw@,
    {
        Self { raw, _marker: PhantomData }
    }

    /// The text of the identifier.
    pub fn as_str(&self) -> (r: &str)
        ensures
            r@ == self@,
    {
        self.raw.as_str()
    }

    /// Whether two identifiers are the same text.
    pub fn same(&self, other: &Self) -> (b: bool)
        ensures
            b == (self@ == other@),
    {
        str_eq(self.raw.as_str(), other.raw.as_str())
    }

    /// The identifier as text.
    pub fn to_text(&self) -> (r: String)
        ensures
            r@ == self@,
    {
        self.raw.clone()
    }
}

impl<T> Clone for OwnedId<T> {
    fn clone(&self) -> (r: Self)
        ensures
            r == *self,
    {
        Self { raw: self.raw.clone(), _marker: PhantomData }
    }
}

/// Marks the identifiers of transactions.
#[derive(Debug, Clone, Copy, PartialEq, Eq, Hash)]
pub enum TransactionMarker {
    /// The one value of the marker; identifiers use the type only.
    Kind,
}

/// Marks the identifiers of categories.
#[derive(Debug, Clone, Copy, PartialEq, Eq, Hash)]
pub enum CategoryMarker {
    /// The one value of the marker; identifiers use the type only.
    Kind,
}

/// Marks the identifiers of tags.
#[derive(Debug, Clone, Copy, PartialEq, Eq, Hash)]
pub enum TagMarker {
    /// The one value of the marker; identifiers use the type only.
    Kind,
}

/// Marks the identifiers of recurring transactions.
#[derive(Debug, Clone, Copy, PartialEq, Eq, Hash)]
pub enum RecurringMarker {
    /// The one value of the marker; identifiers use the type only.
    Kind,
}

/// Marks the identifiers of accounts.
#[derive(Debug, Clone, Copy, PartialEq, Eq, Hash)]
pub enum AccountMarker {
    /// The one value of the marker; identifiers use the type only.
    Kind,
}

/// Marks the identifiers of items.
#[derive(Debug, Clone, Copy, PartialEq, Eq, Hash)]
pub enum ItemMarker {
    /// The one value of the marker; identifiers use the type only.
    Kind,
}

pub type TransactionId = OwnedId<TransactionMarker>;

pub type CategoryId = OwnedId<CategoryMarker>;

pub type TagId = OwnedId<TagMarker>;

pub type RecurringId = OwnedId<RecurringMarker>;

pub type AccountId = OwnedId<AccountMarker>;

pub type ItemId = OwnedId<ItemMarker>;

/// The type of a transaction.
#[derive(Debug, Clone, Copy, PartialEq, Eq, Structural)]
pub enum TransactionType {
    Regular,
    InternalTransfer,
    Other,
}

impl TransactionType {
    /// The name of the type as the service writes it.
    pub open spec fn label_text(self) -> Seq<char> {
        match self {
            TransactionType::Regular => "REGULAR"@,
            TransactionType::InternalTransfer => "INTERNAL_TRANSFER"@,
            TransactionType::Other => "OTHER"@,
        }
    }

    /// The name as the service writes it.
    pub fn label(&self) -> (r: &'static str)
        ensures
            r@ == self.label_text(),
    {
        match self {
            TransactionType::Regular => "REGULAR",
            TransactionType::InternalTransfer => "INTERNAL_TRANSFER",
            TransactionType::Other => "OTHER",
        }
    }
}

/// How often a recurring transaction comes.
#[derive(Debug, Clone, Copy, PartialEq, Eq, Structural)]
pub enum RecurringFrequency {
    Daily,
    Weekly,
    Biweekly,
    Monthly,
    Quarterly,
    Annually,
    Other,
}

impl RecurringFrequency {
    /// The name of the frequency as the service writes it.
    pub open spec fn label_text(self) -> Seq<char> {
        match self {
            RecurringFrequency::Daily => "DAILY"@,
            RecurringFrequency::Weekly => "WEEKLY"@,
            RecurringFrequency::Biweekly => "BIWEEKLY"@,
            RecurringFrequency::Monthly => "MONTHLY"@,
            RecurringFrequency::Quarterly => "QUARTERLY"@,
            RecurringFrequency::Annually => "ANNUALLY"@,
            RecurringFrequency::Other => "OTHER"@,
        }
    }

    /// The name as the service writes it.
    pub fn label(&self) -> (r: &'static str)
        ensures
            r@ == self.label_text(),
    {
        match self {
            RecurringFrequency::Daily => "DAILY",
            RecurringFrequency::Weekly => "WEEKLY",
            RecurringFrequency::Biweekly => "BIWEEKLY",
            RecurringFrequency::Monthly => "MONTHLY",
            RecurringFrequency::Quarterly => "QUARTERLY",
            RecurringFrequency::Annually => "ANNUALLY",
            RecurringFrequency::Other => "OTHER",
        }
    }
}

} // verus!
