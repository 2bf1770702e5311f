//! Rules on transactions: which of them a listing shows, and what names a
//! transaction in a request.

use crate::cli::{TagUpdateMode, TransactionsSort};
use crate::client::{PageInfo, Tag, Transaction, TransactionIdRef};
use crate::dates::{normalize_date, normalized_date};
use crate::text::{contains_text, lowercase, str_contains, str_eq, to_lowercase};
use crate::types::{AccountId, CategoryId, ItemId, TagId, TransactionId};
use vstd::string::StringExecFns;
use vstd::prelude::*;

verus! {

/// The text of an optional string, empty where there is none.
pub open spec fn text_or_empty(o: Option<String>) -> Seq<char> {
    match o {
        Some(s) => s@,
        None => Seq::empty(),
    }
}

/// The date by which a listing is filtered: the normal form of `d` where it
/// has one, else `d` as it is.
pub open spec fn wanted_date(d: Seq<char>) -> Seq<char> {
    match normalized_date(d) {
        Some(n) => n,
        None => d,
    }
}

/// Whether one of the tags has a name that in lower case is `want`.
pub open spec fn tags_name(tags: Seq<Tag>, want: Seq<char>) -> bool {
    exists|k: int| 0 <= k < tags.len() && (#[trigger] tags[k]).name is Some && lowercase(tags[k].name->0@) == want
}

/// Whether a transaction carries one of the wanted tags, compared in lower
/// case. Where no tag is wanted, every transaction does.
pub open spec fn carries_tag(t: Transaction, tags: Seq<String>) -> bool {
    tags.len() == 0 || (t.tags is Some && exists|j: int|
        0 <= j < tags.len() && tags_name(t.tags->0@, lowercase(#[trigger] tags[j]@)))
}

/// Whether a listing with these filters shows the transaction.
pub open spec fn transaction_shown(
    t: Transaction,
    reviewed: bool,
    unreviewed: bool,
    category: Option<Seq<char>>,
    tags: Seq<String>,
    query: Option<Seq<char>>,
    date: Option<Seq<char>>,
) -> bool {
    let is_reviewed = t.is_reviewed == Some(true);
    &&& reviewed ==> is_reviewed
    &&& unreviewed ==> !is_reviewed
    &&& category matches Some(c) ==> (t.category_id matches Some(id) && id@ == c)
    &&& query matches Some(q) ==> contains_text(lowercase(text_or_empty(t.name)), lowercase(q))
    &&& date matches Some(d) ==> text_or_empty(t.date) == wanted_date(d)
    &&& carries_tag(t, tags)
}

/// Whether one of `tags` has a name that in lower case is `want`.
fn any_tag_named(tags: &Vec<Tag>, want: &str) -> (b: bool)
    ensures
        b == tags_name(tags@, want@),
{
    let mut k: usize = 0;
    while k < tags.len()
        invariant
            k <= tags.len(),
            forall|i: int|
                0 <= i < k ==> !((#[trigger] tags[i]).name is Some && lowercase(tags[i].name->0@) == want@),
        decreases tags.len() - k,
    {
        if let Some(name) = &tags[k].name {
            let lower = to_lowercase(name.as_str());
            if str_eq(lower.as_str(), want) {
                return true;
            }
        }
        k = k + 1;
    }
    false
}

/// Whether the transaction carries one of the wanted tags.
fn has_wanted_tag(t: &Transaction, tags: &Vec<String>) -> (b: bool)
    ensures
        b == carries_tag(*t, tags@),
{
    if tags.len() == 0 {
        return true;
    }
    match &t.tags {
        None => false,
        Some(own) => {
            let mut j: usize = 0;
            while j < tags.len()
                invariant
                    j <= tags.len(),
                    tags.len() > 0,
                    t.tags == Some(*own),
                    forall|i: int| 0 <= i < j ==> !tags_name(own@, lowercase(#[trigger] tags[i]@)),
                decreases tags.len() - j,
            {
                let want = to_lowercase(tags[j].as_str());
                if any_tag_named(own, want.as_str()) {
                    return true;
                }
                j = j + 1;
            }
            false
        },
    }
}

/// Whether a listing with these filters shows the transaction. `query` is
/// looked for in the name without regard to case; `date` is compared in its
/// normal form where it has one.
pub fn transaction_matches(
    t: &Transaction,
    reviewed: bool,
    unreviewed: bool,
    category_id: Option<&CategoryId>,
    tags: &Vec<String>,
    query: Option<&str>,
    date: Option<&str>,
) -> (b: bool)
    ensures
        b == transaction_shown(
            *t,
            reviewed,
            unreviewed,
            id_text(category_id),
            tags@,
            opt_text(query),
            opt_text(date),
        ),
{
    let is_reviewed = match t.is_reviewed {
        Some(r) => r,
        None => false,
    };
    if reviewed && !is_reviewed {
        return false;
    }
    if unreviewed && is_reviewed {
        return false;
    }
    if let Some(cat) = category_id {
        match &t.category_id {
            Some(own) => {
                if !own.same(cat) {
                    return false;
                }
            },
            None => {
                return false;
            },
        }
    }
    if let Some(q) = query {
        let q = to_lowercase(q);
        let name = match &t.name {
            Some(n) => to_lowercase(n.as_str()),
            None => to_lowercase(""),
        };
        proof {
            reveal_strlit("");
            assert(""@ =~= Seq::<char>::empty());
        }
        if !str_contains(name.as_str(), q.as_str()) {
            return false;
        }
    }
    if let Some(d) = date {
        let want = match normalize_date(d) {
            Some(n) => n,
            None => d.to_owned(),
        };
        let same = match &t.date {
            Some(own) => str_eq(own.as_str(), want.as_str()),
            None => str_eq("", want.as_str()),
        };
        proof {
            reveal_strlit("");
            assert(""@ =~= Seq::<char>::empty());
        }
        if !same {
            return false;
        }
    }
    has_wanted_tag(t, tags)
}

/// The view of an optional identifier or text.
pub open spec fn id_text(id: Option<&CategoryId>) -> Option<Seq<char>> {
    match id {
        Some(c) => Some(c@),
        None => None,
    }
}

/// The view of an optional text.
pub open spec fn opt_text(s: Option<&str>) -> Option<Seq<char>> {
    match s {
        Some(q) => Some(q@),
        None => None,
    }
}

/// The transactions of `items` that a listing with these filters shows, in
/// their order.
pub open spec fn shown_transactions(
    items: Seq<Transaction>,
    reviewed: bool,
    unreviewed: bool,
    category: Option<Seq<char>>,
    tags: Seq<String>,
    query: Option<Seq<char>>,
    date: Option<Seq<char>>,
) -> Seq<Transaction> {
    items.filter(|t: Transaction| transaction_shown(t, reviewed, unreviewed, category, tags, query, date))
}

/// Keeps the transactions that the filters let through, in their order.
pub fn filter_transactions(
    items: Vec<Transaction>,
    reviewed: bool,
    unreviewed: bool,
    category_id: Option<&CategoryId>,
    tags: &Vec<String>,
    query: Option<&str>,
    date: Option<&str>,
) -> (r: Vec<Transaction>)
    ensures
        r@ == shown_transactions(
            items@,
            reviewed,
            unreviewed,
            id_text(category_id),
            tags@,
            opt_text(query),
            opt_text(date),
        ),
{
    let ghost keep = |t: Transaction|
        transaction_shown(t, reviewed, unreviewed, id_text(category_id), tags@, opt_text(query), opt_text(date));
    let ghost all = items@;
    let mut out: Vec<Transaction> = Vec::new();
    assert(all.subrange(0, 0).filter(keep) =~= Seq::<Transaction>::empty()) by {
        reveal(Seq::filter);
    }
    for t in it: items.into_iter()
        invariant
            it.seq() == all,
            forall|x: Transaction|
                #[trigger] keep(x) == transaction_shown(
                    x,
                    reviewed,
                    unreviewed,
                    id_text(category_id),
                    tags@,
                    opt_text(query),
                    opt_text(date),
                ),
            out@ == all.subrange(0, it.index() as int).filter(keep),
    {
        proof {
            let done = all.subrange(0, it.index() as int);
            let next = all.subrange(0, it.index() as int + 1);
            assert(t == all[it.index() as int]);
            assert(next.drop_last() =~= done);
            assert(next.last() == t);
            reveal(Seq::filter);
            assert(next.filter(keep) == if keep(t) {
                done.filter(keep).push(t)
            } else {
                done.filter(keep)
            });
        }
        if transaction_matches(&t, reviewed, unreviewed, category_id, tags, query, date) {
            out.push(t);
        }
    }
    assert(all.subrange(0, all.len() as int) =~= all);
    out
}

/// Why a transaction cannot be named in a request that changes it.
#[derive(Debug)]
pub enum TransactionError {
    /// The transaction with this identifier has no item.
    MissingItemId(TransactionId),
    /// The transaction with this identifier has no account.
    MissingAccountId(TransactionId),
}

impl TransactionError {
    /// The error in words.
    pub open spec fn message_text(self) -> Seq<char> {
        match self {
            TransactionError::MissingItemId(id) => "transaction "@ + id@ + " missing itemId"@,
            TransactionError::MissingAccountId(id) => "transaction "@ + id@ + " missing accountId"@,
        }
    }

    /// The error in words.
    pub fn message(&self) -> (r: String)
        ensures
            r@ == self.message_text(),
    {
        let mut out = String::from_str("transaction ");
        match self {
            TransactionError::MissingItemId(id) => {
                out.append(id.as_str());
                out.append(" missing itemId");
            },
            TransactionError::MissingAccountId(id) => {
                out.append(id.as_str());
                out.append(" missing accountId");
            },
        }
        out
    }
}

/// Whether a transaction has both its item and its account.
pub open spec fn is_complete(t: Transaction) -> bool {
    t.item_id is Some && t.account_id is Some
}

/// The item and the account of a transaction. A transaction without an item
/// gives the first error, one with an item and without an account the second.
pub fn require_item_and_account(txn: &Transaction) -> (r: Result<(ItemId, AccountId), TransactionError>)
    ensures
        match r {
            Ok((item, account)) => txn.item_id == Some(item) && txn.account_id == Some(account),
            Err(TransactionError::MissingItemId(id)) => txn.item_id is None && id@ == txn.id@,
            Err(TransactionError::MissingAccountId(id)) => txn.item_id is Some && txn.account_id is None && id@
                == txn.id@,
        },
{
    let item_id = match &txn.item_id {
        Some(id) => id.clone(),
        None => {
            return Err(TransactionError::MissingItemId(txn.id.clone()));
        },
    };
    let account_id = match &txn.account_id {
        Some(id) => id.clone(),
        None => {
            return Err(TransactionError::MissingAccountId(txn.id.clone()));
        },
    };
    Ok((item_id, account_id))
}

/// What names a complete transaction in a request.
pub open spec fn id_ref_of(t: Transaction) -> TransactionIdRef {
    TransactionIdRef { account_id: t.account_id->0, id: t.id, item_id: t.item_id->0 }
}

/// The references of all transactions, in their order; or, where one of them
/// lacks its item or its account, the error of the first that does.
pub fn build_transaction_id_refs(txns: &Vec<Transaction>) -> (r: Result<Vec<TransactionIdRef>, TransactionError>)
    ensures
        r is Ok <==> forall|i: int| 0 <= i < txns.len() ==> is_complete(#[trigger] txns[i]),
        r matches Ok(refs) ==> refs@ == Seq::new(txns@.len(), |i: int| id_ref_of(txns[i])),
        r matches Err(e) ==> exists|k: int|
            0 <= k < txns.len() && !is_complete(#[trigger] txns[k]) && (forall|i: int|
                0 <= i < k ==> is_complete(#[trigger] txns[i])) && (match e {
                TransactionError::MissingItemId(id) => txns[k].item_id is None && id@ == txns[k].id@,
                TransactionError::MissingAccountId(id) => txns[k].item_id is Some && id@ == txns[k].id@,
            }),
{
    let mut out: Vec<TransactionIdRef> = Vec::new();
    let mut i: usize = 0;
    while i < txns.len()
        invariant
            i <= txns.len(),
            forall|k: int| 0 <= k < i ==> is_complete(#[trigger] txns[k]),
            out@ == Seq::new(i as nat, |k: int| id_ref_of(txns[k])),
        decreases txns.len() - i,
    {
        let txn = &txns[i];
        match require_item_and_account(txn) {
            Ok((item_id, account_id)) => {
                out.push(TransactionIdRef { account_id, id: txn.id.clone(), item_id });
                assert(out@ =~= Seq::new((i + 1) as nat, |k: int| id_ref_of(txns[k])));
            },
            Err(e) => {
                assert(!is_complete(txns[i as int]));
                return Err(e);
            },
        }
        i = i + 1;
    }
    Ok(out)
}

/// The field and the direction by which the service sorts.
pub open spec fn sort_words(sort: TransactionsSort) -> (Seq<char>, Seq<char>) {
    match sort {
        TransactionsSort::DateDesc => ("DATE"@, "DESC"@),
        TransactionsSort::DateAsc => ("DATE"@, "ASC"@),
        TransactionsSort::AmountDesc => ("AMOUNT"@, "DESC"@),
        TransactionsSort::AmountAsc => ("AMOUNT"@, "ASC"@),
    }
}

/// The sort order of a listing as the service names it: the field, then the
/// direction. Without a wish there is none.
pub fn sort_to_graphql(sort: Option<TransactionsSort>) -> (r: Option<(&'static str, &'static str)>)
    ensures
        r is Some == sort is Some,
        r matches Some(words) ==> (words.0@, words.1@) == sort_words(sort->0),
{
    match sort {
        None => None,
        Some(TransactionsSort::DateDesc) => Some(("DATE", "DESC")),
        Some(TransactionsSort::DateAsc) => Some(("DATE", "ASC")),
        Some(TransactionsSort::AmountDesc) => Some(("AMOUNT", "DESC")),
        Some(TransactionsSort::AmountAsc) => Some(("AMOUNT", "ASC")),
    }
}

/// The filter that the service applies: the value that `isReviewed` must
/// have, where one of the two flags is set. `reviewed` goes first.
pub fn build_transactions_filter(reviewed: bool, unreviewed: bool) -> (r: Option<bool>)
    ensures
        r == (if reviewed {
            Some(true)
        } else if unreviewed {
            Some(false)
        } else {
            None
        }),
{
    if reviewed {
        Some(true)
    } else if unreviewed {
        Some(false)
    } else {
        None
    }
}

/// How many pages a listing may fetch: without bound where all are asked
/// for, else as many as asked for and at least one.
pub fn page_budget(all: bool, pages: usize) -> (r: usize)
    ensures
        r == (if all {
            usize::MAX
        } else if pages >= 1 {
            pages
        } else {
            1
        }),
{
    if all {
        usize::MAX
    } else if pages >= 1 {
        pages
    } else {
        1
    }
}

/// Whether a listing goes on to the next page after it has fetched
/// `fetched` pages, the last of them with `page_info`: the service must
/// announce a next page and give a cursor, and the budget must not be spent.
pub fn wants_next_page(fetched: usize, budget: usize, page_info: &PageInfo) -> (r: bool)
    ensures
        r == (page_info.has_next_page == Some(true) && page_info.end_cursor is Some && fetched < budget),
{
    let has_next = match page_info.has_next_page {
        Some(b) => b,
        None => false,
    };
    has_next && page_info.end_cursor.is_some() && fetched < budget
}

/// The texts of a list of tag identifiers, in order.
pub open spec fn tag_id_views(ids: Seq<TagId>) -> Seq<Seq<char>> {
    Seq::new(ids.len(), |i: int| ids[i]@)
}

/// The identifiers of the tags that a transaction carries.
pub open spec fn own_tag_ids(t: Transaction) -> Set<Seq<char>> {
    match t.tags {
        Some(tags) => Set::new(|x: Seq<char>| exists|k: int| 0 <= k < tags.len() && (#[trigger] tags[k]).id@ == x),
        None => Set::empty(),
    }
}

/// Whether `id` is among `ids`.
fn has_tag_id(ids: &Vec<TagId>, id: &TagId) -> (b: bool)
    ensures
        b == tag_id_views(ids@).contains(id@),
{
    let mut i: usize = 0;
    while i < ids.len()
        invariant
            i <= ids.len(),
            forall|k: int| 0 <= k < i ==> tag_id_views(ids@)[k] != id@,
        decreases ids.len() - i,
    {
        if ids[i].same(id) {
            assert(tag_id_views(ids@)[i as int] == id@);
            return true;
        }
        i = i + 1;
    }
    false
}

/// Adds to `out` each identifier of `more` that is neither in `skip` nor in
/// `out` already.
fn extend_unique(out: &mut Vec<TagId>, more: &Vec<TagId>, skip: &Vec<TagId>)
    requires
        tag_id_views(old(out)@).no_duplicates(),
    ensures
        tag_id_views(final(out)@).no_duplicates(),
        tag_id_views(final(out)@).to_set() == tag_id_views(old(out)@).to_set().union(
            tag_id_views(more@).to_set().difference(tag_id_views(skip@).to_set()),
        ),
{
    let ghost start = tag_id_views(out@).to_set();
    let ghost skipped = tag_id_views(skip@).to_set();
    let mut i: usize = 0;
    assert(tag_id_views(out@).to_set() =~= start.union(
        tag_id_views(more@).subrange(0, 0).to_set().difference(skipped),
    ));
    while i < more.len()
        invariant
            i <= more.len(),
            skipped == tag_id_views(skip@).to_set(),
            tag_id_views(out@).no_duplicates(),
            tag_id_views(out@).to_set() == start.union(
                tag_id_views(more@).subrange(0, i as int).to_set().difference(skipped),
            ),
        decreases more.len() - i,
    {
        let id = &more[i];
        let ghost before = tag_id_views(out@);
        let ghost done = tag_id_views(more@).subrange(0, i as int);
        let ghost next = tag_id_views(more@).subrange(0, i as int + 1);
        proof {
            assert(next =~= done.push(id@));
            assert forall|x: Seq<char>| next.to_set().contains(x) <==> (done.to_set().contains(x) || x == id@) by {
                if next.contains(x) {
                    let k = choose|k: int| 0 <= k < next.len() && next[k] == x;
                    if k < i {
                        assert(done[k] == x);
                    }
                }
                if done.contains(x) {
                    let k = choose|k: int| 0 <= k < done.len() && done[k] == x;
                    assert(next[k] == x);
                }
                if x == id@ {
                    assert(next[i as int] == x);
                }
            }
        }
        let ghost skipping = tag_id_views(skip@).contains(id@);
        let ghost present = before.contains(id@);
        if !has_tag_id(skip, id) && !has_tag_id(out, id) {
            out.push(id.clone());
            proof {
                assert(tag_id_views(out@) =~= before.push(id@));
                assert forall|x: Seq<char>| tag_id_views(out@).to_set().contains(x) <==> (before.to_set().contains(
                    x,
                ) || x == id@) by {
                    let now = tag_id_views(out@);
                    if now.contains(x) {
                        let k = choose|k: int| 0 <= k < now.len() && now[k] == x;
                        if k < before.len() {
                            assert(before[k] == x);
                        }
                    }
                    if before.contains(x) {
                        let k = choose|k: int| 0 <= k < before.len() && before[k] == x;
                        assert(now[k] == x);
                    }
                    if x == id@ {
                        assert(now[before.len() as int] == x);
                    }
                }
            }
        }
        proof {
            let now = tag_id_views(out@).to_set();
            let goal = start.union(next.to_set().difference(skipped));
            assert(before.to_set() == start.union(done.to_set().difference(skipped)));
            assert forall|x: Seq<char>| now.contains(x) <==> goal.contains(x) by {
                assert(next.to_set().contains(x) <==> (done.to_set().contains(x) || x == id@));
                assert(skipped.contains(id@) == skipping);
                assert(before.to_set().contains(id@) == present);
                if !skipping && !present {
                    assert(now.contains(x) <==> (before.to_set().contains(x) || x == id@));
                } else {
                    assert(now == before.to_set());
                }
            }
            assert(now =~= goal);
        }
        i = i + 1;
    }
    assert(tag_id_views(more@).subrange(0, more.len() as int) =~= tag_id_views(more@));
}

/// The tag identifiers that a transaction is to carry after an update.
///
/// To replace gives the identifiers as they were given. To add gives those
/// that the transaction carries and those given; to remove gives those that
/// it carries and that were not given; both without repetition.
pub fn next_tag_ids(txn: &Transaction, mode: TagUpdateMode, tag_ids: &Vec<TagId>) -> (r: Vec<TagId>)
    ensures
        mode == TagUpdateMode::Replace ==> tag_id_views(r@) == tag_id_views(tag_ids@),
        mode == TagUpdateMode::Add ==> tag_id_views(r@).no_duplicates() && tag_id_views(r@).to_set()
            == own_tag_ids(*txn).union(tag_id_views(tag_ids@).to_set()),
        mode == TagUpdateMode::Remove ==> tag_id_views(r@).no_duplicates() && tag_id_views(r@).to_set()
            == own_tag_ids(*txn).difference(tag_id_views(tag_ids@).to_set()),
{
    let mut existing: Vec<TagId> = Vec::new();
    if let Some(tags) = &txn.tags {
        let mut k: usize = 0;
        while k < tags.len()
            invariant
                k <= tags.len(),
                existing.len() == k,
                forall|j: int| 0 <= j < k ==> existing[j]@ == tags[j].id@,
            decreases tags.len() - k,
        {
            existing.push(tags[k].id.clone());
            k = k + 1;
        }
    }
    proof {
        assert forall|x: Seq<char>| tag_id_views(existing@).to_set().contains(x) <==> own_tag_ids(*txn).contains(
            x,
        ) by {
            let views = tag_id_views(existing@);
            if views.contains(x) {
                let k = choose|k: int| 0 <= k < views.len() && views[k] == x;
                assert(txn.tags->0[k].id@ == x);
            }
            if own_tag_ids(*txn).contains(x) {
                let tags = txn.tags->0;
                let k = choose|k: int| 0 <= k < tags.len() && (#[trigger] tags[k]).id@ == x;
                assert(views[k] == x);
            }
        }
        assert(tag_id_views(existing@).to_set() =~= own_tag_ids(*txn));
    }
    let nothing: Vec<TagId> = Vec::new();
    let mut out: Vec<TagId> = Vec::new();
    proof {
        assert(tag_id_views(nothing@).to_set() =~= Set::<Seq<char>>::empty());
        assert(tag_id_views(out@).to_set() =~= Set::<Seq<char>>::empty());
    }
    match mode {
        TagUpdateMode::Replace => {
            let mut k: usize = 0;
            while k < tag_ids.len()
                invariant
                    k <= tag_ids.len(),
                    out.len() == k,
                    forall|j: int| 0 <= j < k ==> out[j]@ == tag_ids[j]@,
                decreases tag_ids.len() - k,
            {
                out.push(tag_ids[k].clone());
                k = k + 1;
            }
            assert(tag_id_views(out@) =~= tag_id_views(tag_ids@));
        },
        TagUpdateMode::Add => {
            extend_unique(&mut out, &existing, &nothing);
            extend_unique(&mut out, tag_ids, &nothing);
            assert(tag_id_views(out@).to_set() =~= own_tag_ids(*txn).union(tag_id_views(tag_ids@).to_set()));
        },
        TagUpdateMode::Remove => {
            extend_unique(&mut out, &existing, tag_ids);
            assert(tag_id_views(out@).to_set() =~= own_tag_ids(*txn).difference(
                tag_id_views(tag_ids@).to_set(),
            ));
        },
    }
    out
}

/// The texts of a list of transaction identifiers, in order.
pub open spec fn id_views(ids: Seq<TransactionId>) -> Seq<Seq<char>> {
    Seq::new(ids.len(), |i: int| ids[i]@)
}

/// The identifiers of a list of transactions, in order.
pub open spec fn ids_of(txns: Seq<Transaction>) -> Seq<Seq<char>> {
    Seq::new(txns.len(), |i: int| txns[i].id@)
}

/// The first position at or after `i` at which `x` stands in `list`, or the
/// length of `list`.
pub open spec fn first_at(list: Seq<Seq<char>>, x: Seq<char>, i: int) -> int
    decreases list.len() - i,
{
    if i < 0 || i >= list.len() {
        list.len() as int
    } else if list[i] == x {
        i
    } else {
        first_at(list, x, i + 1)
    }
}

/// Where the first transaction with identifier `id` stands, or the length
/// of the list.
fn position_of(txns: &Vec<Transaction>, id: &TransactionId) -> (k: usize)
    ensures
        k == first_at(ids_of(txns@), id@, 0),
        k <= txns.len(),
        k < txns.len() ==> txns[k as int].id@ == id@,
        k == txns.len() ==> !ids_of(txns@).contains(id@),
{
    let mut k: usize = 0;
    while k < txns.len()
        invariant
            k <= txns.len(),
            first_at(ids_of(txns@), id@, k as int) == first_at(ids_of(txns@), id@, 0),
            forall|j: int| 0 <= j < k ==> ids_of(txns@)[j] != id@,
        decreases txns.len() - k,
    {
        assert(ids_of(txns@)[k as int] == txns[k as int].id@);
        if txns[k].id.same(id) {
            return k;
        }
        k = k + 1;
    }
    k
}

/// How many of the first `i` identifiers occur there for the first time.
pub open spec fn distinct_among(ids: Seq<Seq<char>>, i: int) -> nat
    decreases i,
{
    if i <= 0 || i > ids.len() {
        0
    } else {
        distinct_among(ids, i - 1) + (if ids.subrange(0, i - 1).contains(ids[i - 1]) {
            0nat
        } else {
            1nat
        })
    }
}

/// How many different identifiers a list holds.
pub fn distinct_count(ids: &Vec<TransactionId>) -> (n: usize)
    ensures
        n == distinct_among(id_views(ids@), ids.len() as int),
{
    let ghost views = id_views(ids@);
    let mut n: usize = 0;
    let mut i: usize = 0;
    while i < ids.len()
        invariant
            i <= ids.len(),
            views == id_views(ids@),
            n <= i,
            n == distinct_among(views, i as int),
        decreases ids.len() - i,
    {
        let mut seen = false;
        let mut j: usize = 0;
        while j < i && !seen
            invariant
                j <= i < ids.len(),
                views == id_views(ids@),
                seen ==> views.subrange(0, i as int).contains(views[i as int]),
                !seen ==> forall|k: int| 0 <= k < j ==> views[k] != views[i as int],
            decreases i - j + (if seen { 0int } else { 1int }),
        {
            if ids[j].same(&ids[i]) {
                assert(views.subrange(0, i as int)[j as int] == views[i as int]);
                seen = true;
            } else {
                j = j + 1;
            }
        }
        proof {
            if !seen {
                let prefix = views.subrange(0, i as int);
                if prefix.contains(views[i as int]) {
                    let k = choose|k: int| 0 <= k < prefix.len() && prefix[k] == views[i as int];
                    assert(views[k] == views[i as int]);
                }
            }
        }
        if !seen {
            n = n + 1;
        }
        i = i + 1;
    }
    n
}

/// Whether the scan for wanted transactions fetches another page after
/// `pages_done` pages: some are still not found, the service announces a
/// next page, and fewer than 200 pages were fetched.
pub fn scan_goes_on(found: usize, wanted: usize, page_info: &PageInfo, pages_done: usize) -> (r: bool)
    ensures
        r == (found != wanted && page_info.has_next_page == Some(true) && pages_done < 200),
{
    let has_next = match page_info.has_next_page {
        Some(b) => b,
        None => false,
    };
    found != wanted && has_next && pages_done < 200
}

/// Takes the wanted transactions of a page into `found`. A transaction whose
/// identifier `found` has already replaces the one that was there.
pub fn keep_wanted(found: &mut Vec<Transaction>, page: Vec<Transaction>, ids: &Vec<TransactionId>)
    requires
        ids_of(old(found)@).no_duplicates(),
        forall|k: int| 0 <= k < old(found)@.len() ==> id_views(ids@).contains(#[trigger] ids_of(old(found)@)[k]),
    ensures
        ids_of(final(found)@).no_duplicates(),
        forall|k: int| 0 <= k < final(found)@.len() ==> id_views(ids@).contains(#[trigger] ids_of(final(found)@)[k]),
        forall|x: Seq<char>|
            ids_of(final(found)@).contains(x) <==> (ids_of(old(found)@).contains(x) || (ids_of(page@).contains(x)
                && id_views(ids@).contains(x))),
{
    let ghost all = page@;
    let ghost start = ids_of(found@);
    let ghost wanted = id_views(ids@);
    for t in it: page.into_iter()
        invariant
            it.seq() == all,
            wanted == id_views(ids@),
            ids_of(found@).no_duplicates(),
            forall|k: int| 0 <= k < found@.len() ==> wanted.contains(#[trigger] ids_of(found@)[k]),
            forall|x: Seq<char>|
                ids_of(found@).contains(x) <==> (start.contains(x) || (ids_of(all).subrange(
                    0,
                    it.index() as int,
                ).contains(x) && wanted.contains(x))),
    {
        let ghost before = ids_of(found@);
        let ghost done = ids_of(all).subrange(0, it.index() as int);
        let ghost next = ids_of(all).subrange(0, it.index() as int + 1);
        let ghost tid = t.id@;
        proof {
            assert(t == all[it.index() as int]);
            assert(next =~= done.push(tid));
            assert forall|x: Seq<char>| next.contains(x) <==> (done.contains(x) || x == tid) by {
                if next.contains(x) {
                    let k = choose|k: int| 0 <= k < next.len() && next[k] == x;
                    if k < done.len() {
                        assert(done[k] == x);
                    }
                }
                if done.contains(x) {
                    let k = choose|k: int| 0 <= k < done.len() && done[k] == x;
                    assert(next[k] == x);
                }
                if x == tid {
                    assert(next[done.len() as int] == x);
                }
            }
        }
        let mut is_wanted = false;
        let mut w: usize = 0;
        while w < ids.len() && !is_wanted
            invariant
                w <= ids.len(),
                wanted == id_views(ids@),
                tid == t.id@,
                is_wanted ==> wanted.contains(tid),
                !is_wanted ==> forall|k: int| 0 <= k < w ==> wanted[k] != tid,
            decreases ids.len() - w + (if is_wanted { 0int } else { 1int }),
        {
            if ids[w].same(&t.id) {
                assert(wanted[w as int] == tid);
                is_wanted = true;
            } else {
                w = w + 1;
            }
        }
        if is_wanted {
            let k = position_of(found, &t.id);
            if k < found.len() {
                found.set(k, t);
                proof {
                    assert(ids_of(found@) =~= before);
                    assert(before[k as int] == tid);
                    assert(before.contains(tid));
                }
            } else {
                assert(!before.contains(tid));
                found.push(t);
                proof {
                    let now = ids_of(found@);
                    assert(now =~= before.push(tid));
                    assert forall|x: Seq<char>| now.contains(x) <==> (before.contains(x) || x == tid) by {
                        if now.contains(x) {
                            let j = choose|j: int| 0 <= j < now.len() && now[j] == x;
                            if j < before.len() {
                                assert(before[j] == x);
                            }
                        }
                        if before.contains(x) {
                            let j = choose|j: int| 0 <= j < before.len() && before[j] == x;
                            assert(now[j] == x);
                        }
                        if x == tid {
                            assert(now[before.len() as int] == x);
                        }
                    }
                    assert forall|a: int, b: int| 0 <= a < now.len() && 0 <= b < now.len() && a != b implies now[a]
                        != now[b] by {
                        if a < before.len() && b < before.len() {
                            assert(before[a] != before[b]);
                        } else if a < before.len() {
                            assert(before.contains(before[a]));
                        } else if b < before.len() {
                            assert(before.contains(before[b]));
                        }
                    }
                    assert forall|j: int| 0 <= j < found@.len() implies wanted.contains(
                        #[trigger] ids_of(found@)[j],
                    ) by {
                        if j < before.len() {
                            assert(before[j] == now[j]);
                        }
                    }
                }
            }
        }
        proof {
            let now = ids_of(found@);
            if !is_wanted {
                if wanted.contains(tid) {
                    let j = choose|j: int| 0 <= j < wanted.len() && wanted[j] == tid;
                    assert(wanted[j] != tid);
                }
            }
            assert forall|x: Seq<char>| now.contains(x) <==> (start.contains(x) || (next.contains(x)
                && wanted.contains(x))) by {
                assert(next.contains(x) <==> (done.contains(x) || x == tid));
                assert(before.contains(x) <==> (start.contains(x) || (done.contains(x) && wanted.contains(x))));
                if is_wanted {
                    if before.contains(tid) {
                        assert(now == before);
                    } else {
                        assert(now.contains(x) <==> (before.contains(x) || x == tid));
                    }
                } else {
                    assert(now == before);
                }
            }
        }
    }
    assert(ids_of(all).subrange(0, all.len() as int) =~= ids_of(all));
}

/// The identifiers from position `i` on for which no transaction is left,
/// where each identifier takes the first transaction that has it out of
/// `left`.
pub open spec fn missing_ids(ids: Seq<Seq<char>>, i: int, left: Seq<Seq<char>>) -> Seq<Seq<char>>
    decreases ids.len() - i,
{
    if 0 <= i < ids.len() {
        let k = first_at(left, ids[i], 0);
        if k < left.len() {
            missing_ids(ids, i + 1, left.remove(k))
        } else {
            seq![ids[i]] + missing_ids(ids, i + 1, left)
        }
    } else {
        Seq::empty()
    }
}

/// The texts of a list of strings, in order.
pub open spec fn text_views(texts: Seq<String>) -> Seq<Seq<char>> {
    Seq::new(texts.len(), |i: int| texts[i]@)
}

/// Puts the transactions that were found in the order of the identifiers
/// asked for. Each identifier takes one transaction; the identifiers for
/// which none is left are the error.
pub fn order_by_ids(ids: &Vec<TransactionId>, found: Vec<Transaction>) -> (r: Result<Vec<Transaction>, Vec<String>>)
    ensures
        r is Ok <==> missing_ids(id_views(ids@), 0, ids_of(found@)).len() == 0,
        r matches Ok(ordered) ==> ids_of(ordered@) == id_views(ids@),
        r matches Err(missing) ==> text_views(missing@) == missing_ids(id_views(ids@), 0, ids_of(found@)),
{
    let ghost wanted = id_views(ids@);
    let ghost total = missing_ids(wanted, 0, ids_of(found@));
    let mut left = found;
    let mut ordered: Vec<Transaction> = Vec::new();
    let mut missing: Vec<String> = Vec::new();
    assert(text_views(missing@) + total =~= total);
    assert(ids_of(ordered@) =~= wanted.subrange(0, 0));
    let mut i: usize = 0;
    while i < ids.len()
        invariant
            i <= ids.len(),
            wanted == id_views(ids@),
            text_views(missing@) + missing_ids(wanted, i as int, ids_of(left@)) == total,
            missing.len() == 0 ==> ids_of(ordered@) == wanted.subrange(0, i as int),
        decreases ids.len() - i,
    {
        let id = &ids[i];
        let ghost before = text_views(missing@);
        let ghost had = ids_of(left@);
        let ghost placed = ids_of(ordered@);
        let k = position_of(&left, id);
        if k < left.len() {
            let t = left.remove(k);
            ordered.push(t);
            proof {
                assert(ids_of(left@) =~= had.remove(k as int));
                assert(ids_of(ordered@) =~= placed.push(wanted[i as int]));
                assert(wanted.subrange(0, i as int + 1) =~= wanted.subrange(0, i as int).push(wanted[i as int]));
            }
        } else {
            missing.push(id.to_text());
            proof {
                let rest = missing_ids(wanted, i as int + 1, had);
                assert(text_views(missing@) =~= before.push(wanted[i as int]));
                assert(text_views(missing@) + rest =~= before + (seq![wanted[i as int]] + rest));
            }
        }
        i = i + 1;
    }
    proof {
        assert(text_views(missing@) + Seq::<Seq<char>>::empty() =~= text_views(missing@));
        assert(wanted.subrange(0, ids.len() as int) =~= wanted);
    }
    if missing.len() == 0 {
        Ok(ordered)
    } else {
        Err(missing)
    }
}

/// The names of the tags from position `i` on that have one, each after a
/// comma but the first that is written.
pub open spec fn joined_tag_names(tags: Seq<Tag>, i: int, first: bool) -> Seq<char>
    decreases tags.len() - i,
{
    if 0 <= i < tags.len() {
        match tags[i].name {
            Some(name) => (if first {
                Seq::<char>::empty()
            } else {
                ","@
            }) + name@ + joined_tag_names(tags, i + 1, false),
            None => joined_tag_names(tags, i + 1, first),
        }
    } else {
        Seq::empty()
    }
}

/// The tags of a transaction as a table shows them: the names of those that
/// have one, with commas between.
pub fn tags_text(t: &Transaction) -> (r: String)
    ensures
        r@ == (match t.tags {
            Some(tags) => joined_tag_names(tags@, 0, true),
            None => Seq::<char>::empty(),
        }),
{
    let mut out = String::new();
    if let Some(tags) = &t.tags {
        let ghost goal = joined_tag_names(tags@, 0, true);
        let mut first = true;
        let mut i: usize = 0;
        assert(out@ + goal =~= goal);
        while i < tags.len()
            invariant
                i <= tags.len(),
                out@ + joined_tag_names(tags@, i as int, first) == goal,
            decreases tags.len() - i,
        {
            let ghost rest = joined_tag_names(tags@, i as int + 1, false);
            if let Some(name) = &tags[i].name {
                let ghost before = out@;
                if !first {
                    out.append(",");
                    assert(out@ + name@ + rest =~= before + (","@ + name@ + rest));
                } else {
                    assert(out@ + name@ + rest =~= before + (Seq::<char>::empty() + name@ + rest));
                }
                let ghost mid = out@;
                out.append(name.as_str());
                assert(out@ + rest =~= mid + name@ + rest);
                first = false;
            }
            i = i + 1;
        }
        assert(out@ + Seq::<char>::empty() =~= out@);
    }
    out
}

/// The name of a category among `rows`: that of the last row with the
/// identifier, where there is one.
pub open spec fn category_name(rows: Seq<(CategoryId, String)>, id: Seq<char>, upto: int) -> Option<Seq<char>>
    decreases upto,
{
    if upto <= 0 || upto > rows.len() {
        None
    } else if rows[upto - 1].0@ == id {
        Some(rows[upto - 1].1@)
    } else {
        category_name(rows, id, upto - 1)
    }
}

/// The category of a transaction as a table shows it: its name where `rows`
/// has a row for it, else its identifier, and nothing where the transaction
/// has no category.
pub fn category_label(t: &Transaction, rows: &Vec<(CategoryId, String)>) -> (r: String)
    ensures
        r@ == (match t.category_id {
            None => Seq::<char>::empty(),
            Some(id) => match category_name(rows@, id@, rows.len() as int) {
                Some(name) => name,
                None => id@,
            },
        }),
{
    match &t.category_id {
        None => String::new(),
        Some(id) => {
            let mut k: usize = rows.len();
            while k > 0
                invariant
                    k <= rows.len(),
                    t.category_id == Some(*id),
                    category_name(rows@, id@, k as int) == category_name(rows@, id@, rows.len() as int),
                decreases k,
            {
                if rows[k - 1].0.same(id) {
                    return rows[k - 1].1.clone();
                }
                k = k - 1;
            }
            id.to_text()
        },
    }
}

/// The notes that a request sets: none where they are cleared, else those
/// given. Without notes and without the wish to clear there is nothing to
/// set.
pub fn notes_to_set(clear: bool, notes: Option<&str>) -> (r: Option<String>)
    ensures
        r is Some == (clear || notes is Some),
        r is Some ==> r->0@ == (if clear {
            Seq::<char>::empty()
        } else {
            notes->0@
        }),
{
    if clear {
        return Some(String::new());
    }
    match notes {
        Some(n) => Some(n.to_owned()),
        None => None,
    }
}

/// Whether an update of tags names the tags it needs: to add and to remove
/// take at least one.
pub fn tag_update_is_complete(mode: TagUpdateMode, tag_ids: &Vec<TagId>) -> (b: bool)
    ensures
        b == (mode == TagUpdateMode::Replace || tag_ids.len() > 0),
{
    match mode {
        TagUpdateMode::Replace => true,
        _ => tag_ids.len() > 0,
    }
}

} // verus!
