//! Rules on recurring transactions: which of them a listing shows.

use crate::cli::RecurringsListArgs;
use crate::client::Recurring;
use crate::text::{contains_text, lowercase, str_contains, to_lowercase};
use crate::transactions::text_or_empty;
use vstd::prelude::*;

verus! {

/// Whether a listing with these filters shows the recurring transaction: it
/// must be of the category, where one is given, and its name must hold the
/// text, where one is given, without regard to case.
pub open spec fn recurring_shown(r: Recurring, category: Option<Seq<char>>, name_contains: Option<Seq<char>>) -> bool {
    &&& category is Some ==> (r.category_id is Some && r.category_id->0@ == category->0)
    &&& name_contains is Some ==> contains_text(lowercase(text_or_empty(r.name)), lowercase(name_contains->0))
}

/// The category that the listing asks for, where it asks for one.
pub open spec fn wanted_category(args: RecurringsListArgs) -> Option<Seq<char>> {
    match args.category_id {
        Some(c) => Some(c@),
        None => None,
    }
}

/// The text that the names must hold, where the listing asks for one.
pub open spec fn wanted_text(args: RecurringsListArgs) -> Option<Seq<char>> {
    match args.name_contains {
        Some(q) => Some(q@),
        None => None,
    }
}

/// Whether the listing shows the recurring transaction.
pub fn recurring_matches(r: &Recurring, args: &RecurringsListArgs) -> (b: bool)
    ensures
        b == recurring_shown(*r, wanted_category(*args), wanted_text(*args)),
{
    if let Some(cat) = &args.category_id {
        match &r.category_id {
            Some(own) => {
                if !own.same(cat) {
                    return false;
                }
            },
            None => {
                return false;
            },
        }
    }
    if let Some(q) = &args.name_contains {
        let q = to_lowercase(q.as_str());
        let name = match &r.name {
            Some(n) => to_lowercase(n.as_str()),
            None => to_lowercase(""),
        };
        proof {
            reveal_strlit("");
            assert(""@ =~= Seq::<char>::empty());
        }
        if !str_contains(name.as_str(), q.as_str()) {
            return false;
        }
    }
    true
}

/// Keeps the recurring transactions that the filters let through, in their
/// order.
pub fn filter_recurrings(items: Vec<Recurring>, args: &RecurringsListArgs) -> (r: Vec<Recurring>)
    ensures
        r@ == items@.filter(|x: Recurring| recurring_shown(x, wanted_category(*args), wanted_text(*args))),
{
    let ghost keep = |x: Recurring| recurring_shown(x, wanted_category(*args), wanted_text(*args));
    let ghost all = items@;
    let mut out: Vec<Recurring> = Vec::new();
    assert(all.subrange(0, 0).filter(keep) =~= Seq::<Recurring>::empty()) by {
        reveal(Seq::filter);
    }
    for x in it: items.into_iter()
        invariant
            it.seq() == all,
            forall|y: Recurring|
                #[trigger] keep(y) == recurring_shown(y, wanted_category(*args), wanted_text(*args)),
            out@ == all.subrange(0, it.index() as int).filter(keep),
    {
        proof {
            let done = all.subrange(0, it.index() as int);
            let next = all.subrange(0, it.index() as int + 1);
            assert(x == all[it.index() as int]);
            assert(next.drop_last() =~= done);
            assert(next.last() == x);
            reveal(Seq::filter);
            assert(next.filter(keep) == if keep(x) {
                done.filter(keep).push(x)
            } else {
                done.filter(keep)
            });
        }
        if recurring_matches(&x, args) {
            out.push(x);
        }
    }
    assert(all.subrange(0, all.len() as int) =~= all);
    out
}

} // verus!
