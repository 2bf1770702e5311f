//! Rules on categories: the tree laid out as a list, and the choice of a
//! category by name.

use crate::client::Category;
use crate::text::{contains_text, lowercase, str_contains, str_eq, to_lowercase, trim_text, trimmed};
use crate::transactions::text_or_empty;
use crate::types::CategoryId;
use vstd::prelude::*;

verus! {

/// One category of the tree in a flat listing.
#[derive(Debug, Clone)]
pub struct FlatCategory {
    pub id: CategoryId,
    pub name: String,
    pub parent_id: Option<CategoryId>,
    pub is_excluded: Option<bool>,
    pub can_be_deleted: Option<bool>,
}

/// What a flat listing says of one category.
pub struct FlatModel {
    pub id: Seq<char>,
    pub name: Seq<char>,
    pub parent_id: Option<Seq<char>>,
    pub is_excluded: Option<bool>,
    pub can_be_deleted: Option<bool>,
}

impl View for FlatCategory {
    type V = FlatModel;

    open spec fn view(&self) -> FlatModel {
        FlatModel {
            id: self.id@,
            name: self.name@,
            parent_id: match self.parent_id {
                Some(p) => Some(p@),
                None => None,
            },
            is_excluded: self.is_excluded,
            can_be_deleted: self.can_be_deleted,
        }
    }
}

/// The views of a flat listing.
pub open spec fn flat_views(rows: Seq<FlatCategory>) -> Seq<FlatModel> {
    Seq::new(rows.len(), |i: int| rows[i]@)
}

/// A category and, where children are asked for, those below it, each
/// parent before its children.
pub open spec fn category_rows(c: Category, parent: Option<Seq<char>>, include_children: bool) -> Seq<FlatModel>
    decreases c, 0nat,
{
    let own = FlatModel {
        id: c.id@,
        name: text_or_empty(c.name),
        parent_id: parent,
        is_excluded: c.is_excluded,
        can_be_deleted: c.can_be_deleted,
    };
    match c.child_categories {
        Some(children) => if include_children {
            seq![own] + rows_from(children, 0, Some(c.id@), include_children)
        } else {
            seq![own]
        },
        None => seq![own],
    }
}

/// The rows of the categories from position `i` on.
pub open spec fn rows_from(
    cats: Vec<Category>,
    i: int,
    parent: Option<Seq<char>>,
    include_children: bool,
) -> Seq<FlatModel>
    decreases cats, cats.len() - i,
{
    if 0 <= i < cats.len() {
        category_rows(cats[i], parent, include_children) + rows_from(cats, i + 1, parent, include_children)
    } else {
        Seq::empty()
    }
}

fn flatten_into(
    out: &mut Vec<FlatCategory>,
    cats: &Vec<Category>,
    parent_id: Option<&CategoryId>,
    include_children: bool,
)
    ensures
        flat_views(final(out)@) == flat_views(old(out)@) + rows_from(
            *cats,
            0,
            match parent_id {
                Some(p) => Some(p@),
                None => None,
            },
            include_children,
        ),
    decreases cats,
{
    let ghost parent = match parent_id {
        Some(p) => Some(p@),
        None => None,
    };
    let ghost start = flat_views(out@);
    let ghost goal = start + rows_from(*cats, 0, parent, include_children);
    let mut i: usize = 0;
    while i < cats.len()
        invariant
            i <= cats.len(),
            parent == (match parent_id {
                Some(p) => Some(p@),
                None => None,
            }),
            flat_views(out@) + rows_from(*cats, i as int, parent, include_children) == goal,
        decreases cats.len() - i,
    {
        let c = &cats[i];
        let ghost before = flat_views(out@);
        let ghost rest = rows_from(*cats, i as int + 1, parent, include_children);
        assert(rows_from(*cats, i as int, parent, include_children) == category_rows(
            *c,
            parent,
            include_children,
        ) + rest);
        assert(goal == before + (category_rows(*c, parent, include_children) + rest));
        let name = match &c.name {
            Some(n) => n.clone(),
            None => String::new(),
        };
        let parent_copy = match parent_id {
            Some(p) => Some(p.clone()),
            None => None,
        };
        out.push(
            FlatCategory {
                id: c.id.clone(),
                name,
                parent_id: parent_copy,
                is_excluded: c.is_excluded,
                can_be_deleted: c.can_be_deleted,
            },
        );
        let ghost own = FlatModel {
            id: c.id@,
            name: text_or_empty(c.name),
            parent_id: parent,
            is_excluded: c.is_excluded,
            can_be_deleted: c.can_be_deleted,
        };
        assert(flat_views(out@) =~= before + seq![own]);
        if include_children {
            if let Some(children) = &c.child_categories {
                let ghost mid = flat_views(out@);
                flatten_into(out, children, Some(&c.id), include_children);
                assert(flat_views(out@) == mid + rows_from(*children, 0, Some(c.id@), include_children));
                assert(category_rows(*c, parent, include_children) == seq![own] + rows_from(
                    *children,
                    0,
                    Some(c.id@),
                    include_children,
                ));
                assert(flat_views(out@) + rest =~= before + ((seq![own] + rows_from(
                    *children,
                    0,
                    Some(c.id@),
                    include_children,
                )) + rest));
            } else {
                assert(flat_views(out@) + rest =~= before + (seq![own] + rest));
            }
        } else {
            assert(flat_views(out@) + rest =~= before + (seq![own] + rest));
        }
        i = i + 1;
    }
    assert(flat_views(out@) + Seq::<FlatModel>::empty() =~= flat_views(out@));
}

/// Lays the category tree out as a list, each parent before its children.
/// Without `include_children` only the top level is listed.
pub fn flatten_categories(categories: &Vec<Category>, include_children: bool) -> (r: Vec<FlatCategory>)
    ensures
        flat_views(r@) == rows_from(*categories, 0, None, include_children),
{
    let mut out: Vec<FlatCategory> = Vec::new();
    assert(flat_views(out@) =~= Seq::<FlatModel>::empty());
    flatten_into(&mut out, categories, None, include_children);
    assert(Seq::<FlatModel>::empty() + rows_from(*categories, 0, None, include_children) =~= rows_from(
        *categories,
        0,
        None,
        include_children,
    ));
    out
}

/// Whether a category's name holds `text`, without regard to case.
pub open spec fn name_holds(c: FlatCategory, text: Seq<char>) -> bool {
    contains_text(lowercase(c.name@), lowercase(text))
}

/// Keeps the categories whose name holds `text`, without regard to case, in
/// their order.
pub fn filter_by_name(rows: Vec<FlatCategory>, text: &str) -> (r: Vec<FlatCategory>)
    ensures
        r@ == rows@.filter(|c: FlatCategory| name_holds(c, text@)),
{
    let ghost keep = |c: FlatCategory| name_holds(c, text@);
    let ghost all = rows@;
    let q = to_lowercase(text);
    let mut out: Vec<FlatCategory> = Vec::new();
    assert(all.subrange(0, 0).filter(keep) =~= Seq::<FlatCategory>::empty()) by {
        reveal(Seq::filter);
    }
    for c in it: rows.into_iter()
        invariant
            it.seq() == all,
            q@ == lowercase(text@),
            forall|x: FlatCategory| #[trigger] keep(x) == name_holds(x, text@),
            out@ == all.subrange(0, it.index() as int).filter(keep),
    {
        proof {
            let done = all.subrange(0, it.index() as int);
            let next = all.subrange(0, it.index() as int + 1);
            assert(c == all[it.index() as int]);
            assert(next.drop_last() =~= done);
            assert(next.last() == c);
            reveal(Seq::filter);
            assert(next.filter(keep) == if keep(c) {
                done.filter(keep).push(c)
            } else {
                done.filter(keep)
            });
        }
        let name = to_lowercase(c.name.as_str());
        if str_contains(name.as_str(), q.as_str()) {
            out.push(c);
        }
    }
    assert(all.subrange(0, all.len() as int) =~= all);
    out
}

/// The identifiers and names of a listing of pairs.
pub open spec fn pair_views(rows: Seq<(CategoryId, String)>) -> Seq<(Seq<char>, Seq<char>)> {
    Seq::new(rows.len(), |i: int| (rows[i].0@, rows[i].1@))
}

/// The identifier and the name of each row.
pub open spec fn names_of(rows: Seq<FlatModel>) -> Seq<(Seq<char>, Seq<char>)> {
    Seq::new(rows.len(), |i: int| (rows[i].id, rows[i].name))
}

/// Every category of the tree with its name, each parent before its
/// children.
pub fn flatten_categories_for_lookup(categories: &Vec<Category>) -> (r: Vec<(CategoryId, String)>)
    ensures
        pair_views(r@) == names_of(rows_from(*categories, 0, None, true)),
{
    let flat = flatten_categories(categories, true);
    let ghost rows = flat_views(flat@);
    let mut out: Vec<(CategoryId, String)> = Vec::new();
    let mut i: usize = 0;
    while i < flat.len()
        invariant
            i <= flat.len(),
            rows == flat_views(flat@),
            out.len() == i,
            forall|k: int| 0 <= k < i ==> (#[trigger] out[k]).0@ == rows[k].id && out[k].1@ == rows[k].name,
        decreases flat.len() - i,
    {
        let id = flat[i].id.clone();
        let name = flat[i].name.clone();
        assert(id@ == rows[i as int].id && name@ == rows[i as int].name);
        out.push((id, name));
        i = i + 1;
    }
    assert(pair_views(out@) =~= names_of(rows));
    out
}

/// Why no category could be chosen by name.
#[derive(Debug, Clone, Copy, PartialEq, Eq, Structural)]
pub enum CategoryError {
    /// The name is empty once the white space at its ends is dropped.
    EmptyName,
    /// No category has the name.
    NoneNamed,
    /// So many categories have the name.
    Ambiguous(usize),
}

/// What is to be done to find the category of a request.
#[derive(Debug)]
pub enum CategoryLookup {
    /// No category was asked for.
    Nothing,
    /// The category was given by its identifier.
    Known(CategoryId),
    /// The category is to be looked up by this name, which is in lower case
    /// and without white space at its ends.
    ByName(String),
}

/// The name by which categories are compared: without the white space at
/// its ends, in lower case.
pub open spec fn wanted_name(name: Seq<char>) -> Seq<char> {
    lowercase(trimmed(name))
}

/// Decides how the category of a request is found. An identifier goes before
/// a name; a name that is empty once trimmed is refused.
pub fn category_lookup(category_id: Option<&CategoryId>, category_name: Option<&str>) -> (r: Result<
    CategoryLookup,
    CategoryError,
>)
    ensures
        match r {
            Ok(CategoryLookup::Known(id)) => category_id is Some && id == *category_id->0,
            Ok(CategoryLookup::Nothing) => category_id is None && category_name is None,
            Ok(CategoryLookup::ByName(want)) => category_id is None && category_name is Some && want@
                == wanted_name(category_name->0@) && want@.len() > 0,
            Err(e) => e == CategoryError::EmptyName && category_id is None && category_name is Some
                && wanted_name(category_name->0@).len() == 0,
        },
{
    if let Some(id) = category_id {
        return Ok(CategoryLookup::Known(id.clone()));
    }
    match category_name {
        None => Ok(CategoryLookup::Nothing),
        Some(name) => {
            let trimmed_name = trim_text(name);
            let want = to_lowercase(trimmed_name.as_str());
            proof {
                reveal_strlit("");
            }
            if str_eq(want.as_str(), "") {
                assert(want@ =~= Seq::<char>::empty());
                Err(CategoryError::EmptyName)
            } else {
                assert(want@.len() > 0) by {
                    if want@.len() == 0 {
                        assert(want@ =~= ""@);
                    }
                }
                Ok(CategoryLookup::ByName(want))
            }
        },
    }
}

/// How many of the rows from position `i` on have a name that in lower
/// case is `want`.
pub open spec fn count_named(rows: Seq<(CategoryId, String)>, want: Seq<char>, i: int) -> nat
    decreases rows.len() - i,
{
    if 0 <= i < rows.len() {
        (if lowercase(rows[i].1@) == want {
            1nat
        } else {
            0nat
        }) + count_named(rows, want, i + 1)
    } else {
        0
    }
}

/// Chooses the category whose name in lower case is `want`. Exactly one
/// category must have it.
pub fn pick_category(rows: &Vec<(CategoryId, String)>, want: &str) -> (r: Result<CategoryId, CategoryError>)
    ensures
        match r {
            Ok(id) => count_named(rows@, want@, 0) == 1 && exists|k: int|
                0 <= k < rows.len() && lowercase((#[trigger] rows[k]).1@) == want@ && id == rows[k].0,
            Err(CategoryError::NoneNamed) => count_named(rows@, want@, 0) == 0,
            Err(CategoryError::Ambiguous(n)) => n >= 2 && count_named(rows@, want@, 0) == n,
            Err(CategoryError::EmptyName) => false,
        },
{
    let ghost total = count_named(rows@, want@, 0);
    let mut found: Option<usize> = None;
    let mut count: usize = 0;
    let mut i: usize = 0;
    while i < rows.len()
        invariant
            i <= rows.len(),
            count <= i,
            count + count_named(rows@, want@, i as int) == total,
            count == 0 <==> found is None,
            found matches Some(k) ==> k < i && lowercase(rows[k as int].1@) == want@,
        decreases rows.len() - i,
    {
        let lower = to_lowercase(rows[i].1.as_str());
        if str_eq(lower.as_str(), want) {
            if found.is_none() {
                found = Some(i);
            }
            count = count + 1;
        }
        i = i + 1;
    }
    match found {
        None => Err(CategoryError::NoneNamed),
        Some(k) => {
            if count == 1 {
                Ok(rows[k].0.clone())
            } else {
                Err(CategoryError::Ambiguous(count))
            }
        },
    }
}

} // verus!
