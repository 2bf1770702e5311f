//! The depth of a walk only serves to bound it: a depth of as many as there
//! are fragments that can still be opened gives the same draft as any
//! greater depth.

use crate::document::{
    all_fragments, definitions_fragments, fragment_map, Definition, Document, Selection, SelectionSet,
};
use crate::generate::in_order;
use crate::names::{ascending, lemma_listing_with};
use crate::text::lemma_lt_irreflexive;
use crate::schema_gen::{DraftModel, TypeExpr};
use crate::walker::{
    output_type, walk_items, walk_selection, walk_set, walk_union_items, walk_union_selection, with_arguments,
    FragmentIndex, FragmentMap,
};
use vstd::prelude::*;

verus! {

/// The fragments that can still be opened: those that are known and are not
/// being expanded.
pub open spec fn closed_fragments(frags: FragmentMap, open: Set<Seq<char>>) -> Set<Seq<char>> {
    frags.dom().difference(open)
}

/// Opening a fragment leaves one fragment less to open.
proof fn lemma_opening_takes_one(frags: FragmentMap, open: Set<Seq<char>>, name: Seq<char>)
    requires
        frags.dom().finite(),
        frags.dom().contains(name),
        !open.contains(name),
    ensures
        closed_fragments(frags, open).finite(),
        closed_fragments(frags, open).len() >= 1,
        closed_fragments(frags, open.insert(name)).len() == closed_fragments(frags, open).len() - 1,
{
    let before = closed_fragments(frags, open);
    assert(before.contains(name));
    assert(closed_fragments(frags, open.insert(name)) =~= before.remove(name));
}

/// Two depths that both cover the fragments that can still be opened give
/// the same walk of a selection set.
pub proof fn lemma_depth_is_enough(
    d: DraftModel,
    ty: Seq<char>,
    ss: SelectionSet,
    frags: FragmentMap,
    vars: Map<Seq<char>, TypeExpr>,
    open: Set<Seq<char>>,
    a: nat,
    b: nat,
)
    requires
        frags.dom().finite(),
        a >= closed_fragments(frags, open).len(),
        b >= closed_fragments(frags, open).len(),
    ensures
        walk_set(d, ty, ss, frags, vars, open, a) == walk_set(d, ty, ss, frags, vars, open, b),
    decreases closed_fragments(frags, open).len(), ss, 0nat,
{
    if d.unions.dom().contains(ty) {
        lemma_union_items_depth(d, ss.items, 0, frags, vars, open, a, b);
    } else {
        lemma_items_depth(d.ensure_object(ty), ty, ss.items, 0, frags, vars, open, a, b);
    }
}

proof fn lemma_items_depth(
    d: DraftModel,
    ty: Seq<char>,
    items: Vec<Selection>,
    i: int,
    frags: FragmentMap,
    vars: Map<Seq<char>, TypeExpr>,
    open: Set<Seq<char>>,
    a: nat,
    b: nat,
)
    requires
        frags.dom().finite(),
        a >= closed_fragments(frags, open).len(),
        b >= closed_fragments(frags, open).len(),
    ensures
        walk_items(d, ty, items, i, frags, vars, open, a) == walk_items(d, ty, items, i, frags, vars, open, b),
    decreases closed_fragments(frags, open).len(), items, items.len() - i,
{
    if 0 <= i < items.len() {
        lemma_selection_depth(d, ty, items[i], frags, vars, open, a, b);
        lemma_items_depth(
            walk_selection(d, ty, items[i], frags, vars, open, a),
            ty,
            items,
            i + 1,
            frags,
            vars,
            open,
            a,
            b,
        );
    }
}

proof fn lemma_selection_depth(
    d: DraftModel,
    ty: Seq<char>,
    s: Selection,
    frags: FragmentMap,
    vars: Map<Seq<char>, TypeExpr>,
    open: Set<Seq<char>>,
    a: nat,
    b: nat,
)
    requires
        frags.dom().finite(),
        a >= closed_fragments(frags, open).len(),
        b >= closed_fragments(frags, open).len(),
    ensures
        walk_selection(d, ty, s, frags, vars, open, a) == walk_selection(d, ty, s, frags, vars, open, b),
    decreases closed_fragments(frags, open).len(), s, 0nat,
{
    match s {
        Selection::Field(f) => {
            if f.name@ != "__typename"@ && f.selection_set.items.len() != 0 {
                let d1 = with_arguments(d, ty, f.name@, f.arguments@, 0, vars);
                let (d2, inferred) = output_type(d1, ty, f.name@, f.selection_set, frags);
                let d3 = d2.add_field(ty, f.name@, TypeExpr::Named(inferred));
                if d3.unions.dom().contains(inferred) {
                    lemma_union_items_depth(d3, f.selection_set.items, 0, frags, vars, open, a, b);
                } else {
                    lemma_depth_is_enough(d3, inferred, f.selection_set, frags, vars, open, a, b);
                }
            }
        },
        Selection::FragmentSpread(sp) => {
            let name = sp.fragment_name@;
            if frags.dom().contains(name) && !open.contains(name) {
                lemma_opening_takes_one(frags, open, name);
                let frag = frags[name];
                let inner = open.insert(name);
                lemma_depth_is_enough(
                    d,
                    ty,
                    frag.selection_set,
                    frags,
                    vars,
                    inner,
                    (a - 1) as nat,
                    (b - 1) as nat,
                );
                let d1 = walk_set(d, ty, frag.selection_set, frags, vars, inner, (a - 1) as nat);
                lemma_depth_is_enough(
                    d1.ensure_object(frag.type_condition@),
                    frag.type_condition@,
                    frag.selection_set,
                    frags,
                    vars,
                    inner,
                    (a - 1) as nat,
                    (b - 1) as nat,
                );
            }
        },
        Selection::InlineFragment(inl) => {
            let narrowed = match inl.type_condition {
                Some(tc) => tc@,
                None => ty,
            };
            lemma_depth_is_enough(d, narrowed, inl.selection_set, frags, vars, open, a, b);
        },
    }
}

proof fn lemma_union_items_depth(
    d: DraftModel,
    items: Vec<Selection>,
    i: int,
    frags: FragmentMap,
    vars: Map<Seq<char>, TypeExpr>,
    open: Set<Seq<char>>,
    a: nat,
    b: nat,
)
    requires
        frags.dom().finite(),
        a >= closed_fragments(frags, open).len(),
        b >= closed_fragments(frags, open).len(),
    ensures
        walk_union_items(d, items, i, frags, vars, open, a) == walk_union_items(d, items, i, frags, vars, open, b),
    decreases closed_fragments(frags, open).len(), items, items.len() - i,
{
    if 0 <= i < items.len() {
        lemma_union_selection_depth(d, items[i], frags, vars, open, a, b);
        lemma_union_items_depth(
            walk_union_selection(d, items[i], frags, vars, open, a),
            items,
            i + 1,
            frags,
            vars,
            open,
            a,
            b,
        );
    }
}

proof fn lemma_union_selection_depth(
    d: DraftModel,
    s: Selection,
    frags: FragmentMap,
    vars: Map<Seq<char>, TypeExpr>,
    open: Set<Seq<char>>,
    a: nat,
    b: nat,
)
    requires
        frags.dom().finite(),
        a >= closed_fragments(frags, open).len(),
        b >= closed_fragments(frags, open).len(),
    ensures
        walk_union_selection(d, s, frags, vars, open, a) == walk_union_selection(d, s, frags, vars, open, b),
    decreases closed_fragments(frags, open).len(), s, 0nat,
{
    match s {
        Selection::InlineFragment(inl) => match inl.type_condition {
            Some(tc) => {
                lemma_depth_is_enough(d.ensure_object(tc@), tc@, inl.selection_set, frags, vars, open, a, b);
            },
            None => {},
        },
        Selection::FragmentSpread(sp) => {
            let name = sp.fragment_name@;
            if frags.dom().contains(name) && !open.contains(name) {
                lemma_opening_takes_one(frags, open, name);
                let frag = frags[name];
                lemma_depth_is_enough(
                    d.ensure_object(frag.type_condition@),
                    frag.type_condition@,
                    frag.selection_set,
                    frags,
                    vars,
                    open.insert(name),
                    (a - 1) as nat,
                    (b - 1) as nat,
                );
            }
        },
        Selection::Field(_) => {},
    }
}

/// The depth that a run starts with, the number of fragments, is never the
/// reason why a fragment is passed over: every greater depth gives the same
/// walk.
pub proof fn lemma_depth_never_binds(
    d: DraftModel,
    ty: Seq<char>,
    ss: SelectionSet,
    frags: FragmentMap,
    vars: Map<Seq<char>, TypeExpr>,
    open: Set<Seq<char>>,
    more: nat,
)
    requires
        frags.dom().finite(),
    ensures
        walk_set(d, ty, ss, frags, vars, open, frags.dom().len()) == walk_set(
            d,
            ty,
            ss,
            frags,
            vars,
            open,
            frags.dom().len() + more,
        ),
{
    vstd::set_lib::lemma_len_subset(closed_fragments(frags, open), frags.dom());
    lemma_depth_is_enough(d, ty, ss, frags, vars, open, frags.dom().len(), frags.dom().len() + more);
}

/// An index in order has as many fragments as it has names, so the depth
/// that a run starts with is the number of its fragments.
pub proof fn lemma_index_size(index: FragmentIndex)
    requires
        index.wf(),
    ensures
        fragment_map(index).dom().finite(),
        fragment_map(index).dom().len() == index.names().len(),
{
    let names = index.names();
    assert(names.no_duplicates()) by {
        assert forall|i: int, j: int| 0 <= i < names.len() && 0 <= j < names.len() && i != j implies names[i]
            != names[j] by {
            lemma_lt_irreflexive(names[i]);
            if i < j {
                assert(crate::text::seq_lt(names[i], names[j]));
            } else {
                assert(crate::text::seq_lt(names[j], names[i]));
            }
        }
    }
    names.unique_seq_to_set();
    vstd::seq_lib::seq_to_set_is_finite(names);
    assert(fragment_map(index).dom() =~= names.to_set());
}

/// Whether the names of the fragments can be listed in ascending order.
pub open spec fn listed(frags: FragmentMap) -> bool {
    exists|l: Seq<Seq<char>>| ascending(l) && l.to_set() == frags.dom()
}

proof fn lemma_definitions_listed(m: FragmentMap, defs: Seq<Definition>)
    requires
        listed(m),
    ensures
        listed(definitions_fragments(m, defs)),
    decreases defs.len(),
{
    if defs.len() > 0 {
        lemma_definitions_listed(m, defs.drop_last());
        let before = definitions_fragments(m, defs.drop_last());
        if let Definition::Fragment(f) = defs.last() {
            let l = choose|l: Seq<Seq<char>>| ascending(l) && l.to_set() == before.dom();
            let next = lemma_listing_with(l, f.name@);
            assert(next.to_set() =~= before.insert(f.name@, f).dom());
        }
    }
}

/// The fragments of every list of documents can be listed in ascending
/// order of their names, and the listing has as many names as there are
/// fragments: the order in which a run walks the fragments is well defined,
/// and the depth it starts with is the number of fragments.
pub proof fn lemma_fragments_listed(docs: Seq<Document>)
    ensures
        ascending(in_order(all_fragments(docs).dom())),
        in_order(all_fragments(docs).dom()).to_set() == all_fragments(docs).dom(),
        all_fragments(docs).dom().finite(),
        all_fragments(docs).dom().len() == in_order(all_fragments(docs).dom()).len(),
    decreases docs.len(),
{
    lemma_all_listed(docs);
    let names = in_order(all_fragments(docs).dom());
    assert(names.no_duplicates()) by {
        assert forall|i: int, j: int| 0 <= i < names.len() && 0 <= j < names.len() && i != j implies names[i]
            != names[j] by {
            lemma_lt_irreflexive(names[i]);
            if i < j {
                assert(crate::text::seq_lt(names[i], names[j]));
            } else {
                assert(crate::text::seq_lt(names[j], names[i]));
            }
        }
    }
    names.unique_seq_to_set();
    vstd::seq_lib::seq_to_set_is_finite(names);
}

proof fn lemma_all_listed(docs: Seq<Document>)
    ensures
        listed(all_fragments(docs)),
    decreases docs.len(),
{
    if docs.len() == 0 {
        let none = Seq::<Seq<char>>::empty();
        assert(none.to_set() =~= all_fragments(docs).dom());
        assert(ascending(none));
    } else {
        lemma_all_listed(docs.drop_last());
        lemma_definitions_listed(all_fragments(docs.drop_last()), docs.last().definitions@);
    }
}

} // verus!
