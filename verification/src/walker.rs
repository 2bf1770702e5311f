//! The walk over selection sets that fills the schema draft.

use crate::document::{fragment_map, Argument, FragmentDefinition, Selection, SelectionSet};
use crate::infer::{argument_type, infer_argument_type, infer_leaf_scalar, leaf_scalar, pascal, pascal_case};
use crate::names::{lemma_listing_size, NameMap, NameSet};
use crate::schema_gen::{args_model, DraftModel, SchemaDraft, TypeExpr, TypeRef};
use crate::text::str_eq;
use vstd::prelude::*;
use vstd::string::StringExecFns;

verus! {

/// The fragments by name, as the walk looks them up.
pub type FragmentIndex<'a> = NameMap<&'a FragmentDefinition>;

/// The fragments by name as a map.
pub type FragmentMap = Map<Seq<char>, FragmentDefinition>;

/// The type conditions of the inline fragments that stand directly in `items`.
pub open spec fn inline_conditions(items: Seq<Selection>) -> Set<Seq<char>> {
    Set::new(
        |n: Seq<char>|
            exists|i: int|
                0 <= i < items.len() && (#[trigger] items[i] matches Selection::InlineFragment(inl)
                    && inl.type_condition matches Some(tc) && tc@ == n),
    )
}

/// The type conditions of the known fragments that are spread directly in
/// `items`.
pub open spec fn spread_conditions(items: Seq<Selection>, frags: FragmentMap) -> Set<Seq<char>> {
    Set::new(
        |n: Seq<char>|
            exists|i: int|
                0 <= i < items.len() && (#[trigger] items[i] matches Selection::FragmentSpread(sp)
                    && frags.dom().contains(sp.fragment_name@) && frags[sp.fragment_name@].type_condition@
                    == n),
    )
}

/// The name of the union under `field` of `parent`.
pub open spec fn union_name(parent: Seq<char>, field: Seq<char>) -> Seq<char> {
    parent + pascal(field) + "Union"@
}

/// The name of the anonymous object type under `field` of `parent`.
pub open spec fn object_name(parent: Seq<char>, field: Seq<char>) -> Seq<char> {
    parent + pascal(field)
}

/// The type name of a field with a selection set, and the draft after the
/// naming. Inline fragments make a union; failing them, fragment spreads
/// that agree on one type give that type; else the name is made of the
/// parent's name and the field's.
pub open spec fn output_type(
    d: DraftModel,
    parent: Seq<char>,
    field: Seq<char>,
    ss: SelectionSet,
    frags: FragmentMap,
) -> (DraftModel, Seq<char>) {
    let inline = inline_conditions(ss.items@);
    let spread = spread_conditions(ss.items@, frags);
    if exists|n: Seq<char>| inline.contains(n) {
        (d.with_union(union_name(parent, field), inline), union_name(parent, field))
    } else if exists|n: Seq<char>| spread == set![n] {
        (d, choose|n: Seq<char>| spread == set![n])
    } else {
        (d, object_name(parent, field))
    }
}

/// The draft after the arguments from position `i` on were registered for
/// `field` of `ty`. An argument whose type is not known is passed over.
pub open spec fn with_arguments(
    d: DraftModel,
    ty: Seq<char>,
    field: Seq<char>,
    args: Seq<Argument>,
    i: int,
    vars: Map<Seq<char>, TypeExpr>,
) -> DraftModel
    decreases args.len() - i,
{
    if 0 <= i < args.len() {
        let next = match argument_type(args[i].value, vars) {
            Some(t) => d.add_field_arg(ty, field, args[i].name@, t),
            None => d,
        };
        with_arguments(next, ty, field, args, i + 1, vars)
    } else {
        d
    }
}

/// The draft after a selection set was walked in the context of type `ty`.
///
/// `open` holds the fragments that are being expanded, which are not entered
/// again, and `depth` says how many fragments may still be opened inside one
/// another.
pub open spec fn walk_set(
    d: DraftModel,
    ty: Seq<char>,
    ss: SelectionSet,
    frags: FragmentMap,
    vars: Map<Seq<char>, TypeExpr>,
    open: Set<Seq<char>>,
    depth: nat,
) -> DraftModel
    decreases depth, ss, 0nat,
{
    if d.unions.dom().contains(ty) {
        walk_union_items(d, ss.items, 0, frags, vars, open, depth)
    } else {
        walk_items(d.ensure_object(ty), ty, ss.items, 0, frags, vars, open, depth)
    }
}

/// The draft after the selections from position `i` on were walked in the
/// context of the object type `ty`.
pub open spec fn walk_items(
    d: DraftModel,
    ty: Seq<char>,
    items: Vec<Selection>,
    i: int,
    frags: FragmentMap,
    vars: Map<Seq<char>, TypeExpr>,
    open: Set<Seq<char>>,
    depth: nat,
) -> DraftModel
    decreases depth, items, items.len() - i,
{
    if 0 <= i < items.len() {
        walk_items(
            walk_selection(d, ty, items[i], frags, vars, open, depth),
            ty,
            items,
            i + 1,
            frags,
            vars,
            open,
            depth,
        )
    } else {
        d
    }
}

/// The draft after one selection was walked in the context of the object
/// type `ty`.
pub open spec fn walk_selection(
    d: DraftModel,
    ty: Seq<char>,
    s: Selection,
    frags: FragmentMap,
    vars: Map<Seq<char>, TypeExpr>,
    open: Set<Seq<char>>,
    depth: nat,
) -> DraftModel
    decreases depth, s, 0nat,
{
    match s {
        Selection::Field(f) => {
            if f.name@ == "__typename"@ {
                d
            } else {
                let d1 = with_arguments(d, ty, f.name@, f.arguments@, 0, vars);
                if f.selection_set.items.len() == 0 {
                    d1.add_field(ty, f.name@, leaf_scalar(f.name@))
                } else {
                    let (d2, inferred) = output_type(d1, ty, f.name@, f.selection_set, frags);
                    let d3 = d2.add_field(ty, f.name@, TypeExpr::Named(inferred));
                    if d3.unions.dom().contains(inferred) {
                        walk_union_items(d3, f.selection_set.items, 0, frags, vars, open, depth)
                    } else {
                        walk_set(d3, inferred, f.selection_set, frags, vars, open, depth)
                    }
                }
            }
        },
        Selection::FragmentSpread(sp) => {
            if frags.dom().contains(sp.fragment_name@) && !open.contains(sp.fragment_name@) && depth > 0 {
                let frag = frags[sp.fragment_name@];
                let inner = open.insert(sp.fragment_name@);
                let d1 = walk_set(d, ty, frag.selection_set, frags, vars, inner, (depth - 1) as nat);
                walk_set(
                    d1.ensure_object(frag.type_condition@),
                    frag.type_condition@,
                    frag.selection_set,
                    frags,
                    vars,
                    inner,
                    (depth - 1) as nat,
                )
            } else {
                d
            }
        },
        Selection::InlineFragment(inl) => {
            let narrowed = match inl.type_condition {
                Some(tc) => tc@,
                None => ty,
            };
            walk_set(d, narrowed, inl.selection_set, frags, vars, open, depth)
        },
    }
}

/// The draft after the selections from position `i` on were walked in the
/// context of a union.
pub open spec fn walk_union_items(
    d: DraftModel,
    items: Vec<Selection>,
    i: int,
    frags: FragmentMap,
    vars: Map<Seq<char>, TypeExpr>,
    open: Set<Seq<char>>,
    depth: nat,
) -> DraftModel
    decreases depth, items, items.len() - i,
{
    if 0 <= i < items.len() {
        walk_union_items(
            walk_union_selection(d, items[i], frags, vars, open, depth),
            items,
            i + 1,
            frags,
            vars,
            open,
            depth,
        )
    } else {
        d
    }
}

/// The draft after one selection was walked in the context of a union: an
/// inline fragment and a fragment spread go to the type they name, a field
/// is passed over.
pub open spec fn walk_union_selection(
    d: DraftModel,
    s: Selection,
    frags: FragmentMap,
    vars: Map<Seq<char>, TypeExpr>,
    open: Set<Seq<char>>,
    depth: nat,
) -> DraftModel
    decreases depth, s, 0nat,
{
    match s {
        Selection::InlineFragment(inl) => match inl.type_condition {
            Some(tc) => walk_set(d.ensure_object(tc@), tc@, inl.selection_set, frags, vars, open, depth),
            None => d,
        },
        Selection::FragmentSpread(sp) => {
            if frags.dom().contains(sp.fragment_name@) && !open.contains(sp.fragment_name@) && depth > 0 {
                let frag = frags[sp.fragment_name@];
                walk_set(
                    d.ensure_object(frag.type_condition@),
                    frag.type_condition@,
                    frag.selection_set,
                    frags,
                    vars,
                    open.insert(sp.fragment_name@),
                    (depth - 1) as nat,
                )
            } else {
                d
            }
        },
        Selection::Field(_) => d,
    }
}

/// The inline conditions of a list one selection longer.
proof fn lemma_inline_step(items: Seq<Selection>, i: int)
    requires
        0 <= i < items.len(),
    ensures
        inline_conditions(items.subrange(0, i + 1)) == (match items[i] {
            Selection::InlineFragment(inl) => match inl.type_condition {
                Some(tc) => inline_conditions(items.subrange(0, i)).insert(tc@),
                None => inline_conditions(items.subrange(0, i)),
            },
            _ => inline_conditions(items.subrange(0, i)),
        }),
{
    let done = items.subrange(0, i);
    let next = items.subrange(0, i + 1);
    let goal = match items[i] {
        Selection::InlineFragment(inl) => match inl.type_condition {
            Some(tc) => inline_conditions(done).insert(tc@),
            None => inline_conditions(done),
        },
        _ => inline_conditions(done),
    };
    assert forall|n: Seq<char>| inline_conditions(next).contains(n) <==> goal.contains(n) by {
        if inline_conditions(next).contains(n) {
            let k = choose|k: int|
                0 <= k < next.len() && (#[trigger] next[k] matches Selection::InlineFragment(inl)
                    && inl.type_condition matches Some(tc) && tc@ == n);
            if k < i {
                assert(done[k] == next[k]);
            }
        }
        if inline_conditions(done).contains(n) {
            let k = choose|k: int|
                0 <= k < done.len() && (#[trigger] done[k] matches Selection::InlineFragment(inl)
                    && inl.type_condition matches Some(tc) && tc@ == n);
            assert(next[k] == done[k]);
        }
        if goal.contains(n) && !inline_conditions(done).contains(n) {
            assert(next[i] == items[i]);
        }
    }
    assert(inline_conditions(next) =~= goal);
}

/// The spread conditions of a list one selection longer.
proof fn lemma_spread_step(items: Seq<Selection>, i: int, frags: FragmentMap)
    requires
        0 <= i < items.len(),
    ensures
        spread_conditions(items.subrange(0, i + 1), frags) == (match items[i] {
            Selection::FragmentSpread(sp) => if frags.dom().contains(sp.fragment_name@) {
                spread_conditions(items.subrange(0, i), frags).insert(
                    frags[sp.fragment_name@].type_condition@,
                )
            } else {
                spread_conditions(items.subrange(0, i), frags)
            },
            _ => spread_conditions(items.subrange(0, i), frags),
        }),
{
    let done = items.subrange(0, i);
    let next = items.subrange(0, i + 1);
    let goal = match items[i] {
        Selection::FragmentSpread(sp) => if frags.dom().contains(sp.fragment_name@) {
            spread_conditions(done, frags).insert(frags[sp.fragment_name@].type_condition@)
        } else {
            spread_conditions(done, frags)
        },
        _ => spread_conditions(done, frags),
    };
    assert forall|n: Seq<char>| spread_conditions(next, frags).contains(n) <==> goal.contains(n) by {
        if spread_conditions(next, frags).contains(n) {
            let k = choose|k: int|
                0 <= k < next.len() && (#[trigger] next[k] matches Selection::FragmentSpread(sp)
                    && frags.dom().contains(sp.fragment_name@) && frags[sp.fragment_name@].type_condition@
                    == n);
            if k < i {
                assert(done[k] == next[k]);
            }
        }
        if spread_conditions(done, frags).contains(n) {
            let k = choose|k: int|
                0 <= k < done.len() && (#[trigger] done[k] matches Selection::FragmentSpread(sp)
                    && frags.dom().contains(sp.fragment_name@) && frags[sp.fragment_name@].type_condition@
                    == n);
            assert(next[k] == done[k]);
        }
        if goal.contains(n) && !spread_conditions(done, frags).contains(n) {
            assert(next[i] == items[i]);
        }
    }
    assert(spread_conditions(next, frags) =~= goal);
}

/// Names the type of a field that has a selection set, and registers the
/// union and its members where inline fragments make one.
pub fn infer_output_type_for_field(
    draft: &mut SchemaDraft,
    parent: &str,
    field_name: &str,
    selection_set: &SelectionSet,
    fragments: &FragmentIndex,
) -> (r: String)
    requires
        old(draft).wf(),
        fragments.wf(),
    ensures
        final(draft).wf(),
        (final(draft)@, r@) == output_type(old(draft)@, parent@, field_name@, *selection_set, fragment_map(*fragments)),
{
    let items = &selection_set.items;
    let mut fragment_type_conditions = NameSet::new();
    let mut inline_type_conditions = NameSet::new();
    assert(inline_type_conditions@ =~= inline_conditions(items@.subrange(0, 0)));
    assert(fragment_type_conditions@ =~= spread_conditions(items@.subrange(0, 0), fragment_map(*fragments)));
    let mut i: usize = 0;
    while i < items.len()
        invariant
            i <= items.len(),
            fragments.wf(),
            fragment_type_conditions.wf(),
            inline_type_conditions.wf(),
            inline_type_conditions@ == inline_conditions(items@.subrange(0, i as int)),
            fragment_type_conditions@ == spread_conditions(items@.subrange(0, i as int), fragment_map(*fragments)),
        decreases items.len() - i,
    {
        proof {
            lemma_inline_step(items@, i as int);
            lemma_spread_step(items@, i as int, fragment_map(*fragments));
        }
        match &items[i] {
            Selection::FragmentSpread(spread) => {
                if let Some(pos) = fragments.find(spread.fragment_name.as_str()) {
                    let frag = *fragments.value(pos);
                    fragment_type_conditions.insert(frag.type_condition.as_str());
                }
            },
            Selection::InlineFragment(inline) => {
                if let Some(tc) = &inline.type_condition {
                    inline_type_conditions.insert(tc.as_str());
                }
            },
            Selection::Field(_) => {},
        }
        i = i + 1;
    }
    proof {
        assert(items@.subrange(0, items.len() as int) =~= items@);
        lemma_listing_size(inline_type_conditions.listing());
        lemma_listing_size(fragment_type_conditions.listing());
    }
    let pascal = pascal_case(field_name);
    if !inline_type_conditions.is_empty() {
        let mut union_name = parent.to_owned();
        union_name.append(pascal.as_str());
        union_name.append("Union");
        draft.add_union(union_name.as_str(), &inline_type_conditions);
        return union_name;
    }
    if fragment_type_conditions.len() == 1 {
        let only = fragment_type_conditions.name(0);
        proof {
            let chosen = choose|n: Seq<char>| fragment_type_conditions@ == set![n];
            assert(set![chosen].contains(only@));
        }
        return only.to_owned();
    }
    let mut name = parent.to_owned();
    name.append(pascal.as_str());
    name
}

/// Registers the arguments of a field whose types can be told.
pub fn register_arguments(
    draft: &mut SchemaDraft,
    current_type: &str,
    field_name: &str,
    arguments: &Vec<Argument>,
    var_types: &NameMap<TypeRef>,
)
    requires
        old(draft).wf(),
        var_types.wf(),
    ensures
        final(draft).wf(),
        final(draft)@ == with_arguments(
            old(draft)@,
            current_type@,
            field_name@,
            arguments@,
            0,
            args_model(*var_types),
        ),
{
    let ghost vars = args_model(*var_types);
    let ghost goal = with_arguments(draft@, current_type@, field_name@, arguments@, 0, vars);
    let mut i: usize = 0;
    while i < arguments.len()
        invariant
            i <= arguments.len(),
            draft.wf(),
            var_types.wf(),
            vars == args_model(*var_types),
            with_arguments(draft@, current_type@, field_name@, arguments@, i as int, vars) == goal,
        decreases arguments.len() - i,
    {
        let arg = &arguments[i];
        if let Some(arg_ty) = infer_argument_type(&arg.value, var_types) {
            draft.add_field_arg(current_type, field_name, arg.name.as_str(), arg_ty);
        }
        i = i + 1;
    }
}

/// Walks a selection set in the context of `current_type` and registers what
/// it implies in the draft.
///
/// `open` holds the names of the fragments that are being expanded: a spread
/// of one of them is passed over, so a fragment that uses itself does not
/// send the walk round for ever. `depth` bounds how many fragments are opened
/// inside one another; the number of fragments is enough for every walk.
pub fn process_selection_set(
    draft: &mut SchemaDraft,
    current_type: &str,
    selection_set: &SelectionSet,
    fragments: &FragmentIndex,
    var_types: &NameMap<TypeRef>,
    open: &NameSet,
    depth: usize,
)
    requires
        old(draft).wf(),
        fragments.wf(),
        var_types.wf(),
        open.wf(),
    ensures
        final(draft).wf(),
        final(draft)@ == walk_set(
            old(draft)@,
            current_type@,
            *selection_set,
            fragment_map(*fragments),
            args_model(*var_types),
            open@,
            depth as nat,
        ),
    decreases depth, selection_set, 1nat,
{
    if draft.unions.find(current_type).is_some() {
        process_union_selection_set(draft, selection_set, fragments, var_types, open, depth);
        return ;
    }
    draft.ensure_object(current_type);

    let ghost vars = args_model(*var_types);
    let ghost goal = walk_items(
        draft@,
        current_type@,
        selection_set.items,
        0,
        fragment_map(*fragments),
        vars,
        open@,
        depth as nat,
    );
    let items = &selection_set.items;
    let mut i: usize = 0;
    while i < items.len()
        invariant
            i <= items.len(),
            items == &selection_set.items,
            draft.wf(),
            fragments.wf(),
            var_types.wf(),
            open.wf(),
            vars == args_model(*var_types),
            walk_items(draft@, current_type@, *items, i as int, fragment_map(*fragments), vars, open@, depth as nat)
                == goal,
        decreases items.len() - i,
    {
        let ghost before = draft@;
        let ghost step = walk_selection(
            before,
            current_type@,
            items[i as int],
            fragment_map(*fragments),
            vars,
            open@,
            depth as nat,
        );
        match &items[i] {
            Selection::Field(field) => {
                if !str_eq(field.name.as_str(), "__typename") {
                    register_arguments(
                        draft,
                        current_type,
                        field.name.as_str(),
                        &field.arguments,
                        var_types,
                    );
                    if field.selection_set.items.len() == 0 {
                        let ty = infer_leaf_scalar(field.name.as_str());
                        draft.add_field(current_type, field.name.as_str(), ty);
                        assert(draft@ == step);
                    } else {
                        let inferred = infer_output_type_for_field(
                            draft,
                            current_type,
                            field.name.as_str(),
                            &field.selection_set,
                            fragments,
                        );
                        draft.add_field(
                            current_type,
                            field.name.as_str(),
                            TypeRef::named(inferred.as_str()),
                        );
                        if draft.unions.find(inferred.as_str()).is_some() {
                            process_union_selection_set(
                                draft,
                                &field.selection_set,
                                fragments,
                                var_types,
                                open,
                                depth,
                            );
                        } else {
                            process_selection_set(
                                draft,
                                inferred.as_str(),
                                &field.selection_set,
                                fragments,
                                var_types,
                                open,
                                depth,
                            );
                        }
                        assert(draft@ == step);
                    }
                }
                assert(draft@ == step);
            },
            Selection::FragmentSpread(spread) => {
                if let Some(pos) = fragments.find(spread.fragment_name.as_str()) {
                    if depth > 0 && !open.contains(spread.fragment_name.as_str()) {
                        let frag = *fragments.value(pos);
                        let mut inner = open.duplicate();
                        inner.insert(spread.fragment_name.as_str());
                        process_selection_set(
                            draft,
                            current_type,
                            &frag.selection_set,
                            fragments,
                            var_types,
                            &inner,
                            depth - 1,
                        );
                        draft.ensure_object(frag.type_condition.as_str());
                        process_selection_set(
                            draft,
                            frag.type_condition.as_str(),
                            &frag.selection_set,
                            fragments,
                            var_types,
                            &inner,
                            depth - 1,
                        );
                    }
                }
                assert(draft@ == step);
            },
            Selection::InlineFragment(inline) => {
                match &inline.type_condition {
                    Some(tc) => {
                        process_selection_set(
                            draft,
                            tc.as_str(),
                            &inline.selection_set,
                            fragments,
                            var_types,
                            open,
                            depth,
                        );
                    },
                    None => {
                        process_selection_set(
                            draft,
                            current_type,
                            &inline.selection_set,
                            fragments,
                            var_types,
                            open,
                            depth,
                        );
                    },
                }
                assert(draft@ == step);
            },
        }
        i = i + 1;
    }
}

/// Walks a selection set in the context of a union: only inline fragments
/// and fragment spreads contribute, each to the type it names.
pub fn process_union_selection_set(
    draft: &mut SchemaDraft,
    selection_set: &SelectionSet,
    fragments: &FragmentIndex,
    var_types: &NameMap<TypeRef>,
    open: &NameSet,
    depth: usize,
)
    requires
        old(draft).wf(),
        fragments.wf(),
        var_types.wf(),
        open.wf(),
    ensures
        final(draft).wf(),
        final(draft)@ == walk_union_items(
            old(draft)@,
            selection_set.items,
            0,
            fragment_map(*fragments),
            args_model(*var_types),
            open@,
            depth as nat,
        ),
    decreases depth, selection_set, 0nat,
{
    let ghost vars = args_model(*var_types);
    let ghost goal = walk_union_items(
        draft@,
        selection_set.items,
        0,
        fragment_map(*fragments),
        vars,
        open@,
        depth as nat,
    );
    let items = &selection_set.items;
    let mut i: usize = 0;
    while i < items.len()
        invariant
            i <= items.len(),
            items == &selection_set.items,
            draft.wf(),
            fragments.wf(),
            var_types.wf(),
            open.wf(),
            vars == args_model(*var_types),
            walk_union_items(draft@, *items, i as int, fragment_map(*fragments), vars, open@, depth as nat) == goal,
        decreases items.len() - i,
    {
        let ghost before = draft@;
        let ghost step = walk_union_selection(
            before,
            items[i as int],
            fragment_map(*fragments),
            vars,
            open@,
            depth as nat,
        );
        match &items[i] {
            Selection::InlineFragment(inline) => {
                if let Some(tc) = &inline.type_condition {
                    draft.ensure_object(tc.as_str());
                    process_selection_set(
                        draft,
                        tc.as_str(),
                        &inline.selection_set,
                        fragments,
                        var_types,
                        open,
                        depth,
                    );
                }
                assert(draft@ == step);
            },
            Selection::FragmentSpread(spread) => {
                if let Some(pos) = fragments.find(spread.fragment_name.as_str()) {
                    if depth > 0 && !open.contains(spread.fragment_name.as_str()) {
                        let frag = *fragments.value(pos);
                        let mut inner = open.duplicate();
                        inner.insert(spread.fragment_name.as_str());
                        draft.ensure_object(frag.type_condition.as_str());
                        process_selection_set(
                            draft,
                            frag.type_condition.as_str(),
                            &frag.selection_set,
                            fragments,
                            var_types,
                            &inner,
                            depth - 1,
                        );
                    }
                }
                assert(draft@ == step);
            },
            Selection::Field(_) => {},
        }
        i = i + 1;
    }
}

} // verus!
