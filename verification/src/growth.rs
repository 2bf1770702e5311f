//! The draft only grows: what a walk has registered stays registered, and a
//! type that has widened to the opaque scalar stays there.

use crate::document::{Argument, Definition, Document, Selection, SelectionSet, VariableDefinition};
use crate::generate::{
    initial_model, walk_all, walk_definitions, walk_documents, walk_fragments, walk_operation, with_inputs,
};
use crate::schema_gen::{json_type, DraftModel, FieldModel, TypeExpr};
use crate::walker::{
    output_type, walk_items, walk_selection, walk_set, walk_union_items, walk_union_selection,
    with_arguments, FragmentMap,
};
use vstd::prelude::*;

verus! {

/// A field as it may be after more observations: its type is still the
/// opaque scalar where it was, it has every argument it had, and each of
/// them is still the opaque scalar where it was.
pub open spec fn field_grows(a: FieldModel, b: FieldModel) -> bool {
    &&& a.ty == json_type() ==> b.ty == json_type()
    &&& forall|arg: Seq<char>| #[trigger]
        a.args.dom().contains(arg) ==> b.args.dom().contains(arg) && (a.args[arg] == json_type()
            ==> b.args[arg] == json_type())
}

/// A draft as it may be after more observations: nothing that `a` holds is
/// missing in `b`, and nothing that had widened has narrowed.
pub open spec fn grows(a: DraftModel, b: DraftModel) -> bool {
    &&& forall|t: Seq<char>| #[trigger] a.objects.dom().contains(t) ==> b.objects.dom().contains(t)
    &&& forall|t: Seq<char>, f: Seq<char>|
        a.objects.dom().contains(t) && #[trigger] a.objects[t].dom().contains(f)
            ==> b.objects[t].dom().contains(f) && field_grows(a.objects[t][f], b.objects[t][f])
    &&& forall|n: Seq<char>| #[trigger] a.inputs.contains(n) ==> b.inputs.contains(n)
    &&& forall|n: Seq<char>| #[trigger] a.scalars.contains(n) ==> b.scalars.contains(n)
    &&& forall|u: Seq<char>| #[trigger] a.unions.dom().contains(u) ==> b.unions.dom().contains(u)
    &&& forall|u: Seq<char>, m: Seq<char>|
        a.unions.dom().contains(u) && #[trigger] a.unions[u].contains(m) ==> b.unions[u].contains(m)
}

/// A draft grows to itself.
pub proof fn lemma_grows_reflexive(a: DraftModel)
    ensures
        grows(a, a),
{
}

/// Growth goes on through growth.
pub proof fn lemma_grows_transitive(a: DraftModel, b: DraftModel, c: DraftModel)
    requires
        grows(a, b),
        grows(b, c),
    ensures
        grows(a, c),
{
    assert forall|t: Seq<char>, f: Seq<char>|
        a.objects.dom().contains(t) && #[trigger] a.objects[t].dom().contains(f) implies c.objects[t].dom().contains(
        f,
    ) && field_grows(a.objects[t][f], c.objects[t][f]) by {
        assert(b.objects.dom().contains(t));
        assert(b.objects[t].dom().contains(f));
        assert(field_grows(a.objects[t][f], b.objects[t][f]));
        assert(field_grows(b.objects[t][f], c.objects[t][f]));
        assert forall|arg: Seq<char>| #[trigger] a.objects[t][f].args.dom().contains(arg) implies c.objects[t][f].args.dom().contains(
            arg,
        ) && (a.objects[t][f].args[arg] == json_type() ==> c.objects[t][f].args[arg] == json_type()) by {
            assert(b.objects[t][f].args.dom().contains(arg));
        }
    }
    assert forall|u: Seq<char>, m: Seq<char>|
        a.unions.dom().contains(u) && #[trigger] a.unions[u].contains(m) implies c.unions[u].contains(
        m,
    ) by {
        assert(b.unions.dom().contains(u));
        assert(b.unions[u].contains(m));
    }
}

/// Making sure of an object type only adds to the draft, and the type is there after it.
pub proof fn lemma_ensure_object_grows(d: DraftModel, name: Seq<char>)
    ensures
        grows(d, d.ensure_object(name)),
        d.ensure_object(name).objects.dom().contains(name),
{
}

/// Observing a field only adds to the draft, and the field is there after it.
pub proof fn lemma_add_field_grows(d: DraftModel, object: Seq<char>, field: Seq<char>, ty: TypeExpr)
    ensures
        grows(d, d.add_field(object, field, ty)),
        d.add_field(object, field, ty).objects.dom().contains(object),
        d.add_field(object, field, ty).objects[object].dom().contains(field),
{
}

/// Observing an argument only adds to the draft.
pub proof fn lemma_add_field_arg_grows(
    d: DraftModel,
    object: Seq<char>,
    field: Seq<char>,
    arg: Seq<char>,
    ty: TypeExpr,
)
    ensures
        grows(d, d.add_field_arg(object, field, arg, ty)),
{
}

/// Registering a union only adds to the draft.
pub proof fn lemma_with_union_grows(d: DraftModel, name: Seq<char>, members: Set<Seq<char>>)
    ensures
        grows(d, d.with_union(name, members)),
{
}

/// Registering the arguments of a field only adds to the draft.
pub proof fn lemma_with_arguments_grows(
    d: DraftModel,
    ty: Seq<char>,
    field: Seq<char>,
    args: Seq<Argument>,
    i: int,
    vars: Map<Seq<char>, TypeExpr>,
)
    ensures
        grows(d, with_arguments(d, ty, field, args, i, vars)),
    decreases args.len() - i,
{
    if 0 <= i < args.len() {
        let next = match crate::infer::argument_type(args[i].value, vars) {
            Some(t) => d.add_field_arg(ty, field, args[i].name@, t),
            None => d,
        };
        match crate::infer::argument_type(args[i].value, vars) {
            Some(t) => lemma_add_field_arg_grows(d, ty, field, args[i].name@, t),
            None => {},
        }
        lemma_with_arguments_grows(next, ty, field, args, i + 1, vars);
        lemma_grows_transitive(d, next, with_arguments(d, ty, field, args, i, vars));
    }
}

/// Naming the type of a field only adds to the draft.
pub proof fn lemma_output_type_grows(
    d: DraftModel,
    parent: Seq<char>,
    field: Seq<char>,
    ss: SelectionSet,
    frags: FragmentMap,
)
    ensures
        grows(d, output_type(d, parent, field, ss, frags).0),
{
    let inline = crate::walker::inline_conditions(ss.items@);
    lemma_with_union_grows(d, crate::walker::union_name(parent, field), inline);
}

/// A walk of a selection set only adds to the draft.
pub proof fn lemma_walk_set_grows(
    d: DraftModel,
    ty: Seq<char>,
    ss: SelectionSet,
    frags: FragmentMap,
    vars: Map<Seq<char>, TypeExpr>,
    open: Set<Seq<char>>,
    depth: nat,
)
    ensures
        grows(d, walk_set(d, ty, ss, frags, vars, open, depth)),
    decreases depth, ss, 0nat,
{
    if d.unions.dom().contains(ty) {
        lemma_walk_union_items_grows(d, ss.items, 0, frags, vars, open, depth);
    } else {
        lemma_ensure_object_grows(d, ty);
        lemma_walk_items_grows(d.ensure_object(ty), ty, ss.items, 0, frags, vars, open, depth);
        lemma_grows_transitive(d, d.ensure_object(ty), walk_set(d, ty, ss, frags, vars, open, depth));
    }
}

/// A walk of selections in the context of an object type only adds to the draft.
pub proof fn lemma_walk_items_grows(
    d: DraftModel,
    ty: Seq<char>,
    items: Vec<Selection>,
    i: int,
    frags: FragmentMap,
    vars: Map<Seq<char>, TypeExpr>,
    open: Set<Seq<char>>,
    depth: nat,
)
    ensures
        grows(d, walk_items(d, ty, items, i, frags, vars, open, depth)),
    decreases depth, items, items.len() - i,
{
    if 0 <= i < items.len() {
        let next = walk_selection(d, ty, items[i], frags, vars, open, depth);
        lemma_walk_selection_grows(d, ty, items[i], frags, vars, open, depth);
        lemma_walk_items_grows(next, ty, items, i + 1, frags, vars, open, depth);
        lemma_grows_transitive(d, next, walk_items(d, ty, items, i, frags, vars, open, depth));
    }
}

/// A walk of one selection in the context of an object type only adds to the draft.
pub proof fn lemma_walk_selection_grows(
    d: DraftModel,
    ty: Seq<char>,
    s: Selection,
    frags: FragmentMap,
    vars: Map<Seq<char>, TypeExpr>,
    open: Set<Seq<char>>,
    depth: nat,
)
    ensures
        grows(d, walk_selection(d, ty, s, frags, vars, open, depth)),
    decreases depth, s, 0nat,
{
    let end = walk_selection(d, ty, s, frags, vars, open, depth);
    match s {
        Selection::Field(f) => {
            if f.name@ != "__typename"@ {
                let d1 = with_arguments(d, ty, f.name@, f.arguments@, 0, vars);
                lemma_with_arguments_grows(d, ty, f.name@, f.arguments@, 0, vars);
                if f.selection_set.items.len() == 0 {
                    lemma_add_field_grows(d1, ty, f.name@, crate::infer::leaf_scalar(f.name@));
                    lemma_grows_transitive(d, d1, end);
                } else {
                    let (d2, inferred) = output_type(d1, ty, f.name@, f.selection_set, frags);
                    lemma_output_type_grows(d1, ty, f.name@, f.selection_set, frags);
                    let d3 = d2.add_field(ty, f.name@, TypeExpr::Named(inferred));
                    lemma_add_field_grows(d2, ty, f.name@, TypeExpr::Named(inferred));
                    if d3.unions.dom().contains(inferred) {
                        lemma_walk_union_items_grows(d3, f.selection_set.items, 0, frags, vars, open, depth);
                    } else {
                        lemma_walk_set_grows(d3, inferred, f.selection_set, frags, vars, open, depth);
                    }
                    lemma_grows_transitive(d, d1, d2);
                    lemma_grows_transitive(d, d2, d3);
                    lemma_grows_transitive(d, d3, end);
                }
            }
        },
        Selection::FragmentSpread(sp) => {
            if frags.dom().contains(sp.fragment_name@) && !open.contains(sp.fragment_name@) && depth > 0 {
                let frag = frags[sp.fragment_name@];
                let inner = open.insert(sp.fragment_name@);
                let d1 = walk_set(d, ty, frag.selection_set, frags, vars, inner, (depth - 1) as nat);
                lemma_walk_set_grows(d, ty, frag.selection_set, frags, vars, inner, (depth - 1) as nat);
                let d2 = d1.ensure_object(frag.type_condition@);
                lemma_ensure_object_grows(d1, frag.type_condition@);
                lemma_walk_set_grows(
                    d2,
                    frag.type_condition@,
                    frag.selection_set,
                    frags,
                    vars,
                    inner,
                    (depth - 1) as nat,
                );
                lemma_grows_transitive(d, d1, d2);
                lemma_grows_transitive(d, d2, end);
            }
        },
        Selection::InlineFragment(inl) => {
            let narrowed = match inl.type_condition {
                Some(tc) => tc@,
                None => ty,
            };
            lemma_walk_set_grows(d, narrowed, inl.selection_set, frags, vars, open, depth);
        },
    }
}

/// A walk of selections in the context of a union only adds to the draft.
pub proof fn lemma_walk_union_items_grows(
    d: DraftModel,
    items: Vec<Selection>,
    i: int,
    frags: FragmentMap,
    vars: Map<Seq<char>, TypeExpr>,
    open: Set<Seq<char>>,
    depth: nat,
)
    ensures
        grows(d, walk_union_items(d, items, i, frags, vars, open, depth)),
    decreases depth, items, items.len() - i,
{
    if 0 <= i < items.len() {
        let next = walk_union_selection(d, items[i], frags, vars, open, depth);
        lemma_walk_union_selection_grows(d, items[i], frags, vars, open, depth);
        lemma_walk_union_items_grows(next, items, i + 1, frags, vars, open, depth);
        lemma_grows_transitive(d, next, walk_union_items(d, items, i, frags, vars, open, depth));
    }
}

/// A walk of one selection in the context of a union only adds to the draft.
pub proof fn lemma_walk_union_selection_grows(
    d: DraftModel,
    s: Selection,
    frags: FragmentMap,
    vars: Map<Seq<char>, TypeExpr>,
    open: Set<Seq<char>>,
    depth: nat,
)
    ensures
        grows(d, walk_union_selection(d, s, frags, vars, open, depth)),
    decreases depth, s, 0nat,
{
    let end = walk_union_selection(d, s, frags, vars, open, depth);
    match s {
        Selection::InlineFragment(inl) => match inl.type_condition {
            Some(tc) => {
                lemma_ensure_object_grows(d, tc@);
                lemma_walk_set_grows(d.ensure_object(tc@), tc@, inl.selection_set, frags, vars, open, depth);
                lemma_grows_transitive(d, d.ensure_object(tc@), end);
            },
            None => {},
        },
        Selection::FragmentSpread(sp) => {
            if frags.dom().contains(sp.fragment_name@) && !open.contains(sp.fragment_name@) && depth > 0 {
                let frag = frags[sp.fragment_name@];
                let d1 = d.ensure_object(frag.type_condition@);
                lemma_ensure_object_grows(d, frag.type_condition@);
                lemma_walk_set_grows(
                    d1,
                    frag.type_condition@,
                    frag.selection_set,
                    frags,
                    vars,
                    open.insert(sp.fragment_name@),
                    (depth - 1) as nat,
                );
                lemma_grows_transitive(d, d1, end);
            }
        },
        Selection::Field(_) => {},
    }
}

/// Completeness at one level: after a walk in the context of an object
/// type, every field that the selections name from position `i` on, but for
/// `__typename`, is a field of that type.
pub proof fn lemma_walk_registers_fields(
    d: DraftModel,
    ty: Seq<char>,
    items: Vec<Selection>,
    i: int,
    frags: FragmentMap,
    vars: Map<Seq<char>, TypeExpr>,
    open: Set<Seq<char>>,
    depth: nat,
)
    requires
        0 <= i,
    ensures
        forall|k: int|
            i <= k < items.len() && (#[trigger] items[k] matches Selection::Field(f) && f.name@
                != "__typename"@) ==> {
                let end = walk_items(d, ty, items, i, frags, vars, open, depth);
                end.objects.dom().contains(ty) && end.objects[ty].dom().contains(items[k]->Field_0.name@)
            },
    decreases items.len() - i,
{
    if i < items.len() {
        let next = walk_selection(d, ty, items[i], frags, vars, open, depth);
        let end = walk_items(d, ty, items, i, frags, vars, open, depth);
        lemma_walk_registers_fields(next, ty, items, i + 1, frags, vars, open, depth);
        lemma_walk_items_grows(next, ty, items, i + 1, frags, vars, open, depth);
        if let Selection::Field(f) = items[i] {
            if f.name@ != "__typename"@ {
                lemma_field_registered(d, ty, items[i], frags, vars, open, depth);
                assert(next.objects.dom().contains(ty));
                assert(next.objects[ty].dom().contains(f.name@));
            }
        }
    }
}

/// After the walk of a field selection in the context of an object type, the
/// field is a field of that type.
pub proof fn lemma_field_registered(
    d: DraftModel,
    ty: Seq<char>,
    s: Selection,
    frags: FragmentMap,
    vars: Map<Seq<char>, TypeExpr>,
    open: Set<Seq<char>>,
    depth: nat,
)
    requires
        s is Field,
        s->Field_0.name@ != "__typename"@,
    ensures
        walk_selection(d, ty, s, frags, vars, open, depth).objects.dom().contains(ty),
        walk_selection(d, ty, s, frags, vars, open, depth).objects[ty].dom().contains(s->Field_0.name@),
{
    let f = s->Field_0;
    let end = walk_selection(d, ty, s, frags, vars, open, depth);
    let d1 = with_arguments(d, ty, f.name@, f.arguments@, 0, vars);
    if f.selection_set.items.len() == 0 {
        lemma_add_field_grows(d1, ty, f.name@, crate::infer::leaf_scalar(f.name@));
    } else {
        let (d2, inferred) = output_type(d1, ty, f.name@, f.selection_set, frags);
        let d3 = d2.add_field(ty, f.name@, TypeExpr::Named(inferred));
        lemma_add_field_grows(d2, ty, f.name@, TypeExpr::Named(inferred));
        if d3.unions.dom().contains(inferred) {
            lemma_walk_union_items_grows(d3, f.selection_set.items, 0, frags, vars, open, depth);
        } else {
            lemma_walk_set_grows(d3, inferred, f.selection_set, frags, vars, open, depth);
        }
        assert(d3.objects[ty].dom().contains(f.name@));
        assert(grows(d3, end));
    }
}

/// Recording the types of variables only adds to the draft.
pub proof fn lemma_with_inputs_grows(d: DraftModel, vars: Seq<VariableDefinition>, i: int)
    ensures
        grows(d, with_inputs(d, vars, i)),
    decreases vars.len() - i,
{
    if 0 <= i < vars.len() {
        let name = crate::infer::base_name(vars[i].var_type@);
        let next = if crate::infer::builtin_scalar(name) {
            d
        } else {
            DraftModel { inputs: d.inputs.insert(name), scalars: d.scalars.insert("JSON"@), ..d }
        };
        lemma_with_inputs_grows(next, vars, i + 1);
        lemma_grows_transitive(d, next, with_inputs(d, vars, i));
    }
}

/// A walk of the operations of a document only adds to the draft.
pub proof fn lemma_walk_definitions_grows(
    d: DraftModel,
    defs: Seq<Definition>,
    i: int,
    frags: FragmentMap,
    depth: nat,
)
    ensures
        grows(d, walk_definitions(d, defs, i, frags, depth)),
    decreases defs.len() - i,
{
    if 0 <= i < defs.len() {
        let next = match defs[i] {
            Definition::Operation(op) => walk_operation(d, op, frags, depth),
            Definition::Fragment(_) => d,
        };
        if let Definition::Operation(op) = defs[i] {
            let start = with_inputs(d, op.variable_definitions@, 0);
            lemma_with_inputs_grows(d, op.variable_definitions@, 0);
            lemma_walk_set_grows(d, "Query"@, op.selection_set, frags, Map::empty(), Set::empty(), depth);
            lemma_walk_set_grows(
                start,
                crate::generate::root_type(op.kind),
                op.selection_set,
                frags,
                crate::infer::var_types(op.variable_definitions@),
                Set::empty(),
                depth,
            );
            if !(op.kind is SelectionSet) {
                lemma_grows_transitive(d, start, next);
            }
        }
        lemma_walk_definitions_grows(next, defs, i + 1, frags, depth);
        lemma_grows_transitive(d, next, walk_definitions(d, defs, i, frags, depth));
    }
}

/// A walk of the operations of all documents only adds to the draft.
pub proof fn lemma_walk_documents_grows(d: DraftModel, docs: Seq<Document>, i: int, frags: FragmentMap, depth: nat)
    ensures
        grows(d, walk_documents(d, docs, i, frags, depth)),
    decreases docs.len() - i,
{
    if 0 <= i < docs.len() {
        let next = walk_definitions(d, docs[i].definitions@, 0, frags, depth);
        lemma_walk_definitions_grows(d, docs[i].definitions@, 0, frags, depth);
        lemma_walk_documents_grows(next, docs, i + 1, frags, depth);
        lemma_grows_transitive(d, next, walk_documents(d, docs, i, frags, depth));
    }
}

/// A walk of the fragments only adds to the draft.
pub proof fn lemma_walk_fragments_grows(d: DraftModel, frags: FragmentMap, names: Seq<Seq<char>>, i: int)
    ensures
        grows(d, walk_fragments(d, frags, names, i)),
    decreases names.len() - i,
{
    if 0 <= i < names.len() {
        let frag = frags[names[i]];
        let d1 = d.ensure_object(frag.type_condition@);
        let next = walk_set(
            d1,
            frag.type_condition@,
            frag.selection_set,
            frags,
            Map::empty(),
            Set::<Seq<char>>::empty().insert(names[i]),
            names.len(),
        );
        lemma_ensure_object_grows(d, frag.type_condition@);
        lemma_walk_set_grows(
            d1,
            frag.type_condition@,
            frag.selection_set,
            frags,
            Map::empty(),
            Set::<Seq<char>>::empty().insert(names[i]),
            names.len(),
        );
        lemma_grows_transitive(d, d1, next);
        lemma_walk_fragments_grows(next, frags, names, i + 1);
        lemma_grows_transitive(d, next, walk_fragments(d, frags, names, i));
    }
}

/// Whatever the documents hold, the draft they imply has the object types
/// `Query` and `Mutation` and declares the opaque scalar.
pub proof fn lemma_roots_always_there(docs: Seq<Document>)
    ensures
        walk_all(docs).objects.dom().contains("Query"@),
        walk_all(docs).objects.dom().contains("Mutation"@),
        walk_all(docs).scalars.contains("JSON"@),
{
    let frags = crate::document::all_fragments(docs);
    let names = crate::generate::in_order(frags.dom());
    let mid = walk_documents(initial_model(), docs, 0, frags, names.len());
    lemma_walk_documents_grows(initial_model(), docs, 0, frags, names.len());
    lemma_walk_fragments_grows(mid, frags, names, 0);
    lemma_grows_transitive(initial_model(), mid, walk_all(docs));
    assert(initial_model().objects.dom().contains("Query"@));
    assert(initial_model().objects.dom().contains("Mutation"@));
    assert(initial_model().scalars.contains("JSON"@));
}

} // verus!
