//! Completeness: the fields that the operations select at their top level
//! are fields of the root types in the draft that the documents imply.

use crate::document::{
    all_fragments, Argument, Definition, Document, Operation, Selection, SelectionSet, VariableDefinition,
};
use crate::generate::{
    in_order, initial_model, root_type, walk_all, walk_definitions, walk_documents, walk_operation, with_inputs,
};
use crate::growth::{
    lemma_walk_definitions_grows, lemma_walk_documents_grows, lemma_walk_fragments_grows,
    lemma_walk_registers_fields,
};
use crate::schema_gen::{DraftModel, TypeExpr};
use crate::walker::{
    output_type, union_name, walk_items, walk_selection, walk_set, walk_union_items, walk_union_selection,
    with_arguments, FragmentMap,
};
use vstd::prelude::*;

verus! {

/// Every union of the draft has a name that ends in `Union`.
pub open spec fn unions_named(d: DraftModel) -> bool {
    forall|u: Seq<char>| #[trigger] d.unions.dom().contains(u) ==> "Union"@.is_suffix_of(u)
}

/// The name that is made for a union ends in `Union`.
pub proof fn lemma_union_name_ends(parent: Seq<char>, field: Seq<char>)
    ensures
        "Union"@.is_suffix_of(union_name(parent, field)),
{
    let name = union_name(parent, field);
    let head = parent + crate::infer::pascal(field);
    assert(name == head + "Union"@);
    assert(name.subrange(name.len() - "Union"@.len(), name.len() as int) =~= "Union"@);
}

/// The root types are no unions in a draft whose unions are named so.
pub proof fn lemma_roots_are_objects(d: DraftModel)
    requires
        unions_named(d),
    ensures
        !d.unions.dom().contains("Query"@),
        !d.unions.dom().contains("Mutation"@),
{
    reveal_strlit("Union");
    reveal_strlit("Query");
    reveal_strlit("Mutation");
    let u = "Union"@;
    let q = "Query"@;
    let m = "Mutation"@;
    if u.is_suffix_of(q) {
        assert(q.subrange(q.len() - u.len(), q.len() as int)[4] == u[4]);
    }
    if u.is_suffix_of(m) {
        assert(m.subrange(m.len() - u.len(), m.len() as int)[0] == u[0]);
    }
}

proof fn lemma_with_arguments_names(
    d: DraftModel,
    ty: Seq<char>,
    field: Seq<char>,
    args: Seq<Argument>,
    i: int,
    vars: Map<Seq<char>, TypeExpr>,
)
    requires
        unions_named(d),
    ensures
        unions_named(with_arguments(d, ty, field, args, i, vars)),
    decreases args.len() - i,
{
    if 0 <= i < args.len() {
        let next = match crate::infer::argument_type(args[i].value, vars) {
            Some(t) => d.add_field_arg(ty, field, args[i].name@, t),
            None => d,
        };
        lemma_with_arguments_names(next, ty, field, args, i + 1, vars);
    }
}

proof fn lemma_output_type_names(
    d: DraftModel,
    parent: Seq<char>,
    field: Seq<char>,
    ss: SelectionSet,
    frags: FragmentMap,
)
    requires
        unions_named(d),
    ensures
        unions_named(output_type(d, parent, field, ss, frags).0),
{
    lemma_union_name_ends(parent, field);
}

proof fn lemma_walk_set_names(
    d: DraftModel,
    ty: Seq<char>,
    ss: SelectionSet,
    frags: FragmentMap,
    vars: Map<Seq<char>, TypeExpr>,
    open: Set<Seq<char>>,
    depth: nat,
)
    requires
        unions_named(d),
    ensures
        unions_named(walk_set(d, ty, ss, frags, vars, open, depth)),
    decreases depth, ss, 0nat,
{
    if d.unions.dom().contains(ty) {
        lemma_walk_union_items_names(d, ss.items, 0, frags, vars, open, depth);
    } else {
        lemma_walk_items_names(d.ensure_object(ty), ty, ss.items, 0, frags, vars, open, depth);
    }
}

proof fn lemma_walk_items_names(
    d: DraftModel,
    ty: Seq<char>,
    items: Vec<Selection>,
    i: int,
    frags: FragmentMap,
    vars: Map<Seq<char>, TypeExpr>,
    open: Set<Seq<char>>,
    depth: nat,
)
    requires
        unions_named(d),
    ensures
        unions_named(walk_items(d, ty, items, i, frags, vars, open, depth)),
    decreases depth, items, items.len() - i,
{
    if 0 <= i < items.len() {
        lemma_walk_selection_names(d, ty, items[i], frags, vars, open, depth);
        lemma_walk_items_names(
            walk_selection(d, ty, items[i], frags, vars, open, depth),
            ty,
            items,
            i + 1,
            frags,
            vars,
            open,
            depth,
        );
    }
}

proof fn lemma_walk_selection_names(
    d: DraftModel,
    ty: Seq<char>,
    s: Selection,
    frags: FragmentMap,
    vars: Map<Seq<char>, TypeExpr>,
    open: Set<Seq<char>>,
    depth: nat,
)
    requires
        unions_named(d),
    ensures
        unions_named(walk_selection(d, ty, s, frags, vars, open, depth)),
    decreases depth, s, 0nat,
{
    match s {
        Selection::Field(f) => {
            if f.name@ != "__typename"@ {
                let d1 = with_arguments(d, ty, f.name@, f.arguments@, 0, vars);
                lemma_with_arguments_names(d, ty, f.name@, f.arguments@, 0, vars);
                if f.selection_set.items.len() != 0 {
                    let (d2, inferred) = output_type(d1, ty, f.name@, f.selection_set, frags);
                    lemma_output_type_names(d1, ty, f.name@, f.selection_set, frags);
                    let d3 = d2.add_field(ty, f.name@, TypeExpr::Named(inferred));
                    if d3.unions.dom().contains(inferred) {
                        lemma_walk_union_items_names(d3, f.selection_set.items, 0, frags, vars, open, depth);
                    } else {
                        lemma_walk_set_names(d3, inferred, f.selection_set, frags, vars, open, depth);
                    }
                }
            }
        },
        Selection::FragmentSpread(sp) => {
            if frags.dom().contains(sp.fragment_name@) && !open.contains(sp.fragment_name@) && depth > 0 {
                let frag = frags[sp.fragment_name@];
                let inner = open.insert(sp.fragment_name@);
                let d1 = walk_set(d, ty, frag.selection_set, frags, vars, inner, (depth - 1) as nat);
                lemma_walk_set_names(d, ty, frag.selection_set, frags, vars, inner, (depth - 1) as nat);
                lemma_walk_set_names(
                    d1.ensure_object(frag.type_condition@),
                    frag.type_condition@,
                    frag.selection_set,
                    frags,
                    vars,
                    inner,
                    (depth - 1) as nat,
                );
            }
        },
        Selection::InlineFragment(inl) => {
            let narrowed = match inl.type_condition {
                Some(tc) => tc@,
                None => ty,
            };
            lemma_walk_set_names(d, narrowed, inl.selection_set, frags, vars, open, depth);
        },
    }
}

proof fn lemma_walk_union_items_names(
    d: DraftModel,
    items: Vec<Selection>,
    i: int,
    frags: FragmentMap,
    vars: Map<Seq<char>, TypeExpr>,
    open: Set<Seq<char>>,
    depth: nat,
)
    requires
        unions_named(d),
    ensures
        unions_named(walk_union_items(d, items, i, frags, vars, open, depth)),
    decreases depth, items, items.len() - i,
{
    if 0 <= i < items.len() {
        lemma_walk_union_selection_names(d, items[i], frags, vars, open, depth);
        lemma_walk_union_items_names(
            walk_union_selection(d, items[i], frags, vars, open, depth),
            items,
            i + 1,
            frags,
            vars,
            open,
            depth,
        );
    }
}

proof fn lemma_walk_union_selection_names(
    d: DraftModel,
    s: Selection,
    frags: FragmentMap,
    vars: Map<Seq<char>, TypeExpr>,
    open: Set<Seq<char>>,
    depth: nat,
)
    requires
        unions_named(d),
    ensures
        unions_named(walk_union_selection(d, s, frags, vars, open, depth)),
    decreases depth, s, 0nat,
{
    match s {
        Selection::InlineFragment(inl) => match inl.type_condition {
            Some(tc) => {
                lemma_walk_set_names(d.ensure_object(tc@), tc@, inl.selection_set, frags, vars, open, depth);
            },
            None => {},
        },
        Selection::FragmentSpread(sp) => {
            if frags.dom().contains(sp.fragment_name@) && !open.contains(sp.fragment_name@) && depth > 0 {
                let frag = frags[sp.fragment_name@];
                lemma_walk_set_names(
                    d.ensure_object(frag.type_condition@),
                    frag.type_condition@,
                    frag.selection_set,
                    frags,
                    vars,
                    open.insert(sp.fragment_name@),
                    (depth - 1) as nat,
                );
            }
        },
        Selection::Field(_) => {},
    }
}

proof fn lemma_with_inputs_names(d: DraftModel, vars: Seq<VariableDefinition>, i: int)
    requires
        unions_named(d),
    ensures
        unions_named(with_inputs(d, vars, i)),
    decreases vars.len() - i,
{
    if 0 <= i < vars.len() {
        let name = crate::infer::base_name(vars[i].var_type@);
        let next = if crate::infer::builtin_scalar(name) {
            d
        } else {
            DraftModel { inputs: d.inputs.insert(name), scalars: d.scalars.insert("JSON"@), ..d }
        };
        lemma_with_inputs_names(next, vars, i + 1);
    }
}

/// Whether `name` is selected as a field at the top level of `op`.
pub open spec fn selects_at_top(op: Operation, name: Seq<char>) -> bool {
    exists|k: int|
        0 <= k < op.selection_set.items.len() && (#[trigger] op.selection_set.items[k] matches Selection::Field(
            f,
        ) && f.name@ == name)
}

/// After an operation was walked, its root type has every field that the
/// operation selects at its top level, but for `__typename`.
pub proof fn lemma_operation_registers(d: DraftModel, op: Operation, frags: FragmentMap, depth: nat, name: Seq<char>)
    requires
        unions_named(d),
        selects_at_top(op, name),
        name != "__typename"@,
    ensures
        unions_named(walk_operation(d, op, frags, depth)),
        walk_operation(d, op, frags, depth).objects.dom().contains(root_type(op.kind)),
        walk_operation(d, op, frags, depth).objects[root_type(op.kind)].dom().contains(name),
{
    let root = root_type(op.kind);
    let vars = if op.kind is SelectionSet {
        Map::<Seq<char>, TypeExpr>::empty()
    } else {
        crate::infer::var_types(op.variable_definitions@)
    };
    let start = if op.kind is SelectionSet {
        d
    } else {
        with_inputs(d, op.variable_definitions@, 0)
    };
    lemma_with_inputs_names(d, op.variable_definitions@, 0);
    lemma_roots_are_objects(start);
    lemma_walk_set_names(start, root, op.selection_set, frags, vars, Set::empty(), depth);
    assert(walk_operation(d, op, frags, depth) == walk_set(
        start,
        root,
        op.selection_set,
        frags,
        vars,
        Set::empty(),
        depth,
    ));
    let k = choose|k: int|
        0 <= k < op.selection_set.items.len() && (#[trigger] op.selection_set.items[k] matches Selection::Field(
            f,
        ) && f.name@ == name);
    lemma_walk_registers_fields(
        start.ensure_object(root),
        root,
        op.selection_set.items,
        0,
        frags,
        vars,
        Set::empty(),
        depth,
    );
    assert(op.selection_set.items[k] is Field);
}

proof fn lemma_definitions_register(
    d: DraftModel,
    defs: Seq<Definition>,
    i: int,
    j: int,
    frags: FragmentMap,
    depth: nat,
    name: Seq<char>,
)
    requires
        unions_named(d),
        0 <= i,
        i <= j < defs.len() ==> (defs[j] matches Definition::Operation(op) && selects_at_top(op, name)),
        name != "__typename"@,
    ensures
        unions_named(walk_definitions(d, defs, i, frags, depth)),
        i <= j < defs.len() ==> {
            let end = walk_definitions(d, defs, i, frags, depth);
            let root = root_type(defs[j]->Operation_0.kind);
            end.objects.dom().contains(root) && end.objects[root].dom().contains(name)
        },
    decreases defs.len() - i,
{
    if i < defs.len() {
        let next = match defs[i] {
            Definition::Operation(op) => walk_operation(d, op, frags, depth),
            Definition::Fragment(_) => d,
        };
        if let Definition::Operation(op) = defs[i] {
            if i == j {
                lemma_operation_registers(d, op, frags, depth, name);
            } else {
                lemma_with_inputs_names(d, op.variable_definitions@, 0);
                lemma_walk_set_names(d, "Query"@, op.selection_set, frags, Map::empty(), Set::empty(), depth);
                lemma_walk_set_names(
                    with_inputs(d, op.variable_definitions@, 0),
                    root_type(op.kind),
                    op.selection_set,
                    frags,
                    crate::infer::var_types(op.variable_definitions@),
                    Set::empty(),
                    depth,
                );
            }
        }
        lemma_definitions_register(next, defs, i + 1, j, frags, depth, name);
        if i == j {
            lemma_walk_definitions_grows(next, defs, i + 1, frags, depth);
        }
    }
}

proof fn lemma_documents_register(
    d: DraftModel,
    docs: Seq<Document>,
    i: int,
    at: int,
    j: int,
    frags: FragmentMap,
    depth: nat,
    name: Seq<char>,
)
    requires
        unions_named(d),
        0 <= i,
        0 <= j,
        i <= at < docs.len() ==> j < docs[at].definitions.len() && (docs[at].definitions[j] matches Definition::Operation(
            op,
        ) && selects_at_top(op, name)),
        name != "__typename"@,
    ensures
        unions_named(walk_documents(d, docs, i, frags, depth)),
        i <= at < docs.len() ==> {
            let end = walk_documents(d, docs, i, frags, depth);
            let root = root_type(docs[at].definitions[j]->Operation_0.kind);
            end.objects.dom().contains(root) && end.objects[root].dom().contains(name)
        },
    decreases docs.len() - i,
{
    if i < docs.len() {
        let next = walk_definitions(d, docs[i].definitions@, 0, frags, depth);
        if i == at {
            lemma_definitions_register(d, docs[i].definitions@, 0, j, frags, depth, name);
            lemma_walk_documents_grows(next, docs, i + 1, frags, depth);
        } else {
            lemma_definitions_register(d, docs[i].definitions@, 0, docs[i].definitions@.len() as int, frags, depth, name);
        }
        lemma_documents_register(next, docs, i + 1, at, j, frags, depth, name);
    }
}

/// Completeness at the roots: a field that an operation of the documents
/// selects at its top level, but for `__typename`, is a field of the
/// operation's root type in the draft that the documents imply.
pub proof fn lemma_top_level_fields_registered(docs: Seq<Document>, at: int, j: int, name: Seq<char>)
    requires
        0 <= at < docs.len(),
        0 <= j < docs[at].definitions.len(),
        docs[at].definitions[j] is Operation,
        selects_at_top(docs[at].definitions[j]->Operation_0, name),
        name != "__typename"@,
    ensures
        walk_all(docs).objects.dom().contains(root_type(docs[at].definitions[j]->Operation_0.kind)),
        walk_all(docs).objects[root_type(docs[at].definitions[j]->Operation_0.kind)].dom().contains(name),
{
    let frags = all_fragments(docs);
    let names = in_order(frags.dom());
    let mid = walk_documents(initial_model(), docs, 0, frags, names.len());
    assert(unions_named(initial_model()));
    lemma_documents_register(initial_model(), docs, 0, at, j, frags, names.len(), name);
    lemma_walk_fragments_grows(mid, frags, names, 0);
}

} // verus!
