//! Order of the documents: for documents without arguments and without
//! inline fragments, the draft does not depend on the order in which the
//! documents are walked.

use crate::document::{
    all_fragments, definitions_fragments, Definition, Document, Operation, Selection, SelectionSet,
    VariableDefinition,
};
use crate::generate::{
    in_order, initial_model, root_type, walk_all, walk_definitions, walk_documents, walk_operation,
    with_inputs,
};
use crate::infer::{base_name, builtin_scalar, leaf_scalar};
use crate::schema_gen::{DraftModel, TypeExpr};
use crate::walker::{
    inline_conditions, object_name, output_type, spread_conditions, walk_items, walk_selection, walk_set,
    with_arguments, FragmentMap,
};
use vstd::prelude::*;

verus! {

/// One thing that a walk registers in the draft.
pub enum Observation {
    /// An object type is there.
    Object(Seq<char>),
    /// A field of an object type was seen with a type.
    Field(Seq<char>, Seq<char>, TypeExpr),
    /// A variable names a type that is no built-in scalar.
    Input(Seq<char>),
}

/// The draft after one observation.
pub open spec fn observe(d: DraftModel, o: Observation) -> DraftModel {
    match o {
        Observation::Object(name) => d.ensure_object(name),
        Observation::Field(object, field, ty) => d.add_field(object, field, ty),
        Observation::Input(name) => DraftModel {
            inputs: d.inputs.insert(name),
            scalars: d.scalars.insert("JSON"@),
            ..d
        },
    }
}

/// The draft after the observations from position `i` on.
pub open spec fn observe_all(d: DraftModel, os: Seq<Observation>, i: int) -> DraftModel
    decreases os.len() - i,
{
    if 0 <= i < os.len() {
        observe_all(observe(d, os[i]), os, i + 1)
    } else {
        d
    }
}

/// Two observations give the same draft in either order.
pub proof fn lemma_observations_commute(d: DraftModel, x: Observation, y: Observation)
    ensures
        observe(observe(d, x), y) == observe(observe(d, y), x),
{
    let xy = observe(observe(d, x), y);
    let yx = observe(observe(d, y), x);
    assert forall|t: Seq<char>| xy.objects.dom().contains(t) implies #[trigger] xy.objects[t]
        =~= yx.objects[t] by {}
    assert(xy.objects =~= yx.objects);
    assert(xy.inputs =~= yx.inputs);
    assert(xy.scalars =~= yx.scalars);
}

/// An observation made before a run of observations gives the same draft as
/// the same observation made after it.
pub proof fn lemma_observe_moves(d: DraftModel, y: Observation, os: Seq<Observation>, i: int)
    requires
        0 <= i,
    ensures
        observe_all(observe(d, y), os, i) == observe(observe_all(d, os, i), y),
    decreases os.len() - i,
{
    if i < os.len() {
        lemma_observations_commute(d, y, os[i]);
        lemma_observe_moves(observe(d, os[i]), y, os, i + 1);
    }
}

/// Observations one run after another are the observations of the joined
/// run.
pub proof fn lemma_observe_joined(d: DraftModel, a: Seq<Observation>, b: Seq<Observation>, i: int)
    requires
        0 <= i <= a.len(),
    ensures
        observe_all(d, a + b, i) == observe_all(observe_all(d, a, i), b, 0),
    decreases a.len() - i,
{
    if i < a.len() {
        assert((a + b)[i] == a[i]);
        lemma_observe_joined(observe(d, a[i]), a, b, i + 1);
    } else {
        lemma_observe_tail(d, a, b, 0);
    }
}

proof fn lemma_observe_tail(d: DraftModel, a: Seq<Observation>, b: Seq<Observation>, k: int)
    requires
        0 <= k <= b.len(),
    ensures
        observe_all(d, a + b, a.len() + k) == observe_all(d, b, k),
    decreases b.len() - k,
{
    if k < b.len() {
        assert((a + b)[a.len() + k] == b[k]);
        lemma_observe_tail(observe(d, b[k]), a, b, k + 1);
    }
}

/// Two runs of observations give the same draft in either order.
pub proof fn lemma_runs_commute(d: DraftModel, a: Seq<Observation>, b: Seq<Observation>, i: int)
    requires
        0 <= i <= a.len(),
    ensures
        observe_all(observe_all(d, a, i), b, 0) == observe_all(observe_all(d, b, 0), a, i),
    decreases a.len() - i,
{
    if i < a.len() {
        // a[i] first, then the rest of a, then b ...
        lemma_runs_commute(observe(d, a[i]), a, b, i + 1);
        // ... is b after a[i], then the rest of a; and a[i] moves behind b.
        lemma_observe_moves(d, a[i], b, 0);
    }
}

/// Whether a selection has no arguments and no inline fragment, at any depth.
pub open spec fn plain_selection(s: Selection) -> bool
    decreases s, 0nat,
{
    match s {
        Selection::Field(f) => f.arguments.len() == 0 && plain_items(f.selection_set.items, 0),
        Selection::FragmentSpread(_) => true,
        Selection::InlineFragment(_) => false,
    }
}

/// Whether the selections from position `i` on are plain.
pub open spec fn plain_items(items: Vec<Selection>, i: int) -> bool
    decreases items, items.len() - i,
{
    if 0 <= i < items.len() {
        plain_selection(items[i]) && plain_items(items, i + 1)
    } else {
        true
    }
}

/// Whether every fragment is plain.
pub open spec fn plain_fragments(frags: FragmentMap) -> bool {
    forall|n: Seq<char>| #[trigger] frags.dom().contains(n) ==> plain_items(frags[n].selection_set.items, 0)
}

/// Whether the draft has no union.
pub open spec fn no_unions(d: DraftModel) -> bool {
    forall|u: Seq<char>| !#[trigger] d.unions.dom().contains(u)
}

proof fn lemma_plain_each(items: Vec<Selection>, i: int, k: int)
    requires
        0 <= i <= k < items.len(),
        plain_items(items, i),
    ensures
        plain_selection(items[k]),
        plain_items(items, k + 1),
    decreases k - i,
{
    if i < k {
        lemma_plain_each(items, i + 1, k);
    }
}

/// The type name of a field with a plain selection set: the type of its
/// fragment spreads where they agree on one, else the name made of the
/// parent's name and the field's.
pub open spec fn named_type(parent: Seq<char>, field: Seq<char>, ss: SelectionSet, frags: FragmentMap) -> Seq<char> {
    let spread = spread_conditions(ss.items@, frags);
    if exists|n: Seq<char>| spread == set![n] {
        choose|n: Seq<char>| spread == set![n]
    } else {
        object_name(parent, field)
    }
}

proof fn lemma_plain_output_type(d: DraftModel, parent: Seq<char>, field: Seq<char>, ss: SelectionSet, frags: FragmentMap)
    requires
        plain_items(ss.items, 0),
    ensures
        output_type(d, parent, field, ss, frags) == (d, named_type(parent, field, ss, frags)),
{
    let inline = inline_conditions(ss.items@);
    if exists|n: Seq<char>| inline.contains(n) {
        let n = choose|n: Seq<char>| inline.contains(n);
        let k = choose|k: int|
            0 <= k < ss.items@.len() && (#[trigger] ss.items@[k] matches Selection::InlineFragment(inl)
                && inl.type_condition matches Some(tc) && tc@ == n);
        lemma_plain_each(ss.items, 0, k);
    }
}

/// What the walk of a plain selection set registers in the context of the
/// object type `ty`.
pub open spec fn set_observations(
    ty: Seq<char>,
    ss: SelectionSet,
    frags: FragmentMap,
    open: Set<Seq<char>>,
    depth: nat,
) -> Seq<Observation>
    decreases depth, ss, 0nat,
{
    seq![Observation::Object(ty)] + items_observations(ty, ss.items, 0, frags, open, depth)
}

/// What the plain selections from position `i` on register.
pub open spec fn items_observations(
    ty: Seq<char>,
    items: Vec<Selection>,
    i: int,
    frags: FragmentMap,
    open: Set<Seq<char>>,
    depth: nat,
) -> Seq<Observation>
    decreases depth, items, items.len() - i,
{
    if 0 <= i < items.len() {
        selection_observations(ty, items[i], frags, open, depth) + items_observations(
            ty,
            items,
            i + 1,
            frags,
            open,
            depth,
        )
    } else {
        Seq::empty()
    }
}

/// What one plain selection registers.
pub open spec fn selection_observations(
    ty: Seq<char>,
    s: Selection,
    frags: FragmentMap,
    open: Set<Seq<char>>,
    depth: nat,
) -> Seq<Observation>
    decreases depth, s, 0nat,
{
    match s {
        Selection::Field(f) => {
            if f.name@ == "__typename"@ {
                Seq::empty()
            } else if f.selection_set.items.len() == 0 {
                seq![Observation::Field(ty, f.name@, leaf_scalar(f.name@))]
            } else {
                let inferred = named_type(ty, f.name@, f.selection_set, frags);
                seq![Observation::Field(ty, f.name@, TypeExpr::Named(inferred))] + set_observations(
                    inferred,
                    f.selection_set,
                    frags,
                    open,
                    depth,
                )
            }
        },
        Selection::FragmentSpread(sp) => {
            if frags.dom().contains(sp.fragment_name@) && !open.contains(sp.fragment_name@) && depth > 0 {
                let frag = frags[sp.fragment_name@];
                let inner = open.insert(sp.fragment_name@);
                set_observations(ty, frag.selection_set, frags, inner, (depth - 1) as nat) + seq![
                    Observation::Object(frag.type_condition@),
                ] + set_observations(
                    frag.type_condition@,
                    frag.selection_set,
                    frags,
                    inner,
                    (depth - 1) as nat,
                )
            } else {
                Seq::empty()
            }
        },
        Selection::InlineFragment(_) => Seq::empty(),
    }
}

/// Observations make no union.
pub proof fn lemma_observe_keeps_unions(d: DraftModel, os: Seq<Observation>, i: int)
    requires
        0 <= i,
    ensures
        observe_all(d, os, i).unions == d.unions,
    decreases os.len() - i,
{
    if i < os.len() {
        lemma_observe_keeps_unions(observe(d, os[i]), os, i + 1);
    }
}

proof fn lemma_observe_first(d: DraftModel, o: Observation, rest: Seq<Observation>)
    ensures
        observe_all(d, seq![o] + rest, 0) == observe_all(observe(d, o), rest, 0),
{
    lemma_observe_joined(d, seq![o], rest, 0);
    assert(observe_all(d, seq![o], 0) == observe(d, o)) by {
        assert(observe_all(observe(d, o), seq![o], 1) == observe(d, o));
    }
}

proof fn lemma_observe_nothing(d: DraftModel)
    ensures
        observe_all(d, Seq::<Observation>::empty(), 0) == d,
{
}

/// The walk of a plain selection set in a draft without unions is the run of
/// its observations.
pub proof fn lemma_plain_walk_set(
    d: DraftModel,
    ty: Seq<char>,
    ss: SelectionSet,
    frags: FragmentMap,
    vars: Map<Seq<char>, TypeExpr>,
    open: Set<Seq<char>>,
    depth: nat,
)
    requires
        no_unions(d),
        plain_items(ss.items, 0),
        plain_fragments(frags),
    ensures
        walk_set(d, ty, ss, frags, vars, open, depth) == observe_all(
            d,
            set_observations(ty, ss, frags, open, depth),
            0,
        ),
    decreases depth, ss, 0nat,
{
    let rest = items_observations(ty, ss.items, 0, frags, open, depth);
    lemma_plain_walk_items(d.ensure_object(ty), ty, ss.items, 0, frags, vars, open, depth);
    lemma_observe_first(d, Observation::Object(ty), rest);
}

proof fn lemma_plain_walk_items(
    d: DraftModel,
    ty: Seq<char>,
    items: Vec<Selection>,
    i: int,
    frags: FragmentMap,
    vars: Map<Seq<char>, TypeExpr>,
    open: Set<Seq<char>>,
    depth: nat,
)
    requires
        0 <= i,
        no_unions(d),
        plain_items(items, i),
        plain_fragments(frags),
    ensures
        walk_items(d, ty, items, i, frags, vars, open, depth) == observe_all(
            d,
            items_observations(ty, items, i, frags, open, depth),
            0,
        ),
    decreases depth, items, items.len() - i,
{
    if i < items.len() {
        let here = selection_observations(ty, items[i], frags, open, depth);
        let rest = items_observations(ty, items, i + 1, frags, open, depth);
        let next = walk_selection(d, ty, items[i], frags, vars, open, depth);
        lemma_plain_walk_selection(d, ty, items[i], frags, vars, open, depth);
        lemma_observe_keeps_unions(d, here, 0);
        lemma_plain_walk_items(next, ty, items, i + 1, frags, vars, open, depth);
        lemma_observe_joined(d, here, rest, 0);
    } else {
        lemma_observe_nothing(d);
    }
}

proof fn lemma_plain_walk_selection(
    d: DraftModel,
    ty: Seq<char>,
    s: Selection,
    frags: FragmentMap,
    vars: Map<Seq<char>, TypeExpr>,
    open: Set<Seq<char>>,
    depth: nat,
)
    requires
        no_unions(d),
        plain_selection(s),
        plain_fragments(frags),
    ensures
        walk_selection(d, ty, s, frags, vars, open, depth) == observe_all(
            d,
            selection_observations(ty, s, frags, open, depth),
            0,
        ),
    decreases depth, s, 0nat,
{
    match s {
        Selection::Field(f) => {
            if f.name@ == "__typename"@ {
                lemma_observe_nothing(d);
            } else {
                assert(with_arguments(d, ty, f.name@, f.arguments@, 0, vars) == d);
                if f.selection_set.items.len() == 0 {
                    let o = Observation::Field(ty, f.name@, leaf_scalar(f.name@));
                    lemma_observe_first(d, o, Seq::empty());
                    assert(seq![o] + Seq::<Observation>::empty() =~= seq![o]);
                    lemma_observe_nothing(observe(d, o));
                } else {
                    let inferred = named_type(ty, f.name@, f.selection_set, frags);
                    lemma_plain_output_type(d, ty, f.name@, f.selection_set, frags);
                    let o = Observation::Field(ty, f.name@, TypeExpr::Named(inferred));
                    let d3 = d.add_field(ty, f.name@, TypeExpr::Named(inferred));
                    let rest = set_observations(inferred, f.selection_set, frags, open, depth);
                    lemma_plain_walk_set(d3, inferred, f.selection_set, frags, vars, open, depth);
                    lemma_observe_first(d, o, rest);
                }
            }
        },
        Selection::FragmentSpread(sp) => {
            if frags.dom().contains(sp.fragment_name@) && !open.contains(sp.fragment_name@) && depth > 0 {
                let frag = frags[sp.fragment_name@];
                let inner = open.insert(sp.fragment_name@);
                let first = set_observations(ty, frag.selection_set, frags, inner, (depth - 1) as nat);
                let own = Observation::Object(frag.type_condition@);
                let second = set_observations(
                    frag.type_condition@,
                    frag.selection_set,
                    frags,
                    inner,
                    (depth - 1) as nat,
                );
                let d1 = walk_set(d, ty, frag.selection_set, frags, vars, inner, (depth - 1) as nat);
                lemma_plain_walk_set(d, ty, frag.selection_set, frags, vars, inner, (depth - 1) as nat);
                lemma_observe_keeps_unions(d, first, 0);
                let d2 = d1.ensure_object(frag.type_condition@);
                lemma_plain_walk_set(
                    d2,
                    frag.type_condition@,
                    frag.selection_set,
                    frags,
                    vars,
                    inner,
                    (depth - 1) as nat,
                );
                lemma_observe_first(d1, own, second);
                assert(first + seq![own] + second =~= first + (seq![own] + second));
                lemma_observe_joined(d, first, seq![own] + second, 0);
            } else {
                lemma_observe_nothing(d);
            }
        },
        Selection::InlineFragment(_) => {},
    }
}

/// What the variables from position `i` on register.
pub open spec fn inputs_observations(vars: Seq<VariableDefinition>, i: int) -> Seq<Observation>
    decreases vars.len() - i,
{
    if 0 <= i < vars.len() {
        let name = base_name(vars[i].var_type@);
        (if builtin_scalar(name) {
            Seq::<Observation>::empty()
        } else {
            seq![Observation::Input(name)]
        }) + inputs_observations(vars, i + 1)
    } else {
        Seq::empty()
    }
}

proof fn lemma_inputs_observed(d: DraftModel, vars: Seq<VariableDefinition>, i: int)
    requires
        0 <= i,
    ensures
        with_inputs(d, vars, i) == observe_all(d, inputs_observations(vars, i), 0),
    decreases vars.len() - i,
{
    if i < vars.len() {
        let name = base_name(vars[i].var_type@);
        let rest = inputs_observations(vars, i + 1);
        if builtin_scalar(name) {
            assert(Seq::<Observation>::empty() + rest =~= rest);
            lemma_inputs_observed(d, vars, i + 1);
        } else {
            let next = observe(d, Observation::Input(name));
            lemma_inputs_observed(next, vars, i + 1);
            lemma_observe_first(d, Observation::Input(name), rest);
        }
    } else {
        lemma_observe_nothing(d);
    }
}

/// What the walk of a plain operation registers.
pub open spec fn operation_observations(op: Operation, frags: FragmentMap, depth: nat) -> Seq<Observation> {
    let walk = set_observations(root_type(op.kind), op.selection_set, frags, Set::empty(), depth);
    if op.kind is SelectionSet {
        walk
    } else {
        inputs_observations(op.variable_definitions@, 0) + walk
    }
}

proof fn lemma_operation_observed(d: DraftModel, op: Operation, frags: FragmentMap, depth: nat)
    requires
        no_unions(d),
        plain_items(op.selection_set.items, 0),
        plain_fragments(frags),
    ensures
        walk_operation(d, op, frags, depth) == observe_all(d, operation_observations(op, frags, depth), 0),
{
    let root = root_type(op.kind);
    let walk = set_observations(root, op.selection_set, frags, Set::empty(), depth);
    if op.kind is SelectionSet {
        lemma_plain_walk_set(d, root, op.selection_set, frags, Map::empty(), Set::empty(), depth);
    } else {
        let inputs = inputs_observations(op.variable_definitions@, 0);
        let start = with_inputs(d, op.variable_definitions@, 0);
        lemma_inputs_observed(d, op.variable_definitions@, 0);
        lemma_observe_keeps_unions(d, inputs, 0);
        lemma_plain_walk_set(
            start,
            root,
            op.selection_set,
            frags,
            crate::infer::var_types(op.variable_definitions@),
            Set::empty(),
            depth,
        );
        lemma_observe_joined(d, inputs, walk, 0);
    }
}

/// Whether the operations among the definitions from position `i` on are
/// plain.
pub open spec fn plain_operations(defs: Seq<Definition>, i: int) -> bool
    decreases defs.len() - i,
{
    if 0 <= i < defs.len() {
        (match defs[i] {
            Definition::Operation(op) => plain_items(op.selection_set.items, 0),
            Definition::Fragment(_) => true,
        }) && plain_operations(defs, i + 1)
    } else {
        true
    }
}

/// What the operations among the definitions from position `i` on register.
pub open spec fn definitions_observations(
    defs: Seq<Definition>,
    i: int,
    frags: FragmentMap,
    depth: nat,
) -> Seq<Observation>
    decreases defs.len() - i,
{
    if 0 <= i < defs.len() {
        (match defs[i] {
            Definition::Operation(op) => operation_observations(op, frags, depth),
            Definition::Fragment(_) => Seq::<Observation>::empty(),
        }) + definitions_observations(defs, i + 1, frags, depth)
    } else {
        Seq::empty()
    }
}

proof fn lemma_definitions_observed(d: DraftModel, defs: Seq<Definition>, i: int, frags: FragmentMap, depth: nat)
    requires
        0 <= i,
        no_unions(d),
        plain_operations(defs, i),
        plain_fragments(frags),
    ensures
        walk_definitions(d, defs, i, frags, depth) == observe_all(
            d,
            definitions_observations(defs, i, frags, depth),
            0,
        ),
    decreases defs.len() - i,
{
    if i < defs.len() {
        let rest = definitions_observations(defs, i + 1, frags, depth);
        match defs[i] {
            Definition::Operation(op) => {
                let here = operation_observations(op, frags, depth);
                lemma_operation_observed(d, op, frags, depth);
                lemma_observe_keeps_unions(d, here, 0);
                lemma_definitions_observed(walk_operation(d, op, frags, depth), defs, i + 1, frags, depth);
                lemma_observe_joined(d, here, rest, 0);
            },
            Definition::Fragment(_) => {
                assert(Seq::<Observation>::empty() + rest =~= rest);
                lemma_definitions_observed(d, defs, i + 1, frags, depth);
            },
        }
    } else {
        lemma_observe_nothing(d);
    }
}

/// Whether a document has no arguments and no inline fragments, in its
/// operations and in its fragments.
pub open spec fn plain_document(doc: Document) -> bool {
    &&& plain_operations(doc.definitions@, 0)
    &&& forall|j: int|
        0 <= j < doc.definitions@.len() ==> (#[trigger] doc.definitions@[j] matches Definition::Fragment(f)
            ==> plain_items(f.selection_set.items, 0))
}

/// Whether every document is plain.
pub open spec fn plain_documents(docs: Seq<Document>) -> bool {
    forall|i: int| 0 <= i < docs.len() ==> plain_document(#[trigger] docs[i])
}

proof fn lemma_documents_observed(
    d: DraftModel,
    docs: Seq<Document>,
    i: int,
    frags: FragmentMap,
    depth: nat,
    upto: int,
)
    requires
        0 <= i <= upto <= docs.len(),
        no_unions(d),
        plain_documents(docs),
        plain_fragments(frags),
    ensures
        no_unions(walk_documents(d, docs.subrange(0, upto), i, frags, depth)),
    decreases upto - i,
{
    let part = docs.subrange(0, upto);
    if i < upto {
        assert(part[i] == docs[i]);
        assert(plain_document(docs[i]));
        let here = definitions_observations(docs[i].definitions@, 0, frags, depth);
        lemma_definitions_observed(d, docs[i].definitions@, 0, frags, depth);
        lemma_observe_keeps_unions(d, here, 0);
        lemma_documents_observed(walk_definitions(d, docs[i].definitions@, 0, frags, depth), docs, i + 1, frags, depth, upto);
    }
}

/// Walking the documents up to a position and then those after it is walking
/// all of them.
proof fn lemma_documents_split(d: DraftModel, docs: Seq<Document>, i: int, k: int, frags: FragmentMap, depth: nat)
    requires
        0 <= i <= k <= docs.len(),
    ensures
        walk_documents(d, docs, i, frags, depth) == walk_documents(
            walk_documents(d, docs.subrange(0, k), i, frags, depth),
            docs,
            k,
            frags,
            depth,
        ),
    decreases k - i,
{
    let part = docs.subrange(0, k);
    if i < k {
        assert(part[i] == docs[i]);
        lemma_documents_split(walk_definitions(d, docs[i].definitions@, 0, frags, depth), docs, i + 1, k, frags, depth);
    }
}

/// The documents from a position on are walked alike in two lists that
/// agree from there on.
proof fn lemma_documents_tail(d: DraftModel, a: Seq<Document>, b: Seq<Document>, k: int, frags: FragmentMap, depth: nat)
    requires
        0 <= k,
        a.len() == b.len(),
        forall|j: int| k <= j < a.len() ==> a[j] == b[j],
    ensures
        walk_documents(d, a, k, frags, depth) == walk_documents(d, b, k, frags, depth),
    decreases a.len() - k,
{
    if k < a.len() {
        lemma_documents_tail(walk_definitions(d, a[k].definitions@, 0, frags, depth), a, b, k + 1, frags, depth);
    }
}

/// The list with the documents at positions `i` and `i + 1` exchanged.
pub open spec fn exchanged(docs: Seq<Document>, i: int) -> Seq<Document> {
    docs.update(i, docs[i + 1]).update(i + 1, docs[i])
}

/// Walking two plain documents one after the other gives the same draft in
/// either order.
proof fn lemma_two_documents_commute(d: DraftModel, x: Document, y: Document, frags: FragmentMap, depth: nat)
    requires
        no_unions(d),
        plain_document(x),
        plain_document(y),
        plain_fragments(frags),
    ensures
        walk_definitions(walk_definitions(d, x.definitions@, 0, frags, depth), y.definitions@, 0, frags, depth)
            == walk_definitions(
            walk_definitions(d, y.definitions@, 0, frags, depth),
            x.definitions@,
            0,
            frags,
            depth,
        ),
{
    let a = definitions_observations(x.definitions@, 0, frags, depth);
    let b = definitions_observations(y.definitions@, 0, frags, depth);
    lemma_definitions_observed(d, x.definitions@, 0, frags, depth);
    lemma_definitions_observed(d, y.definitions@, 0, frags, depth);
    lemma_observe_keeps_unions(d, a, 0);
    lemma_observe_keeps_unions(d, b, 0);
    lemma_definitions_observed(observe_all(d, a, 0), y.definitions@, 0, frags, depth);
    lemma_definitions_observed(observe_all(d, b, 0), x.definitions@, 0, frags, depth);
    lemma_runs_commute(d, a, b, 0);
}

/// The fragments of plain documents are plain.
proof fn lemma_fragments_plain(docs: Seq<Document>)
    requires
        plain_documents(docs),
    ensures
        plain_fragments(all_fragments(docs)),
    decreases docs.len(),
{
    if docs.len() > 0 {
        let before = docs.drop_last();
        assert forall|i: int| 0 <= i < before.len() implies plain_document(#[trigger] before[i]) by {
            assert(before[i] == docs[i]);
        }
        lemma_fragments_plain(before);
        assert(plain_document(docs.last()));
        lemma_definitions_plain(all_fragments(before), docs.last().definitions@, docs.last().definitions@.len() as int);
        assert(docs.last().definitions@.subrange(0, docs.last().definitions@.len() as int) =~= docs.last().definitions@);
    }
}

proof fn lemma_definitions_plain(m: FragmentMap, defs: Seq<Definition>, upto: int)
    requires
        plain_fragments(m),
        0 <= upto <= defs.len(),
        forall|j: int|
            0 <= j < defs.len() ==> (#[trigger] defs[j] matches Definition::Fragment(f) ==> plain_items(
                f.selection_set.items,
                0,
            )),
    ensures
        plain_fragments(definitions_fragments(m, defs.subrange(0, upto))),
    decreases upto,
{
    let part = defs.subrange(0, upto);
    if upto > 0 {
        lemma_definitions_plain(m, defs, upto - 1);
        assert(part.drop_last() =~= defs.subrange(0, upto - 1));
        assert(part.last() == defs[upto - 1]);
    }
}

/// Order-independence for plain documents: where no document has
/// arguments or inline fragments, exchanging two neighbouring documents
/// that leave the fragments by name as they were gives the same draft.
pub proof fn lemma_order_of_plain_documents(docs: Seq<Document>, i: int)
    requires
        0 <= i,
        i + 1 < docs.len(),
        plain_documents(docs),
        all_fragments(exchanged(docs, i)) == all_fragments(docs),
    ensures
        walk_all(exchanged(docs, i)) == walk_all(docs),
{
    let other = exchanged(docs, i);
    let frags = all_fragments(docs);
    let names = in_order(frags.dom());
    let depth = names.len();
    let start = initial_model();
    lemma_fragments_plain(docs);
    assert(no_unions(start));

    // Up to position i the two lists agree.
    let before = walk_documents(start, docs.subrange(0, i), 0, frags, depth);
    assert(other.subrange(0, i) =~= docs.subrange(0, i));
    lemma_documents_split(start, docs, 0, i, frags, depth);
    lemma_documents_split(start, other, 0, i, frags, depth);
    lemma_documents_observed(start, docs, 0, frags, depth, i);

    // The two documents at positions i and i + 1 commute.
    assert(plain_document(docs[i]));
    assert(plain_document(docs[i + 1]));
    lemma_two_documents_commute(before, docs[i], docs[i + 1], frags, depth);
    let x = walk_definitions(before, docs[i].definitions@, 0, frags, depth);
    let after = walk_definitions(x, docs[i + 1].definitions@, 0, frags, depth);
    assert(walk_documents(before, docs, i, frags, depth) == walk_documents(after, docs, i + 2, frags, depth)) by {
        assert(walk_documents(before, docs, i, frags, depth) == walk_documents(x, docs, i + 1, frags, depth));
    }
    let y = walk_definitions(before, other[i].definitions@, 0, frags, depth);
    assert(walk_documents(before, other, i, frags, depth) == walk_documents(after, other, i + 2, frags, depth)) by {
        assert(walk_documents(before, other, i, frags, depth) == walk_documents(y, other, i + 1, frags, depth));
        assert(other[i] == docs[i + 1]);
        assert(other[i + 1] == docs[i]);
    }

    // From position i + 2 on they agree again.
    lemma_documents_tail(after, docs, other, i + 2, frags, depth);
}

} // verus!
