//! What holds of the merge rules of the draft, whatever was observed before.

use crate::document::SelectionSet;
use crate::growth::{grows, lemma_walk_set_grows};
use crate::schema_gen::{json_type, DraftModel, TypeExpr};
use crate::walker::{walk_set, FragmentMap};
use vstd::prelude::*;

verus! {

/// After a field was observed, the draft has it under its object.
pub proof fn lemma_add_field_registers(d: DraftModel, object: Seq<char>, field: Seq<char>, ty: TypeExpr)
    ensures
        d.add_field(object, field, ty).objects.dom().contains(object),
        d.add_field(object, field, ty).objects[object].dom().contains(field),
        !(d.objects.dom().contains(object) && d.objects[object].dom().contains(field)) ==> d.add_field(
            object,
            field,
            ty,
        ).objects[object][field].ty == ty,
{
}

/// Observing a field again with the type it has changes nothing.
pub proof fn lemma_add_field_idempotent(d: DraftModel, object: Seq<char>, field: Seq<char>, ty: TypeExpr)
    ensures
        d.add_field(object, field, ty).add_field(object, field, ty) == d.add_field(object, field, ty),
{
    let once = d.add_field(object, field, ty);
    let twice = once.add_field(object, field, ty);
    assert(twice.objects[object] =~= once.objects[object]);
    assert(twice.objects =~= once.objects);
}

/// Conflict widening: a field observed with two different types has the
/// opaque scalar as its type, whatever the draft held before.
pub proof fn lemma_conflict_widens(
    d: DraftModel,
    object: Seq<char>,
    field: Seq<char>,
    first: TypeExpr,
    second: TypeExpr,
)
    requires
        first != second,
    ensures
        d.add_field(object, field, first).add_field(object, field, second).objects[object][field].ty
            == json_type(),
{
}

/// Widening is permanent: a field that has the opaque scalar keeps it
/// through every later observation of the field.
pub proof fn lemma_widening_stays(d: DraftModel, object: Seq<char>, field: Seq<char>, ty: TypeExpr)
    requires
        d.objects.dom().contains(object),
        d.objects[object].dom().contains(field),
        d.objects[object][field].ty == json_type(),
    ensures
        d.add_field(object, field, ty).objects[object][field].ty == json_type(),
{
}

/// The same for an argument: observed with two different types, it has the
/// opaque scalar as its type.
pub proof fn lemma_argument_conflict_widens(
    d: DraftModel,
    object: Seq<char>,
    field: Seq<char>,
    arg: Seq<char>,
    first: TypeExpr,
    second: TypeExpr,
)
    requires
        first != second,
    ensures
        d.add_field_arg(object, field, arg, first).add_field_arg(object, field, arg, second).objects[object][field].args[arg]
            == json_type(),
{
}

/// Two observations of field types give the same draft in either order.
pub proof fn lemma_add_field_commutes(
    d: DraftModel,
    object_a: Seq<char>,
    field_a: Seq<char>,
    ty_a: TypeExpr,
    object_b: Seq<char>,
    field_b: Seq<char>,
    ty_b: TypeExpr,
)
    ensures
        d.add_field(object_a, field_a, ty_a).add_field(object_b, field_b, ty_b) == d.add_field(
            object_b,
            field_b,
            ty_b,
        ).add_field(object_a, field_a, ty_a),
{
    let ab = d.add_field(object_a, field_a, ty_a).add_field(object_b, field_b, ty_b);
    let ba = d.add_field(object_b, field_b, ty_b).add_field(object_a, field_a, ty_a);
    assert forall|t: Seq<char>| ab.objects.dom().contains(t) implies #[trigger] ab.objects[t]
        =~= ba.objects[t] by {}
    assert(ab.objects =~= ba.objects);
}

/// Two observations of argument types give the same draft in either order.
pub proof fn lemma_add_field_arg_commutes(
    d: DraftModel,
    object_a: Seq<char>,
    field_a: Seq<char>,
    arg_a: Seq<char>,
    ty_a: TypeExpr,
    object_b: Seq<char>,
    field_b: Seq<char>,
    arg_b: Seq<char>,
    ty_b: TypeExpr,
)
    ensures
        d.add_field_arg(object_a, field_a, arg_a, ty_a).add_field_arg(object_b, field_b, arg_b, ty_b)
            == d.add_field_arg(object_b, field_b, arg_b, ty_b).add_field_arg(object_a, field_a, arg_a, ty_a),
{
    let ab = d.add_field_arg(object_a, field_a, arg_a, ty_a).add_field_arg(object_b, field_b, arg_b, ty_b);
    let ba = d.add_field_arg(object_b, field_b, arg_b, ty_b).add_field_arg(object_a, field_a, arg_a, ty_a);
    assert forall|t: Seq<char>| ab.objects.dom().contains(t) implies #[trigger] ab.objects[t]
        =~= ba.objects[t] by {
        assert forall|f: Seq<char>| ab.objects[t].dom().contains(f) implies #[trigger] ab.objects[t][f].args
            =~= ba.objects[t][f].args by {}
        assert(ab.objects[t].dom() =~= ba.objects[t].dom());
        assert forall|f: Seq<char>| ab.objects[t].dom().contains(f) implies #[trigger] ab.objects[t][f]
            == ba.objects[t][f] by {
            assert(ab.objects[t][f].args =~= ba.objects[t][f].args);
        }
    }
    assert(ab.objects =~= ba.objects);
}

/// Making sure of two object types gives the same draft in either order.
pub proof fn lemma_ensure_object_commutes(d: DraftModel, a: Seq<char>, b: Seq<char>)
    ensures
        d.ensure_object(a).ensure_object(b) == d.ensure_object(b).ensure_object(a),
{
    assert(d.ensure_object(a).ensure_object(b).objects =~= d.ensure_object(b).ensure_object(a).objects);
}

/// Two unions registered give the same draft in either order.
pub proof fn lemma_with_union_commutes(
    d: DraftModel,
    name_a: Seq<char>,
    members_a: Set<Seq<char>>,
    name_b: Seq<char>,
    members_b: Set<Seq<char>>,
)
    ensures
        d.with_union(name_a, members_a).with_union(name_b, members_b) == d.with_union(
            name_b,
            members_b,
        ).with_union(name_a, members_a),
{
    let ab = d.with_union(name_a, members_a).with_union(name_b, members_b);
    let ba = d.with_union(name_b, members_b).with_union(name_a, members_a);
    assert(ab.objects =~= ba.objects);
    assert forall|u: Seq<char>| ab.unions.dom().contains(u) implies #[trigger] ab.unions[u] =~= ba.unions[u] by {}
    assert(ab.unions =~= ba.unions);
}

/// A conflict outlasts every walk: where a field was observed with two
/// different types, its type is the opaque scalar after any walk that
/// follows.
pub proof fn lemma_conflict_outlasts_walk(
    d: DraftModel,
    object: Seq<char>,
    field: Seq<char>,
    first: TypeExpr,
    second: TypeExpr,
    ty: Seq<char>,
    ss: SelectionSet,
    frags: FragmentMap,
    vars: Map<Seq<char>, TypeExpr>,
    open: Set<Seq<char>>,
    depth: nat,
)
    requires
        first != second,
    ensures
        ({
            let widened = d.add_field(object, field, first).add_field(object, field, second);
            let end = walk_set(widened, ty, ss, frags, vars, open, depth);
            end.objects.dom().contains(object) && end.objects[object].dom().contains(field)
                && end.objects[object][field].ty == json_type()
        }),
{
    let widened = d.add_field(object, field, first).add_field(object, field, second);
    lemma_conflict_widens(d, object, field, first, second);
    lemma_walk_set_grows(widened, ty, ss, frags, vars, open, depth);
    assert(widened.objects.dom().contains(object));
    assert(widened.objects[object].dom().contains(field));
    assert(grows(widened, walk_set(widened, ty, ss, frags, vars, open, depth)));
}

} // verus!
