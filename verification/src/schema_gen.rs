//! The schema draft: the types, fields, arguments, unions and scalars that a
//! set of client documents implies, and the rules by which observations merge.

use crate::names::{lemma_value_updated, NameMap, NameSet};
use crate::text::str_eq;
use vstd::prelude::*;

verus! {

/// A type expression as a mathematical value.
pub enum TypeExpr {
    Named(Seq<char>),
    List(Box<TypeExpr>),
    NonNull(Box<TypeExpr>),
}

/// A type expression: a name, a list of a type, or a type that is never null.
#[derive(Debug, PartialEq, Eq, PartialOrd, Ord)]
pub enum TypeRef {
    Named(String),
    List(Box<TypeRef>),
    NonNull(Box<TypeRef>),
}

/// The mathematical value of a type expression.
pub open spec fn expr_of(t: TypeRef) -> TypeExpr
    decreases t,
{
    match t {
        TypeRef::Named(n) => TypeExpr::Named(n@),
        TypeRef::List(inner) => TypeExpr::List(Box::new(expr_of(*inner))),
        TypeRef::NonNull(inner) => TypeExpr::NonNull(Box::new(expr_of(*inner))),
    }
}

impl View for TypeRef {
    type V = TypeExpr;

    open spec fn view(&self) -> TypeExpr {
        expr_of(*self)
    }
}

impl Clone for TypeRef {
    fn clone(&self) -> (r: TypeRef)
        ensures
            r@ == self@,
        decreases self,
    {
        match self {
            TypeRef::Named(n) => TypeRef::Named(n.clone()),
            TypeRef::List(inner) => TypeRef::List(Box::new((**inner).clone())),
            TypeRef::NonNull(inner) => TypeRef::NonNull(Box::new((**inner).clone())),
        }
    }
}

/// The text of a type expression: `[T]` for a list, `T!` for a non-null type.
pub open spec fn type_text(t: TypeExpr) -> Seq<char>
    decreases t,
{
    match t {
        TypeExpr::Named(n) => n,
        TypeExpr::List(inner) => seq!['['] + type_text(*inner) + seq![']'],
        TypeExpr::NonNull(inner) => type_text(*inner) + seq!['!'],
    }
}

/// The opaque scalar that stands for an unknown or conflicting type.
pub open spec fn json_type() -> TypeExpr {
    TypeExpr::Named("JSON"@)
}

impl TypeRef {
    /// A named type.
    pub fn named(name: &str) -> (r: TypeRef)
        ensures
            r@ == TypeExpr::Named(name@),
    {
        TypeRef::Named(name.to_owned())
    }

    /// Whether two type expressions are the same expression.
    pub fn same(&self, other: &TypeRef) -> (b: bool)
        ensures
            b == (self@ == other@),
        decreases self,
    {
        match (self, other) {
            (TypeRef::Named(a), TypeRef::Named(b)) => str_eq(a.as_str(), b.as_str()),
            (TypeRef::List(a), TypeRef::List(b)) => a.same(b),
            (TypeRef::NonNull(a), TypeRef::NonNull(b)) => a.same(b),
            _ => false,
        }
    }
}

/// What is known of one field: its type and the types of its arguments.
pub struct FieldModel {
    pub ty: TypeExpr,
    pub args: Map<Seq<char>, TypeExpr>,
}

/// The draft as a mathematical value.
pub struct DraftModel {
    pub objects: Map<Seq<char>, Map<Seq<char>, FieldModel>>,
    pub inputs: Set<Seq<char>>,
    pub unions: Map<Seq<char>, Set<Seq<char>>>,
    pub scalars: Set<Seq<char>>,
}

/// The rule by which a second observation of a type merges with the first:
/// the same type stays, a different one widens to the opaque scalar.
pub open spec fn merged(seen: TypeExpr, ty: TypeExpr) -> TypeExpr {
    if seen == ty {
        seen
    } else {
        json_type()
    }
}

impl DraftModel {
    /// The draft with an object `name`, empty where it was not there.
    pub open spec fn ensure_object(self, name: Seq<char>) -> DraftModel {
        if self.objects.dom().contains(name) {
            self
        } else {
            DraftModel { objects: self.objects.insert(name, Map::empty()), ..self }
        }
    }

    /// The draft after `field` of `object` was observed with type `ty`.
    pub open spec fn add_field(self, object: Seq<char>, field: Seq<char>, ty: TypeExpr) -> DraftModel {
        let d = self.ensure_object(object);
        let fields = d.objects[object];
        let entry = if fields.dom().contains(field) {
            FieldModel { ty: merged(fields[field].ty, ty), args: fields[field].args }
        } else {
            FieldModel { ty, args: Map::empty() }
        };
        DraftModel { objects: d.objects.insert(object, fields.insert(field, entry)), ..d }
    }

    /// The draft after argument `arg` of `field` of `object` was observed with
    /// type `ty`. A field that was not there yet enters with the opaque scalar.
    pub open spec fn add_field_arg(
        self,
        object: Seq<char>,
        field: Seq<char>,
        arg: Seq<char>,
        ty: TypeExpr,
    ) -> DraftModel {
        let d = self.ensure_object(object);
        let fields = d.objects[object];
        let seen = if fields.dom().contains(field) {
            fields[field]
        } else {
            FieldModel { ty: json_type(), args: Map::empty() }
        };
        let arg_ty = if seen.args.dom().contains(arg) {
            merged(seen.args[arg], ty)
        } else {
            ty
        };
        let entry = FieldModel { ty: seen.ty, args: seen.args.insert(arg, arg_ty) };
        DraftModel { objects: d.objects.insert(object, fields.insert(field, entry)), ..d }
    }

    /// The draft in which each of `names` is an object type, empty where it
    /// was not there.
    pub open spec fn with_objects(self, names: Set<Seq<char>>) -> DraftModel {
        DraftModel {
            objects: Map::new(
                |k: Seq<char>| self.objects.dom().contains(k) || names.contains(k),
                |k: Seq<char>|
                    if self.objects.dom().contains(k) {
                        self.objects[k]
                    } else {
                        Map::<Seq<char>, FieldModel>::empty()
                    },
            ),
            ..self
        }
    }

    /// The draft after `members` were seen under the union `name`: each is an
    /// object type, and the union has them beside the members it had.
    pub open spec fn with_union(self, name: Seq<char>, members: Set<Seq<char>>) -> DraftModel {
        DraftModel {
            unions: self.unions.insert(
                name,
                if self.unions.dom().contains(name) {
                    self.unions[name].union(members)
                } else {
                    members
                },
            ),
            ..self.with_objects(members)
        }
    }
}

/// One field of an object type.
#[derive(Debug, Clone)]
pub struct FieldDef {
    pub name: String,
    pub ty: TypeRef,
    pub args: NameMap<TypeRef>,
}

/// The argument table of a field as a map.
pub open spec fn args_model(args: NameMap<TypeRef>) -> Map<Seq<char>, TypeExpr> {
    Map::new(|k: Seq<char>| args.has(k), |k: Seq<char>| args.value_of(k)@)
}

impl View for FieldDef {
    type V = FieldModel;

    open spec fn view(&self) -> FieldModel {
        FieldModel { ty: self.ty@, args: args_model(self.args) }
    }
}

/// The field table of an object as a map.
pub open spec fn fields_model(fields: NameMap<FieldDef>) -> Map<Seq<char>, FieldModel> {
    Map::new(|k: Seq<char>| fields.has(k), |k: Seq<char>| fields.value_of(k)@)
}

/// A field table is in order, and each field carries the name it stands under.
pub open spec fn fields_wf(fields: NameMap<FieldDef>) -> bool {
    &&& fields.wf()
    &&& forall|j: int|
        0 <= j < fields.values().len() ==> {
            &&& (#[trigger] fields.values()[j]).args.wf()
            &&& fields.values()[j].name@ == fields.names()[j]
        }
}

/// The accumulating description of a schema.
#[derive(Debug)]
pub struct SchemaDraft {
    pub objects: NameMap<NameMap<FieldDef>>,
    pub inputs: NameSet,
    pub unions: NameMap<NameSet>,
    pub scalars: NameSet,
}

impl View for SchemaDraft {
    type V = DraftModel;

    open spec fn view(&self) -> DraftModel {
        DraftModel {
            objects: Map::new(
                |k: Seq<char>| self.objects.has(k),
                |k: Seq<char>| fields_model(self.objects.value_of(k)),
            ),
            inputs: self.inputs@,
            unions: Map::new(|k: Seq<char>| self.unions.has(k), |k: Seq<char>| self.unions.value_of(k)@),
            scalars: self.scalars@,
        }
    }
}

impl SchemaDraft {
    /// Every table of the draft is in order, at every level.
    pub open spec fn wf(&self) -> bool {
        &&& self.objects.wf()
        &&& forall|i: int| 0 <= i < self.objects.values().len() ==> fields_wf(#[trigger] self.objects.values()[i])
        &&& self.inputs.wf()
        &&& self.unions.wf()
        &&& forall|i: int| 0 <= i < self.unions.values().len() ==> (#[trigger] self.unions.values()[i]).wf()
        &&& self.scalars.wf()
    }

    /// An empty draft.
    pub fn new() -> (r: SchemaDraft)
        ensures
            r.wf(),
            r@.objects == Map::<Seq<char>, Map<Seq<char>, FieldModel>>::empty(),
            r@.inputs == Set::<Seq<char>>::empty(),
            r@.unions == Map::<Seq<char>, Set<Seq<char>>>::empty(),
            r@.scalars == Set::<Seq<char>>::empty(),
    {
        let r = SchemaDraft {
            objects: NameMap::new(),
            inputs: NameSet::new(),
            unions: NameMap::new(),
            scalars: NameSet::new(),
        };
        assert(r@.objects =~= Map::<Seq<char>, Map<Seq<char>, FieldModel>>::empty());
        assert(r@.unions =~= Map::<Seq<char>, Set<Seq<char>>>::empty());
        r
    }

    /// Makes sure that the draft has an object type `name`.
    pub fn ensure_object(&mut self, name: &str)
        requires
            old(self).wf(),
        ensures
            final(self).wf(),
            final(self)@ == old(self)@.ensure_object(name@),
    {
        if self.objects.find(name).is_none() {
            let ghost before = self.objects;
            let pos = self.objects.insert_new(name, NameMap::new());
            proof {
                assert forall|i: int| 0 <= i < self.objects.values().len() implies fields_wf(
                    #[trigger] self.objects.values()[i],
                ) by {
                    if i < pos {
                        assert(self.objects.values()[i] == before.values()[i]);
                    } else if i > pos {
                        assert(self.objects.values()[i] == before.values()[i - 1]);
                    }
                }
                assert(fields_model(self.objects.value_of(name@)) =~= Map::empty());
                assert(self@.objects =~= old(self)@.objects.insert(name@, Map::empty()));
            }
        }
    }

    /// Records that `field_name` of `object` was seen with type `ty`.
    ///
    /// A field seen before with the same type stays as it is; one seen with
    /// another type widens to the opaque scalar, and stays there.
    pub fn add_field(&mut self, object: &str, field_name: &str, ty: TypeRef)
        requires
            old(self).wf(),
        ensures
            final(self).wf(),
            final(self)@ == old(self)@.add_field(object@, field_name@, ty@),
    {
        self.ensure_object(object);
        let ghost mid = *self;
        assert(self@.objects.dom().contains(object@));
        assert(self.objects.has(object@));
        let oi = self.objects.find(object).unwrap();
        let fields = self.objects.value_mut(oi);
        let ghost fields0 = *fields;
        let ghost entry = if fields_model(fields0).dom().contains(field_name@) {
            FieldModel {
                ty: merged(fields_model(fields0)[field_name@].ty, ty@),
                args: fields_model(fields0)[field_name@].args,
            }
        } else {
            FieldModel { ty: ty@, args: Map::empty() }
        };
        match fields.find(field_name) {
            Some(fi) => {
                let existing = fields.value_mut(fi);
                if !existing.ty.same(&ty) {
                    existing.ty = TypeRef::named("JSON");
                }
                proof {
                    lemma_value_updated(fields0, *fields, fi as int);
                    assert(fields.values()[fi as int].args == fields0.values()[fi as int].args);
                    assert(fields_model(*fields) =~= fields_model(fields0).insert(field_name@, entry));
                }
            },
            None => {
                let pos = fields.insert_new(
                    field_name,
                    FieldDef { name: field_name.to_owned(), ty, args: NameMap::new() },
                );
                proof {
                    assert(args_model(fields.values()[pos as int].args) =~= Map::empty());
                    assert(fields_model(*fields) =~= fields_model(fields0).insert(field_name@, entry));
                    assert forall|j: int| 0 <= j < fields.values().len() implies {
                        &&& (#[trigger] fields.values()[j]).args.wf()
                        &&& fields.values()[j].name@ == fields.names()[j]
                    } by {
                        if j < pos {
                            assert(fields.values()[j] == fields0.values()[j]);
                        } else if j > pos {
                            assert(fields.values()[j] == fields0.values()[j - 1]);
                        }
                    }
                }
            },
        }
        proof {
            lemma_fields_updated(mid, *self, oi as int, object@);
        }
    }

    /// Records that argument `arg_name` of `field_name` of `object` was seen
    /// with type `ty`, by the same rule as for a field's own type.
    ///
    /// A field that was not registered yet enters with the opaque scalar as
    /// its type.
    pub fn add_field_arg(&mut self, object: &str, field_name: &str, arg_name: &str, ty: TypeRef)
        requires
            old(self).wf(),
        ensures
            final(self).wf(),
            final(self)@ == old(self)@.add_field_arg(object@, field_name@, arg_name@, ty@),
    {
        self.ensure_object(object);
        let ghost mid = *self;
        assert(self@.objects.dom().contains(object@));
        assert(self.objects.has(object@));
        let oi = self.objects.find(object).unwrap();
        let fields = self.objects.value_mut(oi);
        let ghost fields0 = *fields;
        let ghost seen = if fields_model(fields0).dom().contains(field_name@) {
            fields_model(fields0)[field_name@]
        } else {
            FieldModel { ty: json_type(), args: Map::empty() }
        };
        let ghost arg_ty = if seen.args.dom().contains(arg_name@) {
            merged(seen.args[arg_name@], ty@)
        } else {
            ty@
        };
        let ghost entry = FieldModel { ty: seen.ty, args: seen.args.insert(arg_name@, arg_ty) };
        let fi = match fields.find(field_name) {
            Some(fi) => fi,
            None => {
                let pos = fields.insert_new(
                    field_name,
                    FieldDef {
                        name: field_name.to_owned(),
                        ty: TypeRef::named("JSON"),
                        args: NameMap::new(),
                    },
                );
                proof {
                    assert(args_model(fields.values()[pos as int].args) =~= Map::empty());
                    assert forall|j: int| 0 <= j < fields.values().len() implies {
                        &&& (#[trigger] fields.values()[j]).args.wf()
                        &&& fields.values()[j].name@ == fields.names()[j]
                    } by {
                        if j < pos {
                            assert(fields.values()[j] == fields0.values()[j]);
                        } else if j > pos {
                            assert(fields.values()[j] == fields0.values()[j - 1]);
                        }
                    }
                }
                pos
            },
        };
        let ghost fields1 = *fields;
        assert(fields_wf(fields1));
        assert(fields1.value_of(field_name@)@ == seen);
        assert(fields_model(fields1) =~= fields_model(fields0).insert(field_name@, seen));
        let field = fields.value_mut(fi);
        let ghost args0 = field.args;
        match field.args.find(arg_name) {
            Some(ai) => {
                let existing = field.args.value_mut(ai);
                if !existing.same(&ty) {
                    *existing = TypeRef::named("JSON");
                }
                proof {
                    lemma_value_updated(args0, field.args, ai as int);
                }
            },
            None => {
                field.args.insert_new(arg_name, ty);
            },
        }
        proof {
            assert(args_model(field.args) =~= args_model(args0).insert(arg_name@, arg_ty));
            lemma_value_updated(fields1, *fields, fi as int);
            assert(fields_model(*fields) =~= fields_model(fields1).insert(field_name@, entry));
            assert(fields_model(*fields) =~= fields_model(fields0).insert(field_name@, entry));
            lemma_fields_updated(mid, *self, oi as int, object@);
        }
    }

    /// Records that the types in `members` were seen under the union `name`:
    /// each becomes an object type, and the union gains those it did not have.
    pub fn add_union(&mut self, name: &str, members: &NameSet)
        requires
            old(self).wf(),
            members.wf(),
        ensures
            final(self).wf(),
            final(self)@ == old(self)@.with_union(name@, members@),
    {
        let ghost start = self@;
        let ghost listing = members.listing();
        let n = members.len();
        let mut i: usize = 0;
        assert(self@.objects =~= start.with_objects(listing.subrange(0, 0).to_set()).objects);
        while i < n
            invariant
                i <= n,
                n == listing.len(),
                listing == members.listing(),
                self.wf(),
                self@ == start.with_objects(listing.subrange(0, i as int).to_set()),
            decreases n - i,
        {
            let ghost before = self@;
            self.ensure_object(members.name(i));
            proof {
                let done = listing.subrange(0, i as int);
                let next = listing.subrange(0, i as int + 1);
                assert(next =~= done.push(listing[i as int]));
                assert(next.to_set() =~= done.to_set().insert(listing[i as int])) by {
                    assert forall|x: Seq<char>| next.to_set().contains(x) <==> done.to_set().insert(
                        listing[i as int],
                    ).contains(x) by {
                        if next.contains(x) {
                            let j = choose|j: int| 0 <= j < next.len() && next[j] == x;
                            if j < i {
                                assert(done[j] == x);
                            }
                        }
                        if done.contains(x) {
                            let j = choose|j: int| 0 <= j < done.len() && done[j] == x;
                            assert(next[j] == x);
                        }
                        if x == listing[i as int] {
                            assert(next[i as int] == x);
                        }
                    }
                }
                assert(self@.objects =~= start.with_objects(next.to_set()).objects);
            }
            i = i + 1;
        }
        assert(listing.subrange(0, n as int) =~= listing);
        let ghost mid = *self;
        let ui = match self.unions.find(name) {
            Some(ui) => ui,
            None => {
                let ghost unions0 = self.unions;
                let pos = self.unions.insert_new(name, NameSet::new());
                proof {
                    assert forall|k: int| 0 <= k < self.unions.values().len() implies (
                    #[trigger] self.unions.values()[k]).wf() by {
                        if k < pos {
                            assert(self.unions.values()[k] == unions0.values()[k]);
                        } else if k > pos {
                            assert(self.unions.values()[k] == unions0.values()[k - 1]);
                        }
                    }
                }
                pos
            },
        };
        let ghost unions1 = self.unions;
        let ghost had = if mid.unions.has(name@) {
            mid.unions.value_of(name@)@
        } else {
            Set::<Seq<char>>::empty()
        };
        assert(unions1.value_of(name@)@ =~= had);
        let set = self.unions.value_mut(ui);
        let mut i: usize = 0;
        while i < n
            invariant
                i <= n,
                n == listing.len(),
                listing == members.listing(),
                set.wf(),
                set@ == had.union(listing.subrange(0, i as int).to_set()),
            decreases n - i,
        {
            set.insert(members.name(i));
            proof {
                let done = listing.subrange(0, i as int);
                let next = listing.subrange(0, i as int + 1);
                assert(next =~= done.push(listing[i as int]));
                assert forall|x: Seq<char>| next.to_set().contains(x) <==> done.to_set().insert(
                    listing[i as int],
                ).contains(x) by {
                    if next.contains(x) {
                        let j = choose|j: int| 0 <= j < next.len() && next[j] == x;
                        if j < i {
                            assert(done[j] == x);
                        }
                    }
                    if done.contains(x) {
                        let j = choose|j: int| 0 <= j < done.len() && done[j] == x;
                        assert(next[j] == x);
                    }
                    if x == listing[i as int] {
                        assert(next[i as int] == x);
                    }
                }
                assert(set@ =~= had.union(next.to_set()));
            }
            i = i + 1;
        }
        proof {
            assert(listing.subrange(0, n as int) =~= listing);
            lemma_value_updated(unions1, self.unions, ui as int);
            let goal = start.with_union(name@, members@).unions;
            assert(mid@.unions == start.unions);
            assert(self.unions.value_of(name@)@ =~= goal[name@]);
            assert forall|k: Seq<char>| self@.unions.dom().contains(k) <==> goal.dom().contains(k) by {
                assert(mid@.unions.dom().contains(k) == mid.unions.has(k));
            }
            assert forall|k: Seq<char>| self@.unions.dom().contains(k) implies self@.unions[k] == goal[k] by {
                if k != name@ {
                    assert(mid@.unions.dom().contains(k) == mid.unions.has(k));
                    assert(self.unions.value_of(k) == unions1.value_of(k));
                    assert(unions1.value_of(k) == mid.unions.value_of(k));
                    assert(mid@.unions[k] == mid.unions.value_of(k)@);
                }
            }
            assert(self@.unions =~= goal);
            assert(self@.objects =~= start.with_union(name@, members@).objects);
        }
    }
}

/// A draft in which one object's field table was replaced, seen as a model.
proof fn lemma_fields_updated(before: SchemaDraft, after: SchemaDraft, oi: int, object: Seq<char>)
    requires
        before.objects.wf(),
        0 <= oi < before.objects.names().len(),
        before.objects.names()[oi] == object,
        after.objects.names() == before.objects.names(),
        after.objects.values() == before.objects.values().update(oi, after.objects.values()[oi]),
        after.inputs == before.inputs,
        after.unions == before.unions,
        after.scalars == before.scalars,
    ensures
        after@ == (DraftModel {
            objects: before@.objects.insert(object, fields_model(after.objects.values()[oi])),
            ..before@
        }),
        before@.objects.dom().contains(object),
        before@.objects[object] == fields_model(before.objects.values()[oi]),
{
    crate::names::lemma_index_unique(before.objects.names(), oi);
    assert forall|k: Seq<char>| before.objects.has(k) && k != object implies after.objects.value_of(k)
        == before.objects.value_of(k) by {
        let i = crate::names::index_of(before.objects.names(), k);
        assert(i != oi);
    }
    assert(after@.objects =~= before@.objects.insert(object, fields_model(after.objects.values()[oi])));
}

} // verus!
