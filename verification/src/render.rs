//! The text of a schema draft in the schema definition language.

use crate::names::{lemma_ascending_unique, lemma_same_names, NameMap, NameSet};
use crate::schema_gen::{args_model, fields_model, fields_wf, type_text, FieldDef, SchemaDraft, TypeRef};
use crate::text::push_char;
use vstd::prelude::*;
use vstd::string::StringExecFns;

verus! {

/// Appends the text of a type expression to `out`.
pub fn put_type_ref(out: &mut String, ty: &TypeRef)
    ensures
        final(out)@ == old(out)@ + type_text(ty@),
    decreases ty,
{
    match ty {
        TypeRef::Named(n) => {
            out.append(n.as_str());
        },
        TypeRef::List(inner) => {
            let ghost start = out@;
            push_char(out, '[');
            put_type_ref(out, inner);
            push_char(out, ']');
            assert(out@ =~= start + (seq!['['] + type_text(inner@) + seq![']']));
        },
        TypeRef::NonNull(inner) => {
            let ghost start = out@;
            put_type_ref(out, inner);
            push_char(out, '!');
            assert(out@ =~= start + (type_text(inner@) + seq!['!']));
        },
    }
}

/// The text of a type expression.
pub fn render_type_ref(ty: &TypeRef) -> (r: String)
    ensures
        r@ == type_text(ty@),
{
    let mut out = String::new();
    put_type_ref(&mut out, ty);
    assert(out@ =~= type_text(ty@));
    out
}

/// `out` followed by the arguments from position `i` on, each as
/// `name: Type`, with `, ` before every one but the first of the table.
pub open spec fn with_arg_list(out: Seq<char>, args: NameMap<TypeRef>, i: int) -> Seq<char>
    decreases args.names().len() - i,
{
    if 0 <= i < args.names().len() {
        let sep = if i == 0 {
            Seq::<char>::empty()
        } else {
            ", "@
        };
        with_arg_list(
            out + sep + args.names()[i] + ": "@ + type_text(args.values()[i]@),
            args,
            i + 1,
        )
    } else {
        out
    }
}

/// The argument list of a field in parentheses, or nothing where the field
/// has no arguments.
pub open spec fn args_text(args: NameMap<TypeRef>) -> Seq<char> {
    if args.names().len() == 0 {
        Seq::empty()
    } else {
        with_arg_list("("@, args, 0) + ")"@
    }
}

/// The argument list of a field as the schema text shows it.
pub fn render_args(args: &NameMap<TypeRef>) -> (r: String)
    requires
        args.wf(),
    ensures
        r@ == args_text(*args),
{
    if args.is_empty() {
        return String::new();
    }
    let mut out = String::from_str("(");
    let ghost goal = with_arg_list(out@, *args, 0);
    let mut i: usize = 0;
    while i < args.len()
        invariant
            i <= args.names().len(),
            args.wf(),
            with_arg_list(out@, *args, i as int) == goal,
        decreases args.names().len() - i,
    {
        if i > 0 {
            out.append(", ");
        } else {
            assert(out@ + Seq::<char>::empty() =~= out@);
        }
        out.append(args.key(i));
        out.append(": ");
        put_type_ref(&mut out, args.value(i));
        i = i + 1;
    }
    out.append(")");
    out
}

/// `out` followed by one line for each field from position `i` on.
pub open spec fn with_fields(out: Seq<char>, fields: NameMap<FieldDef>, i: int) -> Seq<char>
    decreases fields.names().len() - i,
{
    if 0 <= i < fields.names().len() {
        with_fields(
            out + "  "@ + fields.names()[i] + args_text(fields.values()[i].args) + ": "@ + type_text(
                fields.values()[i].ty@,
            ) + "\n"@,
            fields,
            i + 1,
        )
    } else {
        out
    }
}

/// `out` followed by the declaration of one object type. An object without
/// fields is declared with a placeholder field.
pub open spec fn with_object(out: Seq<char>, name: Seq<char>, fields: NameMap<FieldDef>) -> Seq<char> {
    let head = out + "type "@ + name + " {\n"@;
    let body = if fields.names().len() == 0 {
        head + "  _placeholder: JSON\n"@
    } else {
        with_fields(head, fields, 0)
    };
    body + "}\n\n"@
}

/// `out` followed by the object types from position `i` on. `Mutation` is
/// left out while it has no field.
pub open spec fn with_objects(out: Seq<char>, objects: NameMap<NameMap<FieldDef>>, i: int) -> Seq<char>
    decreases objects.names().len() - i,
{
    if 0 <= i < objects.names().len() {
        let next = if objects.names()[i] == "Mutation"@ && objects.values()[i].names().len() == 0 {
            out
        } else {
            with_object(out, objects.names()[i], objects.values()[i])
        };
        with_objects(next, objects, i + 1)
    } else {
        out
    }
}

/// `out` followed by the members from position `i` on, with ` | ` between.
pub open spec fn with_members(out: Seq<char>, members: Seq<Seq<char>>, i: int) -> Seq<char>
    decreases members.len() - i,
{
    if 0 <= i < members.len() {
        let sep = if i == 0 {
            Seq::<char>::empty()
        } else {
            " | "@
        };
        with_members(out + sep + members[i], members, i + 1)
    } else {
        out
    }
}

/// `out` followed by the unions from position `i` on.
pub open spec fn with_unions(out: Seq<char>, unions: NameMap<NameSet>, i: int) -> Seq<char>
    decreases unions.names().len() - i,
{
    if 0 <= i < unions.names().len() {
        with_unions(
            with_members(out + "union "@ + unions.names()[i] + " = "@, unions.values()[i].listing(), 0)
                + "\n\n"@,
            unions,
            i + 1,
        )
    } else {
        out
    }
}

/// `out` followed by one line for each name from position `i` on: `before`,
/// the name, `after`.
pub open spec fn with_lines(
    out: Seq<char>,
    before: Seq<char>,
    names: Seq<Seq<char>>,
    after: Seq<char>,
    i: int,
) -> Seq<char>
    decreases names.len() - i,
{
    if 0 <= i < names.len() {
        with_lines(out + before + names[i] + after, before, names, after, i + 1)
    } else {
        out
    }
}

/// The paths of the sources, in order.
pub open spec fn source_paths(sources: Seq<(String, String)>) -> Seq<Seq<char>> {
    Seq::new(sources.len(), |i: int| sources[i].0@)
}

/// Whether the draft has a `Mutation` type with a field.
pub open spec fn has_mutation(draft: SchemaDraft) -> bool {
    draft.objects.has("Mutation"@) && draft.objects.value_of("Mutation"@).names().len() > 0
}

/// The schema text of a draft: a header that lists the sources, the scalars,
/// the schema line, the unions, the object types and the input stubs.
pub open spec fn schema_text(draft: SchemaDraft, paths: Seq<Seq<char>>) -> Seq<char> {
    let header = header_text(paths);
    let scalars = with_lines(header, "scalar "@, draft.scalars.listing(), "\n"@, 0) + "\n"@;
    let schema = scalars + (if has_mutation(draft) {
        "schema { query: Query mutation: Mutation }\n\n"@
    } else {
        "schema { query: Query }\n\n"@
    });
    let unions = with_unions(schema, draft.unions, 0);
    let objects = with_objects(unions, draft.objects, 0);
    with_lines(objects, "input "@, draft.inputs.listing(), " {\n  _stub: JSON\n}\n\n"@, 0)
}

/// Appends one line for each name of `names`.
fn put_lines(out: &mut String, before: &str, names: &NameSet, after: &str)
    ensures
        final(out)@ == with_lines(old(out)@, before@, names.listing(), after@, 0),
{
    let ghost goal = with_lines(out@, before@, names.listing(), after@, 0);
    let mut i: usize = 0;
    while i < names.len()
        invariant
            i <= names.listing().len(),
            with_lines(out@, before@, names.listing(), after@, i as int) == goal,
        decreases names.listing().len() - i,
    {
        out.append(before);
        out.append(names.name(i));
        out.append(after);
        i = i + 1;
    }
}

/// Renders the draft as schema text, with the paths of `sources` in the header.
pub fn render_schema(draft: &SchemaDraft, sources: &Vec<(String, String)>) -> (r: String)
    requires
        draft.wf(),
    ensures
        r@ == schema_text(*draft, source_paths(sources@)),
{
    let mut out = String::new();
    out.append("# Generated stub schema (best-effort)\n");
    out.append("# Source docs:\n");
    assert(out@ =~= "# Generated stub schema (best-effort)\n"@ + "# Source docs:\n"@);
    let ghost paths = source_paths(sources@);
    let ghost goal = with_lines(out@, "# - "@, paths, "\n"@, 0);
    let mut i: usize = 0;
    while i < sources.len()
        invariant
            i <= sources.len(),
            paths == source_paths(sources@),
            with_lines(out@, "# - "@, paths, "\n"@, i as int) == goal,
        decreases sources.len() - i,
    {
        out.append("# - ");
        out.append(sources[i].0.as_str());
        out.append("\n");
        i = i + 1;
    }
    out.append("\n");

    put_lines(&mut out, "scalar ", &draft.scalars, "\n");
    out.append("\n");

    let has_mutation = match draft.objects.find("Mutation") {
        Some(pos) => !draft.objects.value(pos).is_empty(),
        None => false,
    };
    if has_mutation {
        out.append("schema { query: Query mutation: Mutation }\n\n");
    } else {
        out.append("schema { query: Query }\n\n");
    }

    let ghost goal = with_unions(out@, draft.unions, 0);
    let mut i: usize = 0;
    while i < draft.unions.len()
        invariant
            i <= draft.unions.names().len(),
            draft.wf(),
            with_unions(out@, draft.unions, i as int) == goal,
        decreases draft.unions.names().len() - i,
    {
        out.append("union ");
        out.append(draft.unions.key(i));
        out.append(" = ");
        let members = draft.unions.value(i);
        let ghost inner = with_members(out@, members.listing(), 0);
        let mut k: usize = 0;
        while k < members.len()
            invariant
                k <= members.listing().len(),
                with_members(out@, members.listing(), k as int) == inner,
            decreases members.listing().len() - k,
        {
            if k > 0 {
                out.append(" | ");
            } else {
                assert(out@ + Seq::<char>::empty() =~= out@);
            }
            out.append(members.name(k));
            k = k + 1;
        }
        out.append("\n\n");
        i = i + 1;
    }

    let ghost goal = with_objects(out@, draft.objects, 0);
    let mut i: usize = 0;
    while i < draft.objects.len()
        invariant
            i <= draft.objects.names().len(),
            draft.wf(),
            with_objects(out@, draft.objects, i as int) == goal,
        decreases draft.objects.names().len() - i,
    {
        let object_name = draft.objects.key(i);
        let fields = draft.objects.value(i);
        let skip = crate::text::str_eq(object_name, "Mutation") && fields.is_empty();
        if !skip {
            out.append("type ");
            out.append(object_name);
            out.append(" {\n");
            if fields.is_empty() {
                out.append("  _placeholder: JSON\n");
            } else {
                let ghost inner = with_fields(out@, *fields, 0);
                let mut k: usize = 0;
                while k < fields.len()
                    invariant
                        k <= fields.names().len(),
                        crate::schema_gen::fields_wf(*fields),
                        with_fields(out@, *fields, k as int) == inner,
                    decreases fields.names().len() - k,
                {
                    let field = fields.value(k);
                    out.append("  ");
                    out.append(fields.key(k));
                    let args = render_args(&field.args);
                    out.append(args.as_str());
                    out.append(": ");
                    put_type_ref(&mut out, &field.ty);
                    out.append("\n");
                    k = k + 1;
                }
            }
            out.append("}\n\n");
        }
        i = i + 1;
    }

    put_lines(&mut out, "input ", &draft.inputs, " {\n  _stub: JSON\n}\n\n");
    out
}

proof fn lemma_arg_list_alike(out: Seq<char>, a: NameMap<TypeRef>, b: NameMap<TypeRef>, i: int)
    requires
        a.names() == b.names(),
        a.wf(),
        b.wf(),
        forall|j: int| 0 <= j < a.names().len() ==> (#[trigger] a.values()[j])@ == b.values()[j]@,
    ensures
        with_arg_list(out, a, i) == with_arg_list(out, b, i),
    decreases a.names().len() - i,
{
    if 0 <= i < a.names().len() {
        let sep = if i == 0 {
            Seq::<char>::empty()
        } else {
            ", "@
        };
        assert(a.values()[i]@ == b.values()[i]@);
        lemma_arg_list_alike(out + sep + a.names()[i] + ": "@ + type_text(a.values()[i]@), a, b, i + 1);
    }
}

/// Argument tables with the same model have the same text.
proof fn lemma_args_alike(a: NameMap<TypeRef>, b: NameMap<TypeRef>)
    requires
        a.wf(),
        b.wf(),
        args_model(a) == args_model(b),
    ensures
        args_text(a) == args_text(b),
{
    assert forall|k: Seq<char>| a.has(k) == b.has(k) by {
        assert(args_model(a).dom().contains(k) == a.has(k));
        assert(args_model(b).dom().contains(k) == b.has(k));
    }
    lemma_same_names(a, b);
    assert forall|j: int| 0 <= j < a.names().len() implies (#[trigger] a.values()[j])@ == b.values()[j]@ by {
        let k = a.names()[j];
        assert(a.has(k));
        assert(args_model(a)[k] == a.value_of(k)@);
        assert(args_model(b)[k] == b.value_of(k)@);
    }
    lemma_arg_list_alike("("@, a, b, 0);
}

proof fn lemma_fields_alike(out: Seq<char>, a: NameMap<FieldDef>, b: NameMap<FieldDef>, i: int)
    requires
        a.names() == b.names(),
        fields_wf(a),
        fields_wf(b),
        forall|j: int| 0 <= j < a.names().len() ==> (#[trigger] a.values()[j])@ == b.values()[j]@,
    ensures
        with_fields(out, a, i) == with_fields(out, b, i),
    decreases a.names().len() - i,
{
    if 0 <= i < a.names().len() {
        assert(a.values()[i]@ == b.values()[i]@);
        lemma_args_alike(a.values()[i].args, b.values()[i].args);
        lemma_fields_alike(
            out + "  "@ + a.names()[i] + args_text(a.values()[i].args) + ": "@ + type_text(
                a.values()[i].ty@,
            ) + "\n"@,
            a,
            b,
            i + 1,
        );
    }
}

/// Field tables with the same model are listed alike and have the same text.
proof fn lemma_object_alike(out: Seq<char>, name: Seq<char>, a: NameMap<FieldDef>, b: NameMap<FieldDef>)
    requires
        fields_wf(a),
        fields_wf(b),
        fields_model(a) == fields_model(b),
    ensures
        a.names() == b.names(),
        with_object(out, name, a) == with_object(out, name, b),
{
    assert forall|k: Seq<char>| a.has(k) == b.has(k) by {
        assert(fields_model(a).dom().contains(k) == a.has(k));
        assert(fields_model(b).dom().contains(k) == b.has(k));
    }
    lemma_same_names(a, b);
    assert forall|j: int| 0 <= j < a.names().len() implies (#[trigger] a.values()[j])@ == b.values()[j]@ by {
        let k = a.names()[j];
        assert(a.has(k));
        assert(fields_model(a)[k] == a.value_of(k)@);
        assert(fields_model(b)[k] == b.value_of(k)@);
    }
    lemma_fields_alike(out + "type "@ + name + " {\n"@, a, b, 0);
}

proof fn lemma_objects_alike(
    out: Seq<char>,
    a: NameMap<NameMap<FieldDef>>,
    b: NameMap<NameMap<FieldDef>>,
    i: int,
)
    requires
        a.names() == b.names(),
        a.wf(),
        b.wf(),
        forall|j: int| 0 <= j < a.names().len() ==> fields_wf(#[trigger] a.values()[j]),
        forall|j: int| 0 <= j < b.names().len() ==> fields_wf(#[trigger] b.values()[j]),
        forall|j: int|
            0 <= j < a.names().len() ==> fields_model(#[trigger] a.values()[j]) == fields_model(
                b.values()[j],
            ),
    ensures
        with_objects(out, a, i) == with_objects(out, b, i),
    decreases a.names().len() - i,
{
    if 0 <= i < a.names().len() {
        assert(fields_wf(a.values()[i]));
        assert(fields_wf(b.values()[i]));
        assert(fields_model(a.values()[i]) == fields_model(b.values()[i]));
        lemma_object_alike(out, a.names()[i], a.values()[i], b.values()[i]);
        let next = if a.names()[i] == "Mutation"@ && a.values()[i].names().len() == 0 {
            out
        } else {
            with_object(out, a.names()[i], a.values()[i])
        };
        lemma_objects_alike(next, a, b, i + 1);
    }
}

proof fn lemma_unions_alike(out: Seq<char>, a: NameMap<NameSet>, b: NameMap<NameSet>, i: int)
    requires
        a.names() == b.names(),
        a.wf(),
        b.wf(),
        forall|j: int|
            0 <= j < a.names().len() ==> (#[trigger] a.values()[j]).listing() == b.values()[j].listing(),
    ensures
        with_unions(out, a, i) == with_unions(out, b, i),
    decreases a.names().len() - i,
{
    if 0 <= i < a.names().len() {
        assert(a.values()[i].listing() == b.values()[i].listing());
        lemma_unions_alike(
            with_members(out + "union "@ + a.names()[i] + " = "@, a.values()[i].listing(), 0) + "\n\n"@,
            a,
            b,
            i + 1,
        );
    }
}

/// Two sets in order with the same names list them alike.
proof fn lemma_set_alike(a: NameSet, b: NameSet)
    requires
        a.wf(),
        b.wf(),
        a@ == b@,
    ensures
        a.listing() == b.listing(),
{
    assert forall|k: Seq<char>| a.listing().contains(k) <==> b.listing().contains(k) by {
        assert(a@.contains(k) == a.listing().contains(k));
        assert(b@.contains(k) == b.listing().contains(k));
    }
    lemma_ascending_unique(a.listing(), b.listing());
}

/// The schema text is a function of what the draft holds: two drafts in
/// order with the same model have the same text.
pub proof fn lemma_text_of_model(a: SchemaDraft, b: SchemaDraft, paths: Seq<Seq<char>>)
    requires
        a.wf(),
        b.wf(),
        a@ == b@,
    ensures
        schema_text(a, paths) == schema_text(b, paths),
{
    lemma_set_alike(a.scalars, b.scalars);
    lemma_set_alike(a.inputs, b.inputs);
    assert forall|k: Seq<char>| a.objects.has(k) == b.objects.has(k) by {
        assert(a@.objects.dom().contains(k) == a.objects.has(k));
        assert(b@.objects.dom().contains(k) == b.objects.has(k));
    }
    lemma_same_names(a.objects, b.objects);
    assert forall|j: int| 0 <= j < a.objects.names().len() implies fields_model(
        #[trigger] a.objects.values()[j],
    ) == fields_model(b.objects.values()[j]) by {
        let k = a.objects.names()[j];
        assert(a.objects.has(k));
        assert(a@.objects[k] == fields_model(a.objects.value_of(k)));
        assert(b@.objects[k] == fields_model(b.objects.value_of(k)));
    }
    assert forall|k: Seq<char>| a.unions.has(k) == b.unions.has(k) by {
        assert(a@.unions.dom().contains(k) == a.unions.has(k));
        assert(b@.unions.dom().contains(k) == b.unions.has(k));
    }
    lemma_same_names(a.unions, b.unions);
    assert forall|j: int| 0 <= j < a.unions.names().len() implies (
    #[trigger] a.unions.values()[j]).listing() == b.unions.values()[j].listing() by {
        let k = a.unions.names()[j];
        assert(a.unions.has(k));
        assert(a@.unions[k] == a.unions.value_of(k)@);
        assert(b@.unions[k] == b.unions.value_of(k)@);
        assert(a.unions.values()[j].wf());
        assert(b.unions.values()[j].wf());
        lemma_set_alike(a.unions.values()[j], b.unions.values()[j]);
    }
    assert(has_mutation(a) == has_mutation(b)) by {
        if a.objects.has("Mutation"@) {
            let j = crate::names::index_of(a.objects.names(), "Mutation"@);
            assert(fields_wf(a.objects.values()[j]));
            assert(fields_wf(b.objects.values()[j]));
            assert(fields_model(a.objects.values()[j]) == fields_model(b.objects.values()[j]));
            lemma_object_alike(Seq::empty(), Seq::empty(), a.objects.values()[j], b.objects.values()[j]);
        }
    }
    let header = header_text(paths);
    let scalars = with_lines(header, "scalar "@, a.scalars.listing(), "\n"@, 0) + "\n"@;
    let schema = scalars + (if has_mutation(a) {
        "schema { query: Query mutation: Mutation }\n\n"@
    } else {
        "schema { query: Query }\n\n"@
    });
    lemma_unions_alike(schema, a.unions, b.unions, 0);
    lemma_objects_alike(with_unions(schema, a.unions, 0), a.objects, b.objects, 0);
}

proof fn lemma_lines_after(
    head: Seq<char>,
    out: Seq<char>,
    before: Seq<char>,
    names: Seq<Seq<char>>,
    after: Seq<char>,
    i: int,
)
    ensures
        with_lines(head + out, before, names, after, i) == head + with_lines(out, before, names, after, i),
    decreases names.len() - i,
{
    if 0 <= i < names.len() {
        assert(head + out + before + names[i] + after =~= head + (out + before + names[i] + after));
        lemma_lines_after(head, out + before + names[i] + after, before, names, after, i + 1);
    }
}

proof fn lemma_members_after(head: Seq<char>, out: Seq<char>, members: Seq<Seq<char>>, i: int)
    ensures
        with_members(head + out, members, i) == head + with_members(out, members, i),
    decreases members.len() - i,
{
    if 0 <= i < members.len() {
        let sep = if i == 0 {
            Seq::<char>::empty()
        } else {
            " | "@
        };
        assert(head + out + sep + members[i] =~= head + (out + sep + members[i]));
        lemma_members_after(head, out + sep + members[i], members, i + 1);
    }
}

proof fn lemma_unions_after(head: Seq<char>, out: Seq<char>, unions: NameMap<NameSet>, i: int)
    ensures
        with_unions(head + out, unions, i) == head + with_unions(out, unions, i),
    decreases unions.names().len() - i,
{
    if 0 <= i < unions.names().len() {
        let start = out + "union "@ + unions.names()[i] + " = "@;
        let members = unions.values()[i].listing();
        assert(head + out + "union "@ + unions.names()[i] + " = "@ =~= head + start);
        lemma_members_after(head, start, members, 0);
        assert(with_members(head + start, members, 0) + "\n\n"@ =~= head + (with_members(start, members, 0)
            + "\n\n"@));
        lemma_unions_after(head, with_members(start, members, 0) + "\n\n"@, unions, i + 1);
    }
}

proof fn lemma_fields_after(head: Seq<char>, out: Seq<char>, fields: NameMap<FieldDef>, i: int)
    ensures
        with_fields(head + out, fields, i) == head + with_fields(out, fields, i),
    decreases fields.names().len() - i,
{
    if 0 <= i < fields.names().len() {
        let line = "  "@ + fields.names()[i] + args_text(fields.values()[i].args) + ": "@ + type_text(
            fields.values()[i].ty@,
        ) + "\n"@;
        assert(head + out + "  "@ + fields.names()[i] + args_text(fields.values()[i].args) + ": "@ + type_text(
            fields.values()[i].ty@,
        ) + "\n"@ =~= head + (out + "  "@ + fields.names()[i] + args_text(fields.values()[i].args) + ": "@
            + type_text(fields.values()[i].ty@) + "\n"@));
        lemma_fields_after(
            head,
            out + "  "@ + fields.names()[i] + args_text(fields.values()[i].args) + ": "@ + type_text(
                fields.values()[i].ty@,
            ) + "\n"@,
            fields,
            i + 1,
        );
    }
}

proof fn lemma_object_after(head: Seq<char>, out: Seq<char>, name: Seq<char>, fields: NameMap<FieldDef>)
    ensures
        with_object(head + out, name, fields) == head + with_object(out, name, fields),
{
    let start = out + "type "@ + name + " {\n"@;
    assert(head + out + "type "@ + name + " {\n"@ =~= head + start);
    if fields.names().len() == 0 {
        assert(head + start + "  _placeholder: JSON\n"@ + "}\n\n"@ =~= head + (start + "  _placeholder: JSON\n"@
            + "}\n\n"@));
    } else {
        lemma_fields_after(head, start, fields, 0);
        assert(head + with_fields(start, fields, 0) + "}\n\n"@ =~= head + (with_fields(start, fields, 0)
            + "}\n\n"@));
    }
}

proof fn lemma_objects_after(head: Seq<char>, out: Seq<char>, objects: NameMap<NameMap<FieldDef>>, i: int)
    ensures
        with_objects(head + out, objects, i) == head + with_objects(out, objects, i),
    decreases objects.names().len() - i,
{
    if 0 <= i < objects.names().len() {
        if objects.names()[i] == "Mutation"@ && objects.values()[i].names().len() == 0 {
            lemma_objects_after(head, out, objects, i + 1);
        } else {
            lemma_object_after(head, out, objects.names()[i], objects.values()[i]);
            lemma_objects_after(head, with_object(out, objects.names()[i], objects.values()[i]), objects, i + 1);
        }
    }
}

/// The header of a schema text: the title and one line for each source.
pub open spec fn header_text(paths: Seq<Seq<char>>) -> Seq<char> {
    with_lines("# Generated stub schema (best-effort)\n"@ + "# Source docs:\n"@, "# - "@, paths, "\n"@, 0)
        + "\n"@
}

/// What follows the header in a schema text: the scalars, the schema line,
/// the unions, the object types and the input stubs.
pub open spec fn body_text(draft: SchemaDraft) -> Seq<char> {
    let scalars = with_lines(Seq::empty(), "scalar "@, draft.scalars.listing(), "\n"@, 0) + "\n"@;
    let schema = scalars + (if has_mutation(draft) {
        "schema { query: Query mutation: Mutation }\n\n"@
    } else {
        "schema { query: Query }\n\n"@
    });
    let unions = with_unions(schema, draft.unions, 0);
    let objects = with_objects(unions, draft.objects, 0);
    with_lines(objects, "input "@, draft.inputs.listing(), " {\n  _stub: JSON\n}\n\n"@, 0)
}

/// The sources show in the header only: a schema text is its header, which
/// depends on the sources alone, followed by a body that depends on the
/// draft alone.
pub proof fn lemma_header_then_body(draft: SchemaDraft, paths: Seq<Seq<char>>)
    ensures
        schema_text(draft, paths) == header_text(paths) + body_text(draft),
{
    let head = header_text(paths);
    let none = Seq::<char>::empty();
    assert(head + none =~= head);
    lemma_lines_after(head, none, "scalar "@, draft.scalars.listing(), "\n"@, 0);
    let scalars = with_lines(none, "scalar "@, draft.scalars.listing(), "\n"@, 0) + "\n"@;
    assert(with_lines(head, "scalar "@, draft.scalars.listing(), "\n"@, 0) + "\n"@ =~= head + scalars);
    let line = if has_mutation(draft) {
        "schema { query: Query mutation: Mutation }\n\n"@
    } else {
        "schema { query: Query }\n\n"@
    };
    let schema = scalars + line;
    assert(head + scalars + line =~= head + schema);
    lemma_unions_after(head, schema, draft.unions, 0);
    let unions = with_unions(schema, draft.unions, 0);
    lemma_objects_after(head, unions, draft.objects, 0);
    let objects = with_objects(unions, draft.objects, 0);
    lemma_lines_after(head, objects, "input "@, draft.inputs.listing(), " {\n  _stub: JSON\n}\n\n"@, 0);
}

} // verus!
