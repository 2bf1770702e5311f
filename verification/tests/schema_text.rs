use copilot_money_cli::document::{
    Argument, ArgumentValue, Definition, Document, Field, FragmentDefinition, FragmentSpread, InlineFragment,
    Operation, OperationKind, Selection, SelectionSet, VariableDefinition,
};
use copilot_money_cli::generate::{
    infer_schema, render_schema_from_documents, render_schema_from_parsed, ParsedSource,
};
use copilot_money_cli::render::render_schema;
use copilot_money_cli::schema_gen::TypeRef;
use graphql_parser::query as gq;

fn type_ref(ty: &gq::Type<'_, String>) -> TypeRef {
    match ty {
        gq::Type::NamedType(n) => TypeRef::Named(n.clone()),
        gq::Type::ListType(inner) => TypeRef::List(Box::new(type_ref(inner))),
        gq::Type::NonNullType(inner) => TypeRef::NonNull(Box::new(type_ref(inner))),
    }
}

fn argument_value(v: &gq::Value<'_, String>) -> ArgumentValue {
    match v {
        gq::Value::Variable(name) => ArgumentValue::Variable(name.clone()),
        gq::Value::Int(_) => ArgumentValue::Int,
        gq::Value::Float(_) => ArgumentValue::Float,
        gq::Value::String(_) => ArgumentValue::String,
        gq::Value::Boolean(_) => ArgumentValue::Boolean,
        gq::Value::Null => ArgumentValue::Null,
        gq::Value::Enum(_) => ArgumentValue::Enum,
        gq::Value::List(_) => ArgumentValue::List,
        gq::Value::Object(_) => ArgumentValue::Object,
    }
}

fn selection_set(ss: &gq::SelectionSet<'_, String>) -> SelectionSet {
    let mut items = Vec::new();
    for sel in &ss.items {
        items.push(match sel {
            gq::Selection::Field(f) => Selection::Field(Field {
                name: f.name.clone(),
                arguments: f
                    .arguments
                    .iter()
                    .map(|(name, value)| Argument { name: name.clone(), value: argument_value(value) })
                    .collect(),
                selection_set: selection_set(&f.selection_set),
            }),
            gq::Selection::FragmentSpread(s) => {
                Selection::FragmentSpread(FragmentSpread { fragment_name: s.fragment_name.clone() })
            }
            gq::Selection::InlineFragment(i) => Selection::InlineFragment(InlineFragment {
                type_condition: i.type_condition.as_ref().map(|gq::TypeCondition::On(name)| name.clone()),
                selection_set: selection_set(&i.selection_set),
            }),
        });
    }
    SelectionSet { items }
}

fn variables(vars: &[gq::VariableDefinition<'_, String>]) -> Vec<VariableDefinition> {
    vars.iter()
        .map(|v| VariableDefinition { name: v.name.clone(), var_type: type_ref(&v.var_type) })
        .collect()
}

fn parsed(path: &str, src: &str) -> ParsedSource {
    let outcome = match graphql_parser::parse_query::<String>(src) {
        Ok(_) => Ok(document(src)),
        Err(e) => Err(e.to_string()),
    };
    ParsedSource { path: path.to_string(), outcome }
}

fn document(src: &str) -> Document {
    let parsed = graphql_parser::parse_query::<String>(src).unwrap();
    let mut definitions = Vec::new();
    for def in &parsed.definitions {
        definitions.push(match def {
            gq::Definition::Fragment(f) => {
                let gq::TypeCondition::On(on) = &f.type_condition;
                Definition::Fragment(FragmentDefinition {
                    name: f.name.clone(),
                    type_condition: on.clone(),
                    selection_set: selection_set(&f.selection_set),
                })
            }
            gq::Definition::Operation(op) => Definition::Operation(match op {
                gq::OperationDefinition::Query(q) => Operation {
                    kind: OperationKind::Query,
                    variable_definitions: variables(&q.variable_definitions),
                    selection_set: selection_set(&q.selection_set),
                },
                gq::OperationDefinition::Mutation(m) => Operation {
                    kind: OperationKind::Mutation,
                    variable_definitions: variables(&m.variable_definitions),
                    selection_set: selection_set(&m.selection_set),
                },
                gq::OperationDefinition::Subscription(s) => Operation {
                    kind: OperationKind::Subscription,
                    variable_definitions: variables(&s.variable_definitions),
                    selection_set: selection_set(&s.selection_set),
                },
                gq::OperationDefinition::SelectionSet(ss) => Operation {
                    kind: OperationKind::SelectionSet,
                    variable_definitions: Vec::new(),
                    selection_set: selection_set(ss),
                },
            }),
        });
    }
    Document { definitions }
}

fn render(files: &[(&str, &str)]) -> String {
    let sources: Vec<(String, String)> =
        files.iter().map(|(path, text)| (path.to_string(), text.to_string())).collect();
    let docs: Vec<Document> = files.iter().map(|(_, text)| document(text)).collect();
    render_schema_from_documents(&sources, &docs)
}

#[test]
fn schema_contains_fragment_type_fields() {
    let rendered = render(&[(
        "a.graphql",
        "\nquery Q { thing { ...ThingFields } }\nfragment ThingFields on Thing { id name }\n",
    )]);
    assert!(rendered.contains("type Thing"));
    assert!(rendered.contains("id: ID"));
    assert!(rendered.contains("name: String"));
}

#[test]
fn schema_renders_query_and_mutation() {
    let out = render(&[
        (
            "q.graphql",
            "query Q($first: Int!, $after: String) { transactions(first: $first, after: $after) { edges { node { id } } } }",
        ),
        ("m.graphql", "mutation M($id: ID!, $input: JSON) { deleteTag(id: $id) }"),
    ]);
    assert!(out.contains("schema { query: Query mutation: Mutation }"));
    assert!(out.contains("type Query"));
    assert!(out.contains("type Mutation"));
    assert!(out.contains("deleteTag"));
}

#[test]
fn schema_includes_fragment_type_condition_fields() {
    let out = render(&[("f.graphql", "fragment IconFields on EmojiUnicode { __typename unicode }")]);
    assert!(out.contains("type EmojiUnicode"));
    assert!(out.contains("unicode"));
}

#[test]
fn fragment_type_is_rendered_in_full() {
    let rendered = render(&[(
        "a.graphql",
        "query Q { thing { ...ThingFields } }\nfragment ThingFields on Thing { id name }\n",
    )]);
    let expected = "# Generated stub schema (best-effort)\n\
# Source docs:\n\
# - a.graphql\n\
\n\
scalar JSON\n\
\n\
schema { query: Query }\n\
\n\
type Query {\n  thing: Thing\n}\n\
\n\
type Thing {\n  id: ID!\n  name: String\n}\n\
\n";
    assert_eq!(rendered, expected);
}

#[test]
fn query_and_mutation_are_rendered_in_full() {
    let out = render(&[
        (
            "q.graphql",
            "query Q($first: Int!, $after: String) { transactions(first: $first, after: $after) { edges { node { id } } } }",
        ),
        ("m.graphql", "mutation M($id: ID!, $input: JSON) { deleteTag(id: $id) }"),
    ]);
    let expected = "# Generated stub schema (best-effort)\n\
# Source docs:\n\
# - q.graphql\n\
# - m.graphql\n\
\n\
scalar JSON\n\
\n\
schema { query: Query mutation: Mutation }\n\
\n\
type Mutation {\n  deleteTag(id: ID!): JSON\n}\n\
\n\
type Query {\n  transactions(after: String, first: Int!): JSON\n}\n\
\n\
type QueryTransactions {\n  edges: QueryTransactionsEdges\n}\n\
\n\
type QueryTransactionsEdges {\n  node: QueryTransactionsEdgesNode\n}\n\
\n\
type QueryTransactionsEdgesNode {\n  id: ID!\n}\n\
\n\
input JSON {\n  _stub: JSON\n}\n\
\n";
    assert_eq!(out, expected);
}

#[test]
fn unused_fragment_declares_its_type() {
    let out = render(&[("f.graphql", "fragment IconFields on EmojiUnicode { __typename unicode }")]);
    assert!(out.contains("type EmojiUnicode {\n  unicode: JSON\n}\n"));
    assert!(out.contains("schema { query: Query }\n"));
    assert!(out.contains("type Query {\n  _placeholder: JSON\n}\n"));
    assert!(!out.contains("type Mutation"));
    assert!(!out.contains("__typename"));
}

#[test]
fn inline_fragments_make_a_union() {
    let out = render(&[(
        "u.graphql",
        "query Q { icon { ... on B { src } ... on A { unicode } __typename } }",
    )]);
    assert!(out.contains("union QueryIconUnion = A | B\n\n"));
    assert!(out.contains("type A {\n  unicode: JSON\n}\n"));
    assert!(out.contains("type B {\n  src: JSON\n}\n"));
    assert!(out.contains("type Query {\n  icon: QueryIconUnion\n}\n"));
    assert!(!out.contains("type QueryIconUnion"));
}

#[test]
fn union_members_accumulate_over_documents() {
    let out = render(&[
        ("one.graphql", "query One { icon { ... on A { unicode } } }"),
        ("two.graphql", "query Two { icon { ... on C { id } } }"),
    ]);
    assert!(out.contains("union QueryIconUnion = A | C\n\n"));
    assert!(out.contains("type C {\n  id: ID!\n}\n"));
}

#[test]
fn fields_selected_directly_on_a_union_are_ignored() {
    let out = render(&[(
        "u.graphql",
        "query Q { icon { label ... on A { unicode } } }",
    )]);
    assert!(out.contains("union QueryIconUnion = A\n\n"));
    assert!(!out.contains("label"));
}

#[test]
fn inline_fragments_win_over_fragment_spreads() {
    let out = render(&[(
        "u.graphql",
        "query Q { icon { ...IconFields ... on A { unicode } } }\nfragment IconFields on Icon { id }",
    )]);
    assert!(out.contains("type Query {\n  icon: QueryIconUnion\n}\n"));
    assert!(out.contains("union QueryIconUnion = A\n\n"));
    assert!(out.contains("type Icon {\n  id: ID!\n}\n"));
}

#[test]
fn spreads_of_two_types_give_an_anonymous_object() {
    let out = render(&[(
        "s.graphql",
        "query Q { thing { ...A1 ...B1 } }\nfragment A1 on A { id }\nfragment B1 on B { name }",
    )]);
    assert!(out.contains("type Query {\n  thing: QueryThing\n}\n"));
    assert!(out.contains("type QueryThing {\n  id: ID!\n  name: String\n}\n"));
    assert!(out.contains("type A {\n  id: ID!\n}\n"));
    assert!(out.contains("type B {\n  name: String\n}\n"));
}

#[test]
fn rendering_twice_gives_the_same_text() {
    let docs = vec![document(
        "query Q($x: [Filter!]) { things(filter: $x, first: 3) { id ... on A { isOpen } } }",
    )];
    let sources = vec![("q.graphql".to_string(), String::new())];
    let draft = infer_schema(&docs);
    let first = render_schema(&draft, &sources);
    let second = render_schema(&draft, &sources);
    assert_eq!(first, second);
    assert_eq!(first, render_schema_from_documents(&sources, &docs));
}

#[test]
fn every_field_appears_once_under_its_type() {
    let out = render(&[
        ("a.graphql", "query A { user { id name } user { id } }"),
        ("b.graphql", "query B { user { name createdDate } }"),
    ]);
    assert!(out.contains("type QueryUser {\n  createdDate: String\n  id: ID!\n  name: String\n}\n"));
    assert_eq!(out.matches("  id: ID!\n").count(), 1);
    assert_eq!(out.matches("  user: QueryUser\n").count(), 1);
}

#[test]
fn a_leaf_and_an_object_for_one_field_widen_to_the_opaque_scalar() {
    let out = render(&[
        ("a.graphql", "query A { owner }"),
        ("b.graphql", "query B { owner { id } }"),
    ]);
    assert!(out.contains("type Query {\n  owner: JSON\n}\n"));
    let turned = render(&[
        ("b.graphql", "query B { owner { id } }"),
        ("a.graphql", "query A { owner }"),
    ]);
    assert!(turned.contains("type Query {\n  owner: JSON\n}\n"));
}

#[test]
fn the_order_of_files_shows_in_the_header_only_here() {
    let a = ("a.graphql", "query A { user { id } }");
    let b = ("b.graphql", "mutation B { rename { name } }");
    let one = render(&[a, b]);
    let two = render(&[b, a]);
    let body = |text: &str| text[text.find("scalar").unwrap()..].to_string();
    assert_eq!(body(&one), body(&two));
    assert!(one.starts_with("# Generated stub schema (best-effort)\n# Source docs:\n# - a.graphql\n# - b.graphql\n\n"));
    assert!(two.starts_with("# Generated stub schema (best-effort)\n# Source docs:\n# - b.graphql\n# - a.graphql\n\n"));
}

#[test]
fn a_later_fragment_of_the_same_name_replaces_the_earlier_one() {
    let out = render(&[
        ("a.graphql", "fragment F on A { id }"),
        ("b.graphql", "fragment F on B { name }"),
    ]);
    assert!(out.contains("type B {\n  name: String\n}\n"));
    assert!(!out.contains("type A"));
}

#[test]
fn a_fragment_that_spreads_itself_is_walked_once() {
    let out = render(&[("c.graphql", "query Q { node { ...Loop } }\nfragment Loop on Node { id child { ...Loop } }")]);
    assert!(out.contains("type Query {\n  node: Node\n}\n"));
    assert!(out.contains("type Node {\n  child: Node\n  id: ID!\n}\n"));
}

#[test]
fn variables_name_input_stubs() {
    let out = render(&[(
        "v.graphql",
        "query Q($f: [TransactionFilter!]!, $n: Int, $s: SortInput) { items(filter: $f, limit: $n, sort: $s, flag: true, tag: \"x\", rate: 1.5, kind: BIG, ids: [1], where: {a: 1}, none: null, other: $missing) }",
    )]);
    assert!(out.contains(
        "  items(filter: [TransactionFilter!]!, flag: Boolean, ids: JSON, kind: JSON, limit: Int, none: JSON, rate: Float, sort: SortInput, tag: String, where: JSON): JSON\n"
    ));
    assert!(out.contains("input SortInput {\n  _stub: JSON\n}\n\ninput TransactionFilter {\n  _stub: JSON\n}\n\n"));
}

#[test]
fn a_bare_selection_set_is_a_query() {
    let out = render(&[("q.graphql", "{ viewer { isAdmin } }")]);
    assert!(out.contains("type Query {\n  viewer: QueryViewer\n}\n"));
    assert!(out.contains("type QueryViewer {\n  isAdmin: Boolean\n}\n"));
}

#[test]
fn a_subscription_is_walked_under_query() {
    let out = render(&[("s.graphql", "subscription S { ticks { cursor } }")]);
    assert!(out.contains("type Query {\n  ticks: QueryTicks\n}\n"));
    assert!(out.contains("type QueryTicks {\n  cursor: String!\n}\n"));
}

#[test]
fn an_inline_fragment_without_a_type_keeps_the_context() {
    let out = render(&[("i.graphql", "query Q { ... { total } ... on Other { month } }")]);
    assert!(out.contains("type Query {\n  total: JSON\n}\n"));
    assert!(out.contains("type Other {\n  month: String\n}\n"));
}

#[test]
fn no_documents_give_the_bare_schema() {
    let out = render(&[]);
    assert_eq!(
        out,
        "# Generated stub schema (best-effort)\n# Source docs:\n\nscalar JSON\n\nschema { query: Query }\n\ntype Query {\n  _placeholder: JSON\n}\n\n"
    );
}

#[test]
fn arguments_seen_before_a_typed_field_make_the_order_matter() {
    let with_argument = ("a.graphql", "query A { userId(x: 1) }");
    let without = ("b.graphql", "query B { userId }");
    let first = render(&[with_argument, without]);
    assert!(first.contains("type Query {\n  userId(x: Int): JSON\n}\n"));
    let second = render(&[without, with_argument]);
    assert!(second.contains("type Query {\n  userId(x: Int): ID\n}\n"));
}

#[test]
fn one_source_that_does_not_parse_fails_the_run() {
    let good = "query Q { me { id } }";
    let failure = render_schema_from_parsed(vec![
        parsed("good.graphql", good),
        parsed("bad.graphql", "query Q { me { id }"),
        parsed("worse.graphql", "fragment on { }"),
    ])
    .unwrap_err();
    assert_eq!(failure.path, "bad.graphql");
    assert!(!failure.message.is_empty());
    assert_eq!(failure.to_text(), format!("parse error in bad.graphql: {}", failure.message));
}

#[test]
fn sources_that_all_parse_render_like_their_documents() {
    let a = ("a.graphql", "query Q { thing { ...ThingFields } }");
    let b = ("b.graphql", "fragment ThingFields on Thing { id name }");
    let text = render_schema_from_parsed(vec![parsed(a.0, a.1), parsed(b.0, b.1)]).unwrap();
    assert_eq!(text, render(&[a, b]));
    assert!(text.contains("type Thing {\n  id: ID!\n  name: String\n}\n"));
    assert_eq!(render_schema_from_parsed(Vec::new()).unwrap(), render(&[]));
}

#[test]
fn an_object_named_like_a_union_stands_beside_it() {
    let out = render(&[(
        "c.graphql",
        "query Q { creditUnion { balance } credit { ... on A { id } } }",
    )]);
    assert!(out.contains("union QueryCreditUnion = A\n\n"));
    assert!(out.contains("type QueryCreditUnion {\n  balance: JSON\n}\n"));
    let turned = render(&[(
        "c.graphql",
        "query Q { credit { ... on A { id } } creditUnion { balance } }",
    )]);
    assert!(turned.contains("union QueryCreditUnion = A\n\n"));
    assert!(!turned.contains("type QueryCreditUnion"));
    assert!(!turned.contains("balance"));
}
