use copilot_money_cli::infer::{
    infer_argument_type, infer_leaf_scalar, is_builtin_scalar, pascal_case, var_type_map,
};
use copilot_money_cli::document::{ArgumentValue, VariableDefinition};
use copilot_money_cli::names::{NameMap, NameSet};
use copilot_money_cli::render::{render_args, render_schema, render_type_ref};
use copilot_money_cli::schema_gen::{SchemaDraft, TypeRef};

fn non_null(inner: TypeRef) -> TypeRef {
    TypeRef::NonNull(Box::new(inner))
}

fn list(inner: TypeRef) -> TypeRef {
    TypeRef::List(Box::new(inner))
}

fn field_type(draft: &SchemaDraft, object: &str, field: &str) -> Option<String> {
    let fields = draft.objects.value(draft.objects.find(object)?);
    let def = fields.value(fields.find(field)?);
    Some(render_type_ref(&def.ty))
}

fn arg_type(draft: &SchemaDraft, object: &str, field: &str, arg: &str) -> Option<String> {
    let fields = draft.objects.value(draft.objects.find(object)?);
    let def = fields.value(fields.find(field)?);
    Some(render_type_ref(def.args.value(def.args.find(arg)?)))
}

#[test]
fn named_makes_a_named_type() {
    assert_eq!(TypeRef::named("Thing"), TypeRef::Named("Thing".to_string()));
    assert_eq!(render_type_ref(&TypeRef::named("Thing")), "Thing");
}

#[test]
fn type_expressions_render_with_their_wrappers() {
    assert_eq!(render_type_ref(&non_null(TypeRef::named("ID"))), "ID!");
    assert_eq!(render_type_ref(&list(TypeRef::named("Int"))), "[Int]");
    assert_eq!(render_type_ref(&non_null(list(non_null(TypeRef::named("Tag"))))), "[Tag!]!");
}

#[test]
fn same_tells_type_expressions_apart() {
    assert!(TypeRef::named("A").same(&TypeRef::named("A")));
    assert!(!TypeRef::named("A").same(&TypeRef::named("B")));
    assert!(!TypeRef::named("A").same(&non_null(TypeRef::named("A"))));
    assert!(!list(TypeRef::named("A")).same(&non_null(TypeRef::named("A"))));
    assert!(list(non_null(TypeRef::named("A"))).same(&list(non_null(TypeRef::named("A")))));
    assert!(non_null(TypeRef::named("A")).clone().same(&non_null(TypeRef::named("A"))));
}

#[test]
fn ensure_object_creates_once() {
    let mut draft = SchemaDraft::new();
    assert_eq!(draft.objects.len(), 0);
    draft.ensure_object("Query");
    draft.add_field("Query", "me", TypeRef::named("User"));
    draft.ensure_object("Query");
    assert_eq!(draft.objects.len(), 1);
    assert_eq!(field_type(&draft, "Query", "me"), Some("User".to_string()));
}

#[test]
fn add_field_creates_the_object_and_keeps_an_equal_type() {
    let mut draft = SchemaDraft::new();
    draft.add_field("User", "id", non_null(TypeRef::named("ID")));
    assert_eq!(field_type(&draft, "User", "id"), Some("ID!".to_string()));
    draft.add_field("User", "id", non_null(TypeRef::named("ID")));
    assert_eq!(field_type(&draft, "User", "id"), Some("ID!".to_string()));
    assert_eq!(draft.objects.value(0).len(), 1);
}

#[test]
fn add_field_widens_on_conflict_and_stays_wide() {
    let mut draft = SchemaDraft::new();
    draft.add_field("User", "age", TypeRef::named("Int"));
    draft.add_field("User", "age", TypeRef::named("String"));
    assert_eq!(field_type(&draft, "User", "age"), Some("JSON".to_string()));
    draft.add_field("User", "age", TypeRef::named("Int"));
    assert_eq!(field_type(&draft, "User", "age"), Some("JSON".to_string()));
    draft.add_field("User", "age", TypeRef::named("JSON"));
    assert_eq!(field_type(&draft, "User", "age"), Some("JSON".to_string()));
}

#[test]
fn add_field_tells_a_type_from_its_non_null_form() {
    let mut draft = SchemaDraft::new();
    draft.add_field("User", "id", TypeRef::named("ID"));
    draft.add_field("User", "id", non_null(TypeRef::named("ID")));
    assert_eq!(field_type(&draft, "User", "id"), Some("JSON".to_string()));
}

#[test]
fn add_field_arg_makes_a_placeholder_field() {
    let mut draft = SchemaDraft::new();
    draft.add_field_arg("Query", "items", "first", non_null(TypeRef::named("Int")));
    assert_eq!(field_type(&draft, "Query", "items"), Some("JSON".to_string()));
    assert_eq!(arg_type(&draft, "Query", "items", "first"), Some("Int!".to_string()));
}

#[test]
fn add_field_arg_merges_like_a_field() {
    let mut draft = SchemaDraft::new();
    draft.add_field("Query", "items", TypeRef::named("Item"));
    draft.add_field_arg("Query", "items", "first", TypeRef::named("Int"));
    draft.add_field_arg("Query", "items", "first", TypeRef::named("Int"));
    assert_eq!(arg_type(&draft, "Query", "items", "first"), Some("Int".to_string()));
    assert_eq!(field_type(&draft, "Query", "items"), Some("Item".to_string()));
    draft.add_field_arg("Query", "items", "first", TypeRef::named("String"));
    assert_eq!(arg_type(&draft, "Query", "items", "first"), Some("JSON".to_string()));
    draft.add_field_arg("Query", "items", "first", TypeRef::named("Int"));
    assert_eq!(arg_type(&draft, "Query", "items", "first"), Some("JSON".to_string()));
    draft.add_field_arg("Query", "items", "after", TypeRef::named("String"));
    assert_eq!(arg_type(&draft, "Query", "items", "after"), Some("String".to_string()));
}

#[test]
fn a_field_after_its_arguments_with_another_type_is_wide() {
    let mut draft = SchemaDraft::new();
    draft.add_field_arg("Query", "items", "first", TypeRef::named("Int"));
    draft.add_field("Query", "items", TypeRef::named("Item"));
    assert_eq!(field_type(&draft, "Query", "items"), Some("JSON".to_string()));
}

#[test]
fn add_union_registers_members_and_grows() {
    let mut first = NameSet::new();
    first.insert("B");
    first.insert("A");
    let mut draft = SchemaDraft::new();
    draft.add_field("A", "id", TypeRef::named("ID"));
    draft.add_union("U", &first);
    let mut second = NameSet::new();
    second.insert("C");
    second.insert("A");
    draft.add_union("U", &second);
    assert_eq!(draft.unions.len(), 1);
    let members = draft.unions.value(0);
    assert_eq!(members.len(), 3);
    assert_eq!((members.name(0), members.name(1), members.name(2)), ("A", "B", "C"));
    assert_eq!(draft.objects.len(), 3);
    assert_eq!(field_type(&draft, "A", "id"), Some("ID".to_string()));
}

#[test]
fn a_draft_renders_sorted_with_placeholders() {
    let mut draft = SchemaDraft::new();
    draft.scalars.insert("JSON");
    draft.scalars.insert("Date");
    draft.ensure_object("Query");
    draft.ensure_object("Mutation");
    draft.ensure_object("Zed");
    draft.add_field("Alpha", "b", TypeRef::named("Int"));
    draft.add_field("Alpha", "a", list(TypeRef::named("Int")));
    draft.add_field_arg("Alpha", "a", "z", TypeRef::named("Int"));
    draft.add_field_arg("Alpha", "a", "y", non_null(TypeRef::named("ID")));
    draft.inputs.insert("Later");
    draft.inputs.insert("Early");
    let mut members = NameSet::new();
    members.insert("Zed");
    members.insert("Alpha");
    draft.add_union("Both", &members);
    let sources = vec![("one.graphql".to_string(), String::new()), ("two.graphql".to_string(), String::new())];
    let text = render_schema(&draft, &sources);
    let expected = "# Generated stub schema (best-effort)\n\
# Source docs:\n\
# - one.graphql\n\
# - two.graphql\n\
\n\
scalar Date\n\
scalar JSON\n\
\n\
schema { query: Query }\n\
\n\
union Both = Alpha | Zed\n\
\n\
type Alpha {\n  a(y: ID!, z: Int): [Int]\n  b: Int\n}\n\
\n\
type Query {\n  _placeholder: JSON\n}\n\
\n\
type Zed {\n  _placeholder: JSON\n}\n\
\n\
input Early {\n  _stub: JSON\n}\n\
\n\
input Later {\n  _stub: JSON\n}\n\
\n";
    assert_eq!(text, expected);
}

#[test]
fn mutation_shows_once_it_has_a_field() {
    let mut draft = SchemaDraft::new();
    draft.ensure_object("Query");
    draft.add_field("Mutation", "rename", TypeRef::named("Boolean"));
    let text = render_schema(&draft, &Vec::new());
    assert!(text.contains("schema { query: Query mutation: Mutation }\n\n"));
    assert!(text.contains("type Mutation {\n  rename: Boolean\n}\n\n"));
}

#[test]
fn arguments_render_in_order_or_not_at_all() {
    let mut args: NameMap<TypeRef> = NameMap::new();
    assert_eq!(render_args(&args), "");
    args.insert_new("b", TypeRef::named("Int"));
    assert_eq!(render_args(&args), "(b: Int)");
    args.insert_new("a", non_null(TypeRef::named("ID")));
    assert_eq!(render_args(&args), "(a: ID!, b: Int)");
}

#[test]
fn leaf_scalars_follow_the_first_rule_that_matches() {
    let name = |s: &str| render_type_ref(&infer_leaf_scalar(s));
    assert_eq!(name("id"), "ID!");
    assert_eq!(name("cursor"), "String!");
    assert_eq!(name("userId"), "ID");
    assert_eq!(name("userID"), "ID");
    assert_eq!(name("Id"), "ID");
    assert_eq!(name("name"), "String");
    assert_eq!(name("displayName"), "String");
    assert_eq!(name("date"), "String");
    assert_eq!(name("createdDate"), "String");
    assert_eq!(name("month"), "String");
    assert_eq!(name("isReviewed"), "Boolean");
    assert_eq!(name("is"), "Boolean");
    assert_eq!(name("issue"), "Boolean");
    assert_eq!(name("isValid"), "Boolean");
    assert_eq!(name("amount"), "JSON");
    assert_eq!(name("ID"), "ID");
    assert_eq!(name("paid"), "JSON");
    assert_eq!(name("idle"), "JSON");
    assert_eq!(name("Name"), "String");
    assert_eq!(name("isName"), "String");
    assert_eq!(name("isId"), "ID");
    assert_eq!(name("months"), "JSON");
    assert_eq!(name("update"), "JSON");
    assert_eq!(name(""), "JSON");
}

#[test]
fn pascal_case_starts_each_word_in_upper_case() {
    assert_eq!(pascal_case("transactions"), "Transactions");
    assert_eq!(pascal_case("child_categories"), "ChildCategories");
    assert_eq!(pascal_case("page-info"), "PageInfo");
    assert_eq!(pascal_case("two words"), "TwoWords");
    assert_eq!(pascal_case("alreadyCamel"), "AlreadyCamel");
    assert_eq!(pascal_case("__typename"), "Typename");
    assert_eq!(pascal_case("a__b"), "AB");
    assert_eq!(pascal_case("trailing_"), "Trailing");
    assert_eq!(pascal_case(""), "");
    assert_eq!(pascal_case("ßeta"), "SSeta");
    assert_eq!(pascal_case("x1_y2"), "X1Y2");
}

#[test]
fn built_in_scalars_are_the_five() {
    for name in ["String", "Int", "Float", "Boolean", "ID"] {
        assert!(is_builtin_scalar(name));
    }
    for name in ["JSON", "string", "Id", "", "Date"] {
        assert!(!is_builtin_scalar(name));
    }
}

#[test]
fn argument_types_follow_the_kind_of_the_value() {
    let vars = var_type_map(&vec![
        VariableDefinition { name: "first".to_string(), var_type: non_null(TypeRef::named("Int")) },
        VariableDefinition { name: "ids".to_string(), var_type: list(non_null(TypeRef::named("ID"))) },
        VariableDefinition { name: "first".to_string(), var_type: TypeRef::named("Float") },
    ]);
    let text = |v: ArgumentValue| infer_argument_type(&v, &vars).map(|t| render_type_ref(&t));
    assert_eq!(text(ArgumentValue::Variable("first".to_string())), Some("Float".to_string()));
    assert_eq!(text(ArgumentValue::Variable("ids".to_string())), Some("[ID!]".to_string()));
    assert_eq!(text(ArgumentValue::Variable("other".to_string())), None);
    assert_eq!(text(ArgumentValue::Boolean), Some("Boolean".to_string()));
    assert_eq!(text(ArgumentValue::Int), Some("Int".to_string()));
    assert_eq!(text(ArgumentValue::Float), Some("Float".to_string()));
    assert_eq!(text(ArgumentValue::String), Some("String".to_string()));
    assert_eq!(text(ArgumentValue::Enum), Some("JSON".to_string()));
    assert_eq!(text(ArgumentValue::List), Some("JSON".to_string()));
    assert_eq!(text(ArgumentValue::Object), Some("JSON".to_string()));
    assert_eq!(text(ArgumentValue::Null), Some("JSON".to_string()));
}

#[test]
fn name_sets_keep_order_and_hold_each_name_once() {
    let mut set = NameSet::new();
    assert!(set.is_empty());
    assert!(set.insert("b"));
    assert!(set.insert("a"));
    assert!(!set.insert("b"));
    assert!(set.insert("B"));
    assert!(set.insert("ab"));
    assert_eq!(set.len(), 4);
    assert_eq!((set.name(0), set.name(1), set.name(2), set.name(3)), ("B", "a", "ab", "b"));
    assert!(set.contains("ab"));
    assert!(!set.contains("c"));
    let copy = set.duplicate();
    assert_eq!(copy.len(), 4);
    assert_eq!(copy.name(2), "ab");
}

#[test]
fn name_maps_find_what_was_inserted() {
    let mut map: NameMap<u32> = NameMap::new();
    assert!(map.is_empty());
    assert_eq!(map.insert_new("m", 1), 0);
    assert_eq!(map.insert_new("a", 2), 0);
    assert_eq!(map.insert_new("z", 3), 2);
    assert_eq!(map.find("m"), Some(1));
    assert_eq!(map.find("q"), None);
    assert_eq!(map.key(0), "a");
    assert_eq!(*map.value(2), 3);
    *map.value_mut(1) = 7;
    assert_eq!(*map.value(1), 7);
    assert_eq!(map.len(), 3);
}
