//! The naming heuristics of the inference: the scalar of a leaf field, the
//! type of an argument, and the name of a nested object type.

use crate::document::{ArgumentValue, VariableDefinition};
use crate::names::{NameMap, NameSet};
use crate::schema_gen::{args_model, json_type, TypeExpr, TypeRef};
use crate::text::{char_uppercase, chars_of, push_char, str_ends_with, str_eq, str_starts_with, uppercase_of};
use vstd::prelude::*;

verus! {

/// The scalar that a leaf field's name suggests. The first rule that matches
/// decides.
pub open spec fn leaf_scalar(name: Seq<char>) -> TypeExpr {
    if name == "id"@ {
        TypeExpr::NonNull(Box::new(TypeExpr::Named("ID"@)))
    } else if name == "cursor"@ {
        TypeExpr::NonNull(Box::new(TypeExpr::Named("String"@)))
    } else if "Id"@.is_suffix_of(name) || "ID"@.is_suffix_of(name) {
        TypeExpr::Named("ID"@)
    } else if name == "name"@ || "Name"@.is_suffix_of(name) {
        TypeExpr::Named("String"@)
    } else if name == "date"@ || name == "month"@ || "Date"@.is_suffix_of(name) {
        TypeExpr::Named("String"@)
    } else if "is"@.is_prefix_of(name) {
        TypeExpr::Named("Boolean"@)
    } else {
        json_type()
    }
}

/// Guesses the scalar type of a field without a selection set from its name.
pub fn infer_leaf_scalar(field_name: &str) -> (r: TypeRef)
    ensures
        r@ == leaf_scalar(field_name@),
{
    if str_eq(field_name, "id") {
        return TypeRef::NonNull(Box::new(TypeRef::named("ID")));
    }
    if str_eq(field_name, "cursor") {
        return TypeRef::NonNull(Box::new(TypeRef::named("String")));
    }
    if str_ends_with(field_name, "Id") || str_ends_with(field_name, "ID") {
        return TypeRef::named("ID");
    }
    if str_eq(field_name, "name") || str_ends_with(field_name, "Name") {
        return TypeRef::named("String");
    }
    if str_eq(field_name, "date") || str_ends_with(field_name, "Date") {
        return TypeRef::named("String");
    }
    if str_eq(field_name, "month") {
        return TypeRef::named("String");
    }
    if str_starts_with(field_name, "is") {
        return TypeRef::named("Boolean");
    }
    TypeRef::named("JSON")
}

/// Whether `c` separates the words of a name.
pub open spec fn is_separator(c: char) -> bool {
    c == '_' || c == '-' || c == ' '
}

/// The Pascal-case form of the characters from position `i` on, where `upper`
/// says that the next character begins a word.
pub open spec fn pascal_from(s: Seq<char>, i: int, upper: bool) -> Seq<char>
    decreases s.len() - i,
{
    if i < 0 || i >= s.len() {
        Seq::empty()
    } else if is_separator(s[i]) {
        pascal_from(s, i + 1, true)
    } else if upper {
        char_uppercase(s[i]) + pascal_from(s, i + 1, false)
    } else {
        seq![s[i]] + pascal_from(s, i + 1, false)
    }
}

/// The Pascal-case form of a name: the separators `_`, `-` and space are
/// dropped, and the first character of each word is put in upper case.
pub open spec fn pascal(s: Seq<char>) -> Seq<char> {
    pascal_from(s, 0, true)
}

/// Puts a name in Pascal case.
pub fn pascal_case(s: &str) -> (r: String)
    ensures
        r@ == pascal(s@),
{
    let chars = chars_of(s);
    let mut out = String::new();
    let mut upper = true;
    let mut i: usize = 0;
    while i < chars.len()
        invariant
            i <= chars.len(),
            chars@ == s@,
            out@ + pascal_from(s@, i as int, upper) == pascal(s@),
        decreases chars.len() - i,
    {
        let ch = chars[i];
        let ghost rest = pascal_from(s@, i as int + 1, false);
        if ch == '_' || ch == '-' || ch == ' ' {
            upper = true;
        } else if upper {
            let ups = uppercase_of(ch);
            let ghost out0 = out@;
            let mut k: usize = 0;
            while k < ups.len()
                invariant
                    k <= ups.len(),
                    out@ == out0 + ups@.subrange(0, k as int),
                decreases ups.len() - k,
            {
                push_char(&mut out, ups[k]);
                k = k + 1;
                assert(out@ =~= out0 + ups@.subrange(0, k as int));
            }
            assert(ups@.subrange(0, ups.len() as int) =~= ups@);
            assert(out@ + rest =~= out0 + (char_uppercase(ch) + rest));
            upper = false;
        } else {
            let ghost out0 = out@;
            push_char(&mut out, ch);
            assert(out@ + rest =~= out0 + (seq![ch] + rest));
        }
        i = i + 1;
    }
    assert(out@ + Seq::<char>::empty() =~= out@);
    out
}

/// Whether `name` is one of the scalars that every schema has.
pub open spec fn builtin_scalar(name: Seq<char>) -> bool {
    name == "String"@ || name == "Int"@ || name == "Float"@ || name == "Boolean"@ || name == "ID"@
}

/// Whether `name` is a built-in scalar.
pub fn is_builtin_scalar(name: &str) -> (b: bool)
    ensures
        b == builtin_scalar(name@),
{
    str_eq(name, "String") || str_eq(name, "Int") || str_eq(name, "Float") || str_eq(name, "Boolean")
        || str_eq(name, "ID")
}

/// The type of an argument value: a variable has its declared type, where it
/// is declared; a literal has the scalar of its kind, or the opaque scalar.
pub open spec fn argument_type(value: ArgumentValue, vars: Map<Seq<char>, TypeExpr>) -> Option<TypeExpr> {
    match value {
        ArgumentValue::Variable(name) => if vars.dom().contains(name@) {
            Some(vars[name@])
        } else {
            None
        },
        ArgumentValue::Boolean => Some(TypeExpr::Named("Boolean"@)),
        ArgumentValue::Int => Some(TypeExpr::Named("Int"@)),
        ArgumentValue::Float => Some(TypeExpr::Named("Float"@)),
        ArgumentValue::String => Some(TypeExpr::Named("String"@)),
        ArgumentValue::Enum => Some(json_type()),
        ArgumentValue::List => Some(json_type()),
        ArgumentValue::Object => Some(json_type()),
        ArgumentValue::Null => Some(json_type()),
    }
}

/// Tells the type of an argument from its value, where that can be told.
pub fn infer_argument_type(value: &ArgumentValue, var_types: &NameMap<TypeRef>) -> (r: Option<TypeRef>)
    requires
        var_types.wf(),
    ensures
        r.is_some() == argument_type(*value, args_model(*var_types)).is_some(),
        r matches Some(t) ==> Some(t@) == argument_type(*value, args_model(*var_types)),
{
    match value {
        ArgumentValue::Variable(name) => match var_types.find(name.as_str()) {
            Some(i) => Some(var_types.value(i).clone()),
            None => None,
        },
        ArgumentValue::Boolean => Some(TypeRef::named("Boolean")),
        ArgumentValue::Int => Some(TypeRef::named("Int")),
        ArgumentValue::Float => Some(TypeRef::named("Float")),
        ArgumentValue::String => Some(TypeRef::named("String")),
        ArgumentValue::Enum => Some(TypeRef::named("JSON")),
        ArgumentValue::List => Some(TypeRef::named("JSON")),
        ArgumentValue::Object => Some(TypeRef::named("JSON")),
        ArgumentValue::Null => Some(TypeRef::named("JSON")),
    }
}

/// The declared types of variables by name. Of two declarations of one name
/// the later one counts.
pub open spec fn var_types(defs: Seq<VariableDefinition>) -> Map<Seq<char>, TypeExpr>
    decreases defs.len(),
{
    if defs.len() == 0 {
        Map::empty()
    } else {
        var_types(defs.drop_last()).insert(defs.last().name@, defs.last().var_type@)
    }
}

/// Collects the declared types of the variables of an operation by name.
pub fn var_type_map(vars: &Vec<VariableDefinition>) -> (r: NameMap<TypeRef>)
    ensures
        r.wf(),
        args_model(r) == var_types(vars@),
{
    let mut out: NameMap<TypeRef> = NameMap::new();
    assert(args_model(out) =~= var_types(vars@.subrange(0, 0)));
    let mut i: usize = 0;
    while i < vars.len()
        invariant
            i <= vars.len(),
            out.wf(),
            args_model(out) == var_types(vars@.subrange(0, i as int)),
        decreases vars.len() - i,
    {
        let v = &vars[i];
        let ghost out0 = out;
        let ty = v.var_type.clone();
        match out.find(v.name.as_str()) {
            Some(pos) => {
                let slot = out.value_mut(pos);
                *slot = ty;
                proof {
                    crate::names::lemma_value_updated(out0, out, pos as int);
                }
            },
            None => {
                out.insert_new(v.name.as_str(), ty);
            },
        }
        proof {
            let next = vars@.subrange(0, i as int + 1);
            assert(next.drop_last() =~= vars@.subrange(0, i as int));
            assert(next.last() == vars@[i as int]);
            assert(args_model(out) =~= args_model(out0).insert(v.name@, v.var_type@));
        }
        i = i + 1;
    }
    assert(vars@.subrange(0, vars.len() as int) =~= vars@);
    out
}

/// The name at the heart of a type expression, under its list and non-null
/// wrappers.
pub open spec fn base_name(t: TypeExpr) -> Seq<char>
    decreases t,
{
    match t {
        TypeExpr::Named(n) => n,
        TypeExpr::List(inner) => base_name(*inner),
        TypeExpr::NonNull(inner) => base_name(*inner),
    }
}

/// Records the type that a variable names: unless it is a built-in scalar it
/// becomes an input stub, and the opaque scalar is declared for its field.
pub fn collect_named_types_from_var_type(ty: &TypeRef, inputs: &mut NameSet, scalars: &mut NameSet)
    requires
        old(inputs).wf(),
        old(scalars).wf(),
    ensures
        final(inputs).wf(),
        final(scalars).wf(),
        builtin_scalar(base_name(ty@)) ==> final(inputs)@ == old(inputs)@ && final(scalars)@ == old(
            scalars,
        )@,
        !builtin_scalar(base_name(ty@)) ==> final(inputs)@ == old(inputs)@.insert(base_name(ty@))
            && final(scalars)@ == old(scalars)@.insert("JSON"@),
    decreases ty,
{
    match ty {
        TypeRef::Named(name) => {
            if is_builtin_scalar(name.as_str()) {
                return ;
            }
            inputs.insert(name.as_str());
            scalars.insert("JSON");
        },
        TypeRef::List(inner) => collect_named_types_from_var_type(inner, inputs, scalars),
        TypeRef::NonNull(inner) => collect_named_types_from_var_type(inner, inputs, scalars),
    }
}

} // verus!
