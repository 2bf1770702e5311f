//! Client documents: operations and fragments with their selection sets, and
//! the index of fragments by name.

use crate::names::NameMap;
use crate::schema_gen::TypeRef;
use vstd::prelude::*;

verus! {

/// The value of an argument, as far as the inference reads it: its kind, and
/// for a variable its name.
#[derive(Debug, Clone)]
pub enum ArgumentValue {
    Variable(String),
    Int,
    Float,
    String,
    Boolean,
    Null,
    Enum,
    List,
    Object,
}

/// One argument of a field.
#[derive(Debug, Clone)]
pub struct Argument {
    pub name: String,
    pub value: ArgumentValue,
}

/// A selected field with its arguments and its own selection set.
#[derive(Debug)]
pub struct Field {
    pub name: String,
    pub arguments: Vec<Argument>,
    pub selection_set: SelectionSet,
}

/// The use of a fragment by name.
#[derive(Debug, Clone)]
pub struct FragmentSpread {
    pub fragment_name: String,
}

/// A nested selection set, narrowed to a type where a condition is given.
#[derive(Debug)]
pub struct InlineFragment {
    pub type_condition: Option<String>,
    pub selection_set: SelectionSet,
}

/// One thing that a selection set asks for.
#[derive(Debug)]
pub enum Selection {
    Field(Field),
    FragmentSpread(FragmentSpread),
    InlineFragment(InlineFragment),
}

/// What is requested at one nesting level, in order.
#[derive(Debug)]
pub struct SelectionSet {
    pub items: Vec<Selection>,
}

/// A variable of an operation with its declared type.
#[derive(Debug, Clone)]
pub struct VariableDefinition {
    pub name: String,
    pub var_type: TypeRef,
}

/// What kind of operation a definition is.
#[derive(Debug, Clone, Copy, PartialEq, Eq)]
pub enum OperationKind {
    Query,
    Mutation,
    Subscription,
    /// A bare selection set, which is a query without a header.
    SelectionSet,
}

/// An operation with its variables and its selection set.
#[derive(Debug)]
pub struct Operation {
    pub kind: OperationKind,
    pub variable_definitions: Vec<VariableDefinition>,
    pub selection_set: SelectionSet,
}

/// A named selection set bound to the type it applies to.
#[derive(Debug)]
pub struct FragmentDefinition {
    pub name: String,
    pub type_condition: String,
    pub selection_set: SelectionSet,
}

/// One definition of a document: an operation or a fragment.
#[derive(Debug)]
pub enum Definition {
    Operation(Operation),
    Fragment(FragmentDefinition),
}

/// One parsed document.
#[derive(Debug)]
pub struct Document {
    pub definitions: Vec<Definition>,
}

/// The fragments of a list of definitions laid over `m`: a later definition
/// of a name replaces an earlier one.
pub open spec fn definitions_fragments(
    m: Map<Seq<char>, FragmentDefinition>,
    defs: Seq<Definition>,
) -> Map<Seq<char>, FragmentDefinition>
    decreases defs.len(),
{
    if defs.len() == 0 {
        m
    } else {
        let before = definitions_fragments(m, defs.drop_last());
        match defs.last() {
            Definition::Fragment(f) => before.insert(f.name@, f),
            Definition::Operation(_) => before,
        }
    }
}

/// The fragments of all documents by name. Where a name is defined more than
/// once, the last definition in document order counts.
pub open spec fn all_fragments(docs: Seq<Document>) -> Map<Seq<char>, FragmentDefinition>
    decreases docs.len(),
{
    if docs.len() == 0 {
        Map::empty()
    } else {
        definitions_fragments(all_fragments(docs.drop_last()), docs.last().definitions@)
    }
}

/// A fragment index as a map from names to definitions.
pub open spec fn fragment_map(index: NameMap<&FragmentDefinition>) -> Map<Seq<char>, FragmentDefinition> {
    Map::new(|k: Seq<char>| index.has(k), |k: Seq<char>| *index.value_of(k))
}

/// Indexes the fragment definitions of all documents by name.
pub fn index_fragments<'a>(docs: &'a Vec<Document>) -> (r: NameMap<&'a FragmentDefinition>)
    ensures
        r.wf(),
        fragment_map(r) == all_fragments(docs@),
{
    let mut out: NameMap<&'a FragmentDefinition> = NameMap::new();
    assert(fragment_map(out) =~= all_fragments(docs@.subrange(0, 0)));
    let mut i: usize = 0;
    while i < docs.len()
        invariant
            i <= docs.len(),
            out.wf(),
            fragment_map(out) == all_fragments(docs@.subrange(0, i as int)),
        decreases docs.len() - i,
    {
        let defs = &docs[i].definitions;
        let ghost base = fragment_map(out);
        assert(fragment_map(out) =~= definitions_fragments(base, defs@.subrange(0, 0)));
        let mut j: usize = 0;
        while j < defs.len()
            invariant
                j <= defs.len(),
                out.wf(),
                fragment_map(out) == definitions_fragments(base, defs@.subrange(0, j as int)),
            decreases defs.len() - j,
        {
            let ghost out0 = out;
            match &defs[j] {
                Definition::Fragment(frag) => {
                    match out.find(frag.name.as_str()) {
                        Some(pos) => {
                            let slot = out.value_mut(pos);
                            *slot = frag;
                            proof {
                                crate::names::lemma_value_updated(out0, out, pos as int);
                            }
                        },
                        None => {
                            out.insert_new(frag.name.as_str(), frag);
                        },
                    }
                    assert(fragment_map(out) =~= fragment_map(out0).insert(frag.name@, *frag));
                },
                Definition::Operation(_) => {},
            }
            proof {
                let next = defs@.subrange(0, j as int + 1);
                assert(next.drop_last() =~= defs@.subrange(0, j as int));
                assert(next.last() == defs@[j as int]);
            }
            j = j + 1;
        }
        proof {
            assert(defs@.subrange(0, defs.len() as int) =~= defs@);
            let next = docs@.subrange(0, i as int + 1);
            assert(next.drop_last() =~= docs@.subrange(0, i as int));
            assert(next.last() == docs@[i as int]);
        }
        i = i + 1;
    }
    assert(docs@.subrange(0, docs.len() as int) =~= docs@);
    out
}

} // verus!
