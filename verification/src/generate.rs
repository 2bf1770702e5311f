//! From documents to schema text: the draft that a list of documents implies.

use crate::document::{
    all_fragments, fragment_map, index_fragments, Definition, Document, Operation, OperationKind,
    VariableDefinition,
};
use crate::infer::{base_name, builtin_scalar, collect_named_types_from_var_type, var_type_map, var_types};
use crate::names::{ascending, lemma_ascending_unique, lemma_index_unique, NameMap, NameSet};
use crate::render::{lemma_text_of_model, render_schema, schema_text, source_paths};
use crate::schema_gen::{args_model, DraftModel, FieldModel, SchemaDraft, TypeExpr, TypeRef};
use crate::walker::{process_selection_set, walk_set, FragmentMap};
use vstd::prelude::*;
use vstd::string::StringExecFns;

verus! {

/// The draft before any document is walked: the opaque scalar is declared,
/// and `Query` and `Mutation` are there without fields.
pub open spec fn initial_model() -> DraftModel {
    DraftModel {
        objects: Map::<Seq<char>, Map<Seq<char>, FieldModel>>::empty().insert(
            "Query"@,
            Map::empty(),
        ).insert("Mutation"@, Map::empty()),
        inputs: Set::empty(),
        unions: Map::empty(),
        scalars: Set::<Seq<char>>::empty().insert("JSON"@),
    }
}

/// The draft after the types of the variables from position `i` on were
/// recorded: each that is no built-in scalar is an input stub.
pub open spec fn with_inputs(d: DraftModel, vars: Seq<VariableDefinition>, i: int) -> DraftModel
    decreases vars.len() - i,
{
    if 0 <= i < vars.len() {
        let name = base_name(vars[i].var_type@);
        let next = if builtin_scalar(name) {
            d
        } else {
            DraftModel { inputs: d.inputs.insert(name), scalars: d.scalars.insert("JSON"@), ..d }
        };
        with_inputs(next, vars, i + 1)
    } else {
        d
    }
}

/// The root type under which an operation's selection set is walked.
pub open spec fn root_type(kind: OperationKind) -> Seq<char> {
    match kind {
        OperationKind::Mutation => "Mutation"@,
        _ => "Query"@,
    }
}

/// The draft after one operation was walked. A bare selection set has no
/// variables.
pub open spec fn walk_operation(d: DraftModel, op: Operation, frags: FragmentMap, depth: nat) -> DraftModel {
    match op.kind {
        OperationKind::SelectionSet => walk_set(
            d,
            "Query"@,
            op.selection_set,
            frags,
            Map::empty(),
            Set::empty(),
            depth,
        ),
        _ => walk_set(
            with_inputs(d, op.variable_definitions@, 0),
            root_type(op.kind),
            op.selection_set,
            frags,
            var_types(op.variable_definitions@),
            Set::empty(),
            depth,
        ),
    }
}

/// The draft after the operations among the definitions from position `i` on
/// were walked.
pub open spec fn walk_definitions(
    d: DraftModel,
    defs: Seq<Definition>,
    i: int,
    frags: FragmentMap,
    depth: nat,
) -> DraftModel
    decreases defs.len() - i,
{
    if 0 <= i < defs.len() {
        let next = match defs[i] {
            Definition::Operation(op) => walk_operation(d, op, frags, depth),
            Definition::Fragment(_) => d,
        };
        walk_definitions(next, defs, i + 1, frags, depth)
    } else {
        d
    }
}

/// The draft after the operations of the documents from position `i` on were
/// walked, in document order.
pub open spec fn walk_documents(
    d: DraftModel,
    docs: Seq<Document>,
    i: int,
    frags: FragmentMap,
    depth: nat,
) -> DraftModel
    decreases docs.len() - i,
{
    if 0 <= i < docs.len() {
        walk_documents(
            walk_definitions(d, docs[i].definitions@, 0, frags, depth),
            docs,
            i + 1,
            frags,
            depth,
        )
    } else {
        d
    }
}

/// The draft after the fragments named from position `i` of `names` on were
/// walked, each under the type it is declared on.
pub open spec fn walk_fragments(d: DraftModel, frags: FragmentMap, names: Seq<Seq<char>>, i: int) -> DraftModel
    decreases names.len() - i,
{
    if 0 <= i < names.len() {
        let frag = frags[names[i]];
        walk_fragments(
            walk_set(
                d.ensure_object(frag.type_condition@),
                frag.type_condition@,
                frag.selection_set,
                frags,
                Map::empty(),
                Set::<Seq<char>>::empty().insert(names[i]),
                names.len(),
            ),
            frags,
            names,
            i + 1,
        )
    } else {
        d
    }
}

/// The names of a set in ascending order.
pub open spec fn in_order(names: Set<Seq<char>>) -> Seq<Seq<char>> {
    choose|l: Seq<Seq<char>>| ascending(l) && l.to_set() == names
}

/// The draft that a list of documents implies: every operation is walked in
/// document order, then every fragment by ascending name.
pub open spec fn walk_all(docs: Seq<Document>) -> DraftModel {
    let frags = all_fragments(docs);
    let names = in_order(frags.dom());
    walk_fragments(walk_documents(initial_model(), docs, 0, frags, names.len()), frags, names, 0)
}

/// A draft in order that holds what `m` holds.
pub open spec fn draft_of(m: DraftModel) -> SchemaDraft {
    choose|d: SchemaDraft| d.wf() && d@ == m
}

/// The schema text of a draft given as a model. Every draft in order that
/// holds `m` has this text.
pub open spec fn model_text(m: DraftModel, paths: Seq<Seq<char>>) -> Seq<char> {
    schema_text(draft_of(m), paths)
}

/// Records the types that the variables of an operation name.
pub fn collect_inputs_from_vars(draft: &mut SchemaDraft, vars: &Vec<VariableDefinition>)
    requires
        old(draft).wf(),
    ensures
        final(draft).wf(),
        final(draft)@ == with_inputs(old(draft)@, vars@, 0),
{
    let ghost goal = with_inputs(draft@, vars@, 0);
    let mut i: usize = 0;
    while i < vars.len()
        invariant
            i <= vars.len(),
            draft.wf(),
            with_inputs(draft@, vars@, i as int) == goal,
        decreases vars.len() - i,
    {
        collect_named_types_from_var_type(&vars[i].var_type, &mut draft.inputs, &mut draft.scalars);
        i = i + 1;
    }
}

/// Builds the draft that the documents imply.
pub fn infer_schema(docs: &Vec<Document>) -> (draft: SchemaDraft)
    ensures
        draft.wf(),
        draft@ == walk_all(docs@),
{
    let index = index_fragments(docs);
    let fragments = &index;
    let ghost frags = fragment_map(index);
    let ghost names = index.names();
    proof {
        assert(names.to_set() =~= frags.dom());
        let chosen = in_order(frags.dom());
        assert forall|k: Seq<char>| names.contains(k) <==> chosen.contains(k) by {
            assert(names.to_set().contains(k) == names.contains(k));
            assert(chosen.to_set().contains(k) == chosen.contains(k));
        }
        lemma_ascending_unique(names, chosen);
    }
    let mut draft = SchemaDraft::new();
    draft.scalars.insert("JSON");
    draft.ensure_object("Query");
    draft.ensure_object("Mutation");
    assert(draft@.objects =~= initial_model().objects);
    assert(draft@ == initial_model());

    let depth = fragments.len();
    let no_vars: NameMap<TypeRef> = NameMap::new();
    assert(args_model(no_vars) =~= Map::empty());
    let nothing_open = NameSet::new();

    let ghost goal = walk_documents(draft@, docs@, 0, frags, depth as nat);
    let mut i: usize = 0;
    while i < docs.len()
        invariant
            i <= docs.len(),
            draft.wf(),
            fragments.wf(),
            frags == fragment_map(*fragments),
            no_vars.wf(),
            nothing_open.wf(),
            nothing_open@ == Set::<Seq<char>>::empty(),
            args_model(no_vars) == Map::<Seq<char>, TypeExpr>::empty(),
            walk_documents(draft@, docs@, i as int, frags, depth as nat) == goal,
        decreases docs.len() - i,
    {
        let defs = &docs[i].definitions;
        let ghost inner = walk_definitions(draft@, defs@, 0, frags, depth as nat);
        let mut j: usize = 0;
        while j < defs.len()
            invariant
                j <= defs.len(),
                draft.wf(),
                fragments.wf(),
                frags == fragment_map(*fragments),
                no_vars.wf(),
                nothing_open.wf(),
                nothing_open@ == Set::<Seq<char>>::empty(),
                args_model(no_vars) == Map::<Seq<char>, TypeExpr>::empty(),
                walk_definitions(draft@, defs@, j as int, frags, depth as nat) == inner,
            decreases defs.len() - j,
        {
            if let Definition::Operation(op) = &defs[j] {
                match op.kind {
                    OperationKind::SelectionSet => {
                        process_selection_set(
                            &mut draft,
                            "Query",
                            &op.selection_set,
                            fragments,
                            &no_vars,
                            &nothing_open,
                            depth,
                        );
                    },
                    OperationKind::Mutation => {
                        collect_inputs_from_vars(&mut draft, &op.variable_definitions);
                        let vars = var_type_map(&op.variable_definitions);
                        process_selection_set(
                            &mut draft,
                            "Mutation",
                            &op.selection_set,
                            fragments,
                            &vars,
                            &nothing_open,
                            depth,
                        );
                    },
                    _ => {
                        collect_inputs_from_vars(&mut draft, &op.variable_definitions);
                        let vars = var_type_map(&op.variable_definitions);
                        process_selection_set(
                            &mut draft,
                            "Query",
                            &op.selection_set,
                            fragments,
                            &vars,
                            &nothing_open,
                            depth,
                        );
                    },
                }
            }
            j = j + 1;
        }
        i = i + 1;
    }

    let ghost goal = walk_fragments(draft@, frags, names, 0);
    let mut i: usize = 0;
    while i < fragments.len()
        invariant
            i <= fragments.names().len(),
            draft.wf(),
            fragments.wf(),
            frags == fragment_map(*fragments),
            names == fragments.names(),
            depth == names.len(),
            no_vars.wf(),
            args_model(no_vars) == Map::<Seq<char>, TypeExpr>::empty(),
            walk_fragments(draft@, frags, names, i as int) == goal,
        decreases fragments.names().len() - i,
    {
        let frag = *fragments.value(i);
        proof {
            lemma_index_unique(names, i as int);
            assert(frags[names[i as int]] == *fragments.values()[i as int]);
        }
        let mut open = NameSet::new();
        open.insert(fragments.key(i));
        draft.ensure_object(frag.type_condition.as_str());
        process_selection_set(
            &mut draft,
            frag.type_condition.as_str(),
            &frag.selection_set,
            fragments,
            &no_vars,
            &open,
            depth,
        );
        i = i + 1;
    }
    draft
}

/// The schema text that the documents imply, with the paths of `sources` in
/// its header.
pub fn render_schema_from_documents(sources: &Vec<(String, String)>, docs: &Vec<Document>) -> (r: String)
    ensures
        r@ == model_text(walk_all(docs@), source_paths(sources@)),
{
    let draft = infer_schema(docs);
    proof {
        let m = walk_all(docs@);
        let paths = source_paths(sources@);
        assert(draft.wf() && draft@ == m);
        lemma_text_of_model(draft_of(m), draft, paths);
    }
    render_schema(&draft, sources)
}

/// One source file after the attempt to parse it.
#[derive(Debug)]
pub struct ParsedSource {
    /// The path of the file.
    pub path: String,
    /// The document, or the parser's words on why the text is none.
    pub outcome: Result<Document, String>,
}

/// A source file that is no document.
#[derive(Debug, Clone)]
pub struct ParseFailure {
    /// The path of the file.
    pub path: String,
    /// The parser's words.
    pub message: String,
}

impl ParseFailure {
    /// The failure in words: the path, then what the parser said.
    pub open spec fn text(self) -> Seq<char> {
        "parse error in "@ + self.path@ + ": "@ + self.message@
    }

    /// The failure in words.
    pub fn to_text(&self) -> (r: String)
        ensures
            r@ == self.text(),
    {
        let mut out = String::from_str("parse error in ");
        out.append(self.path.as_str());
        out.append(": ");
        out.append(self.message.as_str());
        out
    }
}

/// The position of the first source that is no document, or the number of
/// sources where all are.
pub open spec fn first_failure(sources: Seq<ParsedSource>, i: int) -> int
    decreases sources.len() - i,
{
    if i < 0 || i >= sources.len() {
        sources.len() as int
    } else if sources[i].outcome is Err {
        i
    } else {
        first_failure(sources, i + 1)
    }
}

/// The paths of the sources, each with an empty text beside it.
pub open spec fn parsed_paths(sources: Seq<ParsedSource>) -> Seq<Seq<char>> {
    Seq::new(sources.len(), |i: int| sources[i].path@)
}

/// The documents of sources that all parsed.
pub open spec fn parsed_documents(sources: Seq<ParsedSource>) -> Seq<Document> {
    Seq::new(sources.len(), |i: int| sources[i].outcome->Ok_0)
}

/// The schema text that the sources imply, once each of them was parsed.
///
/// One source that is no document fails the whole run, with the path of the
/// first such source and the parser's words on it; nothing is rendered then.
pub fn render_schema_from_parsed(sources: Vec<ParsedSource>) -> (r: Result<String, ParseFailure>)
    ensures
        r is Ok <==> first_failure(sources@, 0) == sources@.len(),
        r matches Ok(text) ==> text@ == model_text(
            walk_all(parsed_documents(sources@)),
            parsed_paths(sources@),
        ),
        r matches Err(failure) ==> {
            let k = first_failure(sources@, 0);
            k < sources@.len() && failure.path@ == sources@[k].path@ && failure.message@
                == sources@[k].outcome->Err_0@
        },
{
    let ghost all = sources@;
    let mut paths: Vec<(String, String)> = Vec::new();
    let mut docs: Vec<Document> = Vec::new();
    for source in it: sources.into_iter()
        invariant
            it.seq() == all,
            first_failure(all, it.index() as int) == first_failure(all, 0),
            paths.len() == it.index(),
            docs.len() == it.index(),
            forall|k: int| 0 <= k < it.index() ==> paths@[k].0@ == (#[trigger] all[k]).path@,
            forall|k: int|
                0 <= k < it.index() ==> (#[trigger] all[k]).outcome is Ok && docs@[k] == all[k].outcome->Ok_0,
    {
        assert(source == all[it.index() as int]);
        let ghost paths0 = paths@;
        let ghost docs0 = docs@;
        match source.outcome {
            Ok(doc) => {
                paths.push((source.path, String::new()));
                docs.push(doc);
                proof {
                    assert forall|k: int| 0 <= k < it.index() + 1 implies paths@[k].0@ == (#[trigger] all[k]).path@ by {
                        if k < it.index() {
                            assert(paths@[k] == paths0[k]);
                        }
                    }
                    assert forall|k: int| 0 <= k < it.index() + 1 implies (#[trigger] all[k]).outcome is Ok
                        && docs@[k] == all[k].outcome->Ok_0 by {
                        if k < it.index() {
                            assert(docs@[k] == docs0[k]);
                        }
                    }
                }
            },
            Err(message) => {
                return Err(ParseFailure { path: source.path, message });
            },
        }
    }
    proof {
        assert(source_paths(paths@) =~= parsed_paths(all));
        assert(docs@ =~= parsed_documents(all));
    }
    Ok(render_schema_from_documents(&paths, &docs))
}

} // verus!
