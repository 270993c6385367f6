//! What holds of the patches that an override asks for, whatever its script holds.

use crate::plugin_engine::script_outline::{
    script_outline, EntryView, ExpressionView, InitKind, PropertyView, StatementView, TargetView,
};
use crate::plugin_engine::script_patch::{
    begin_transform, build_wrapper_snippet, extract_patch_specs, finish_transform, kept_name,
    make_internal_original_name, open_patch, patch_views, property, read_patch, read_patches,
    script_manifest, statement_manifest, targets, text_property, wrapper_text, FunctionPatchSpec,
    PatchMode, PatchState, PatchTable, PatchView, TransformResult, TransformStep,
};
use crate::text::{decimal, is_blank, joined, views};
use vstd::prelude::*;

verus! {

/// True if the entry in a place is the first with a key.
pub open spec fn is_first_with(entries: Seq<EntryView>, key: Seq<char>, i: int) -> bool {
    &&& 0 <= i < entries.len()
    &&& entries[i].key == Some(key)
    &&& forall|k: int| 0 <= k < i ==> (#[trigger] entries[k]).key != Some(key)
}

/// True if an object gives a key a text: the first entry with the key holds it.
pub open spec fn gives(entries: Seq<EntryView>, key: Seq<char>, text: Seq<char>) -> bool {
    exists|i: int| #[trigger]
        is_first_with(entries, key, i) && entries[i].value == ExpressionView::Text(text)
}

/// True if an object gives a key no text.
pub open spec fn gives_none(entries: Seq<EntryView>, key: Seq<char>) -> bool {
    forall|text: Seq<char>| !#[trigger] gives(entries, key, text)
}

proof fn lemma_property(entries: Seq<EntryView>, key: Seq<char>)
    ensures
        property(entries, key) matches Some(value) ==> exists|i: int| #[trigger]
            is_first_with(entries, key, i) && entries[i].value == value,
        property(entries, key) is None ==> forall|k: int|
            0 <= k < entries.len() ==> (#[trigger] entries[k]).key != Some(key),
    decreases entries.len(),
{
    if entries.len() > 0 && entries[0].key != Some(key) {
        let rest = entries.drop_first();
        lemma_property(rest, key);
        match property(entries, key) {
            Some(value) => {
                let i = choose|i: int| #[trigger]
                    is_first_with(rest, key, i) && rest[i].value == value;
                assert forall|k: int| 0 <= k < i + 1 implies (#[trigger] entries[k]).key != Some(
                    key,
                ) by {
                    if k > 0 {
                        assert(rest[k - 1] == entries[k]);
                    }
                }
                assert(is_first_with(entries, key, i + 1));
            },
            None => {
                assert forall|k: int| 0 <= k < entries.len() implies (#[trigger] entries[k]).key
                    != Some(key) by {
                    if k > 0 {
                        assert(rest[k - 1] == entries[k]);
                    }
                }
            },
        }
    } else if entries.len() > 0 {
        assert(is_first_with(entries, key, 0));
    }
}

proof fn lemma_first_is_one(entries: Seq<EntryView>, key: Seq<char>, i: int, j: int)
    requires
        is_first_with(entries, key, i),
        is_first_with(entries, key, j),
    ensures
        i == j,
{
    if i < j {
        assert(entries[i].key != Some(key));
    } else if j < i {
        assert(entries[j].key != Some(key));
    }
}

proof fn lemma_text_property(entries: Seq<EntryView>, key: Seq<char>)
    ensures
        forall|text: Seq<char>| #[trigger]
            gives(entries, key, text) <==> text_property(entries, key) == Some(text),
{
    lemma_property(entries, key);
    assert forall|text: Seq<char>| #[trigger]
        gives(entries, key, text) <==> text_property(entries, key) == Some(text) by {
        if gives(entries, key, text) {
            let i = choose|i: int| #[trigger]
                is_first_with(entries, key, i) && entries[i].value == ExpressionView::Text(text);
            match property(entries, key) {
                Some(value) => {
                    let j = choose|j: int| #[trigger]
                        is_first_with(entries, key, j) && entries[j].value == value;
                    lemma_first_is_one(entries, key, i, j);
                },
                None => {
                    assert(entries[i].key != Some(key));
                },
            }
        }
    }
}

/// True if a patch is the one that an element of the list asks for: a text asks for a wrapper
/// of the function of that name, and an object for a patch of its target, by the function that
/// it names or else by one with the name of the target. The patch takes the place of the
/// function where the object says `replace`, and wraps it where it says `wrap` or nothing.
pub open spec fn asks_for(element: ExpressionView, patch: PatchView) -> bool {
    match element {
        ExpressionView::Text(name) => patch.target == name && patch.patch_function == name
            && patch.mode == PatchMode::Wrap && !is_blank(name),
        ExpressionView::Object(entries) => {
            &&& gives(entries, "target"@, patch.target)
            &&& !is_blank(patch.target)
            &&& gives(entries, "with"@, patch.patch_function) || (gives_none(entries, "with"@)
                && patch.patch_function == patch.target)
            &&& !is_blank(patch.patch_function)
            &&& patch.mode == PatchMode::Replace <==> gives(entries, "mode"@, "replace"@)
            &&& patch.mode == PatchMode::Wrap <==> gives(entries, "mode"@, "wrap"@) || gives_none(
                entries,
                "mode"@,
            )
        },
        _ => false,
    }
}

proof fn lemma_modes_differ()
    ensures
        "wrap"@ != "replace"@,
{
    reveal_strlit("wrap");
    reveal_strlit("replace");
    assert("wrap"@.len() == 4 && "replace"@.len() == 7);
}

proof fn lemma_read_patch(element: ExpressionView, idx: int)
    ensures
        read_patch(element, idx) matches Ok(patch) ==> asks_for(element, patch),
        forall|patch: PatchView| #[trigger]
            asks_for(element, patch) ==> read_patch(element, idx) == Ok::<PatchView, Seq<char>>(
                patch,
            ),
{
    lemma_modes_differ();
    if let ExpressionView::Object(entries) = element {
        lemma_text_property(entries, "target"@);
        lemma_text_property(entries, "with"@);
        lemma_text_property(entries, "mode"@);
        match text_property(entries, "mode"@) {
            Some(mode) => assert(gives(entries, "mode"@, mode)),
            None => {},
        }
        match text_property(entries, "with"@) {
            Some(with) => assert(gives(entries, "with"@, with)),
            None => {},
        }
        assert forall|patch: PatchView| #[trigger] asks_for(element, patch) implies read_patch(
            element,
            idx,
        ) == Ok::<PatchView, Seq<char>>(patch) by {
            assert(gives(entries, "target"@, patch.target));
        }
    }
}

/// True if patches are those that the elements of a list ask for: one for each element that is
/// there, in order, and no two for one function.
pub open spec fn are_asked_for(
    elements: Seq<Option<ExpressionView>>,
    patches: Seq<PatchView>,
    at: Seq<int>,
) -> bool {
    &&& at.len() == patches.len()
    &&& forall|k: int| 0 <= k < at.len() ==> 0 <= #[trigger] at[k] < elements.len()
    &&& forall|k: int, l: int| 0 <= k < l < at.len() ==> #[trigger] at[k] < #[trigger] at[l]
    &&& forall|k: int|
        0 <= k < at.len() ==> (elements[#[trigger] at[k]] matches Some(element) && asks_for(
            element,
            patches[k],
        ))
    &&& forall|i: int|
        0 <= i < elements.len() && #[trigger] elements[i] is Some ==> at.contains(i)
    &&& forall|k: int, l: int|
        0 <= k < l < patches.len() ==> (#[trigger] patches[k]).target != (
        #[trigger] patches[l]).target
}

proof fn lemma_read_patches(elements: Seq<Option<ExpressionView>>) -> (at: Seq<int>)
    ensures
        read_patches(elements) matches Ok(patches) ==> are_asked_for(elements, patches, at),
    decreases elements.len(),
{
    if elements.len() == 0 {
        Seq::empty()
    } else {
        let init = elements.drop_last();
        let last = elements.len() - 1;
        let before = lemma_read_patches(init);
        match read_patches(elements) {
            Err(_) => before,
            Ok(patches) => {
                let old_patches = read_patches(init)->Ok_0;
                assert(are_asked_for(init, old_patches, before));
                assert forall|i: int| 0 <= i < init.len() implies init[i]
                    == #[trigger] elements[i] by {}
                let at = if elements[last] is None {
                    before
                } else {
                    before.push(last)
                };
                if elements[last] is Some {
                    lemma_read_patch(elements[last].unwrap(), last);
                }
                assert forall|k: int| 0 <= k < at.len() implies (elements[#[trigger] at[k]] matches Some(
                    element,
                ) && asks_for(element, patches[k])) by {
                    if k < before.len() {
                        assert(at[k] == before[k]);
                        assert(patches[k] == old_patches[k]);
                        assert(init[before[k]] == elements[before[k]]);
                    }
                }
                assert forall|i: int|
                    0 <= i < elements.len() && #[trigger] elements[i] is Some implies at.contains(
                    i,
                ) by {
                    if i < last {
                        assert(init[i] is Some);
                        assert(before.contains(i));
                        let k = choose|k: int| 0 <= k < before.len() && before[k] == i;
                        assert(at[k] == i);
                    } else {
                        assert(at[before.len() as int] == last);
                    }
                }
                assert forall|k: int, l: int| 0 <= k < l < at.len() implies #[trigger] at[k]
                    < #[trigger] at[l] by {
                    if l < before.len() {
                        assert(at[k] == before[k] && at[l] == before[l]);
                    } else {
                        assert(at[k] == before[k]);
                    }
                }
                assert forall|k: int| 0 <= k < at.len() implies 0 <= #[trigger] at[k]
                    < elements.len() by {
                    if k < before.len() {
                        assert(at[k] == before[k]);
                    }
                }
                crate::plugin_engine::script_patch::law_accepted_patches_have_distinct_targets(
                    elements,
                );
                at
            },
        }
    }
}

/// True if a statement gives the manifest: it assigns an object to
/// `globalThis.__openusage_ast_patch`, with a dot or in brackets.
pub open spec fn is_manifest(statement: StatementView, entries: Seq<EntryView>) -> bool {
    statement matches StatementView::Assign {
        target: TargetView::Member { object, property },
        value,
    } && value == ExpressionView::Object(entries) && object == Some("globalThis"@) && (property
        == PropertyView::Name("__openusage_ast_patch"@) || property == PropertyView::Text(
        "__openusage_ast_patch"@,
    ))
}

/// True if a statement gives a manifest.
pub open spec fn gives_manifest(statement: StatementView) -> bool {
    exists|entries: Seq<EntryView>| is_manifest(statement, entries)
}

/// True if the statement in a place is the first that gives a manifest, and gives this one.
pub open spec fn is_first_manifest(
    statements: Seq<StatementView>,
    entries: Seq<EntryView>,
    i: int,
) -> bool {
    &&& 0 <= i < statements.len()
    &&& is_manifest(statements[i], entries)
    &&& forall|k: int| 0 <= k < i ==> !gives_manifest(#[trigger] statements[k])
}

proof fn lemma_statement_manifest(statement: StatementView)
    ensures
        statement_manifest(statement) matches Some(entries) ==> is_manifest(statement, entries),
        statement_manifest(statement) is None ==> !gives_manifest(statement),
{
}

proof fn lemma_script_manifest(statements: Seq<StatementView>)
    ensures
        script_manifest(statements) matches Some(entries) ==> exists|i: int| #[trigger]
            is_first_manifest(statements, entries, i),
        script_manifest(statements) is None ==> forall|k: int|
            0 <= k < statements.len() ==> !gives_manifest(#[trigger] statements[k]),
    decreases statements.len(),
{
    if statements.len() > 0 {
        lemma_statement_manifest(statements[0]);
        let rest = statements.drop_first();
        lemma_script_manifest(rest);
        match statement_manifest(statements[0]) {
            Some(entries) => {
                assert(is_first_manifest(statements, entries, 0));
            },
            None => {
                match script_manifest(rest) {
                    Some(entries) => {
                        let i = choose|i: int| #[trigger] is_first_manifest(rest, entries, i);
                        assert forall|k: int| 0 <= k < i + 1 implies !gives_manifest(
                            #[trigger] statements[k],
                        ) by {
                            if k > 0 {
                                assert(rest[k - 1] == statements[k]);
                            }
                        }
                        assert(is_first_manifest(statements, entries, i + 1));
                    },
                    None => {
                        assert forall|k: int| 0 <= k < statements.len() implies !gives_manifest(
                            #[trigger] statements[k],
                        ) by {
                            if k > 0 {
                                assert(rest[k - 1] == statements[k]);
                            }
                        }
                    },
                }
            },
        }
    }
}

/// True if a script declares a function at its top: by a declaration of its own, or as a
/// variable that begins with a function, a call or something in parentheses.
pub open spec fn declares(statement: StatementView, name: Seq<char>) -> bool {
    match statement {
        StatementView::Function(own) => own == name,
        StatementView::Variables(variables) => exists|i: int|
            0 <= i < variables.len() && (#[trigger] variables[i]).name == Some(name) && (
            variables[i].init == Some(InitKind::Function) || variables[i].init == Some(
                InitKind::Arrow,
            ) || variables[i].init == Some(InitKind::Call) || variables[i].init == Some(
                InitKind::Parenthesis,
            )),
        _ => false,
    }
}

/// True if a list of patches is the list that a script asks for.
pub open spec fn is_list_of(statements: Seq<StatementView>, patches: Seq<PatchView>) -> bool {
    exists|i: int, entries: Seq<EntryView>, k: int, elements: Seq<Option<ExpressionView>>, at:
        Seq<int>|
        #![trigger is_first_manifest(statements, entries, i), is_first_with(
            entries,
            "functions"@,
            k,
        ), are_asked_for(elements, patches, at)]
        is_first_manifest(statements, entries, i) && is_first_with(entries, "functions"@, k)
            && entries[k].value == ExpressionView::Array(elements) && are_asked_for(
            elements,
            patches,
            at,
        )
}

proof fn lemma_declares(statement: StatementView, name: Seq<char>)
    ensures
        crate::plugin_engine::script_patch::statement_declares(statement, name) <==> declares(
            statement,
            name,
        ),
{
    if let StatementView::Variables(variables) = statement {
        assert forall|i: int| 0 <= i < variables.len() implies (
        crate::plugin_engine::script_patch::variable_declares(variables[i], name) <==> (
        #[trigger] variables[i]).name == Some(name) && (variables[i].init == Some(
            InitKind::Function,
        ) || variables[i].init == Some(InitKind::Arrow) || variables[i].init == Some(
            InitKind::Call,
        ) || variables[i].init == Some(InitKind::Parenthesis))) by {}
        if declares(statement, name) {
            let i = choose|i: int|
                0 <= i < variables.len() && (#[trigger] variables[i]).name == Some(name) && (
                variables[i].init == Some(InitKind::Function) || variables[i].init == Some(
                    InitKind::Arrow,
                ) || variables[i].init == Some(InitKind::Call) || variables[i].init == Some(
                    InitKind::Parenthesis,
                ));
            assert(crate::plugin_engine::script_patch::variable_declares(variables[i], name));
        }
    }
}

proof fn lemma_all_declared(statements: Seq<StatementView>, patches: Seq<PatchView>)
    ensures
        crate::plugin_engine::script_patch::undeclared_patch(statements, patches) is None
            <==> forall|k: int|
            0 <= k < patches.len() ==> crate::plugin_engine::script_patch::script_declares(
                statements,
                (#[trigger] patches[k]).patch_function,
            ),
    decreases patches.len(),
{
    if patches.len() > 0 {
        let rest = patches.drop_first();
        lemma_all_declared(statements, rest);
        if crate::plugin_engine::script_patch::undeclared_patch(statements, patches) is None {
            assert forall|k: int|
                0 <= k < patches.len() implies crate::plugin_engine::script_patch::script_declares(
                statements,
                (#[trigger] patches[k]).patch_function,
            ) by {
                if k > 0 {
                    assert(rest[k - 1] == patches[k]);
                }
            }
        }
        if forall|k: int|
            0 <= k < patches.len() ==> crate::plugin_engine::script_patch::script_declares(
                statements,
                (#[trigger] patches[k]).patch_function,
            ) {
            assert(crate::plugin_engine::script_patch::script_declares(
                statements,
                patches[0].patch_function,
            ));
            assert forall|k: int|
                0 <= k < rest.len() implies crate::plugin_engine::script_patch::script_declares(
                statements,
                (#[trigger] rest[k]).patch_function,
            ) by {
                assert(rest[k] == patches[k + 1]);
            }
        }
    }
}

/// True if one of the statements declares a function.
pub open spec fn is_declared(statements: Seq<StatementView>, name: Seq<char>) -> bool {
    exists|i: int| 0 <= i < statements.len() && declares(#[trigger] statements[i], name)
}

proof fn lemma_is_declared(statements: Seq<StatementView>, name: Seq<char>)
    ensures
        crate::plugin_engine::script_patch::script_declares(statements, name) <==> is_declared(
            statements,
            name,
        ),
{
    if crate::plugin_engine::script_patch::script_declares(statements, name) {
        let i = choose|i: int|
            0 <= i < statements.len()
                && #[trigger] crate::plugin_engine::script_patch::statement_declares(
                statements[i],
                name,
            );
        lemma_declares(statements[i], name);
        assert(declares(statements[i], name));
    }
    if is_declared(statements, name) {
        let i = choose|i: int| 0 <= i < statements.len() && declares(#[trigger] statements[i], name);
        lemma_declares(statements[i], name);
        assert(crate::plugin_engine::script_patch::statement_declares(statements[i], name));
    }
}

/// What is extracted from an override is what its manifest asks for: the first manifest counts,
/// each element that is there asks for one patch, and each patch has a function that the
/// script declares. Without a manifest nothing is asked for.
pub proof fn law_patches_are_those_asked_for(
    source: &str,
    statements: Seq<StatementView>,
    r: Result<Option<Vec<FunctionPatchSpec>>, String>,
)
    requires
        call_ensures(extract_patch_specs, (source,), r),
        script_outline("override.js"@, source@) == Ok::<Seq<StatementView>, Seq<char>>(statements),
        !is_blank(source@),
    ensures
        r == Ok::<Option<Vec<FunctionPatchSpec>>, String>(None) <==> forall|k: int|
            0 <= k < statements.len() ==> !gives_manifest(#[trigger] statements[k]),
        r matches Ok(Some(patches)) ==> patches@.len() > 0 && is_list_of(
            statements,
            patch_views(patches@),
        ) && forall|k: int|
            0 <= k < patches@.len() ==> is_declared(
                statements,
                (#[trigger] patches@[k]).patch_function@,
            ),
{
    lemma_script_manifest(statements);
    match script_manifest(statements) {
        Some(entries) => {
            let i = choose|i: int| #[trigger] is_first_manifest(statements, entries, i);
            assert(gives_manifest(statements[i]));
            lemma_property(entries, "functions"@);
            if let Ok(Some(patches)) = r {
                let all = patch_views(patches@);
                let k = choose|k: int| #[trigger]
                    is_first_with(entries, "functions"@, k) && entries[k].value == property(
                        entries,
                        "functions"@,
                    ).unwrap();
                match property(entries, "functions"@) {
                    Some(ExpressionView::Array(elements)) => {
                        let at = lemma_read_patches(elements);
                        assert(are_asked_for(elements, all, at));
                        assert(is_list_of(statements, all));
                    },
                    _ => {},
                }
                lemma_all_declared(statements, all);
                assert forall|k: int| 0 <= k < patches@.len() implies is_declared(
                    statements,
                    (#[trigger] patches@[k]).patch_function@,
                ) by {
                    assert(all[k] == patches@[k]@);
                    lemma_is_declared(statements, patches@[k].patch_function@);
                }
            }
        },
        None => {},
    }
}

proof fn lemma_accepts(elements: Seq<Option<ExpressionView>>, patches: Seq<PatchView>, at: Seq<int>)
    requires
        are_asked_for(elements, patches, at),
    ensures
        read_patches(elements) == Ok::<Seq<PatchView>, Seq<char>>(patches),
    decreases elements.len(),
{
    if elements.len() == 0 {
        if at.len() > 0 {
            assert(0 <= at[0] < elements.len());
        }
        assert(patches =~= Seq::<PatchView>::empty());
    } else {
        let init = elements.drop_last();
        let last = elements.len() - 1;
        assert forall|i: int| 0 <= i < init.len() implies init[i] == #[trigger] elements[i] by {}
        if elements[last] is None {
            assert forall|k: int| 0 <= k < at.len() implies 0 <= #[trigger] at[k]
                < init.len() by {
                assert(elements[at[k]] is Some);
            }
            assert forall|i: int|
                0 <= i < init.len() && #[trigger] init[i] is Some implies at.contains(i) by {
                assert(elements[i] is Some);
            }
            assert(are_asked_for(init, patches, at));
            lemma_accepts(init, patches, at);
        } else {
            assert(at.contains(last));
            let top = choose|k: int| 0 <= k < at.len() && at[k] == last;
            if top < at.len() - 1 {
                assert(at[top] < at[at.len() - 1]);
                assert(at[at.len() - 1] < elements.len());
            }
            let before = at.drop_last();
            let fewer = patches.drop_last();
            assert forall|k: int| 0 <= k < before.len() implies 0 <= #[trigger] before[k]
                < init.len() by {
                assert(at[k] < at[at.len() - 1]);
            }
            assert forall|k: int| 0 <= k < before.len() implies (
            init[#[trigger] before[k]] matches Some(element) && asks_for(element, fewer[k])) by {
                assert(before[k] == at[k]);
                assert(elements[at[k]] is Some);
                assert(init[before[k]] == elements[at[k]]);
            }
            assert forall|i: int|
                0 <= i < init.len() && #[trigger] init[i] is Some implies before.contains(i) by {
                assert(elements[i] is Some);
                let k = choose|k: int| 0 <= k < at.len() && at[k] == i;
                assert(before[k] == i);
            }
            assert(are_asked_for(init, fewer, before));
            lemma_accepts(init, fewer, before);
            let end = patches.len() - 1;
            assert(elements[at[end]] is Some);
            lemma_read_patch(elements[last].unwrap(), last);
            assert(asks_for(elements[last].unwrap(), patches[end]));
            assert(!crate::plugin_engine::script_patch::is_patched(fewer, patches[end].target)) by {
                if crate::plugin_engine::script_patch::is_patched(fewer, patches[end].target) {
                    let k = choose|k: int|
                        0 <= k < fewer.len() && (#[trigger] fewer[k]).target
                            == patches[end].target;
                    assert(patches[k].target != patches[end].target);
                }
            }
            assert(fewer.push(patches[end]) =~= patches);
        }
    }
}

/// A manifest that asks for patches as it has to, at least one and no two for one function,
/// each with a function that the script declares, is accepted with just these.
pub proof fn law_good_manifest_is_accepted(
    source: &str,
    statements: Seq<StatementView>,
    i: int,
    entries: Seq<EntryView>,
    k: int,
    elements: Seq<Option<ExpressionView>>,
    patches: Seq<PatchView>,
    at: Seq<int>,
    r: Result<Option<Vec<FunctionPatchSpec>>, String>,
)
    requires
        call_ensures(extract_patch_specs, (source,), r),
        script_outline("override.js"@, source@) == Ok::<Seq<StatementView>, Seq<char>>(statements),
        !is_blank(source@),
        is_first_manifest(statements, entries, i),
        is_first_with(entries, "functions"@, k),
        entries[k].value == ExpressionView::Array(elements),
        are_asked_for(elements, patches, at),
        patches.len() > 0,
        forall|n: int|
            0 <= n < patches.len() ==> is_declared(
                statements,
                (#[trigger] patches[n]).patch_function,
            ),
    ensures
        r matches Ok(Some(list)) && patch_views(list@) == patches,
{
    lemma_first_manifest_counts(statements, entries, i);
    lemma_first_entry_counts(entries, "functions"@, k);
    lemma_accepts(elements, patches, at);
    lemma_all_declared(statements, patches);
    assert forall|n: int|
        0 <= n < patches.len() implies crate::plugin_engine::script_patch::script_declares(
        statements,
        (#[trigger] patches[n]).patch_function,
    ) by {
        lemma_is_declared(statements, patches[n].patch_function);
    }
}

proof fn lemma_first_manifest_counts(
    statements: Seq<StatementView>,
    entries: Seq<EntryView>,
    i: int,
)
    requires
        is_first_manifest(statements, entries, i),
    ensures
        script_manifest(statements) == Some(entries),
{
    lemma_script_manifest(statements);
    assert(gives_manifest(statements[i]));
    if let Some(found) = script_manifest(statements) {
        let j = choose|j: int| #[trigger] is_first_manifest(statements, found, j);
        assert(gives_manifest(statements[j]));
        if i < j {
            assert(!gives_manifest(statements[i]));
        } else if j < i {
            assert(!gives_manifest(statements[j]));
        }
    }
}

proof fn lemma_first_entry_counts(entries: Seq<EntryView>, key: Seq<char>, k: int)
    requires
        is_first_with(entries, key, k),
    ensures
        property(entries, key) == Some(entries[k].value),
{
    lemma_property(entries, key);
    match property(entries, key) {
        Some(value) => {
            let n = choose|n: int| #[trigger]
                is_first_with(entries, key, n) && entries[n].value == value;
            lemma_first_is_one(entries, key, k, n);
        },
        None => {
            assert(entries[k].key != Some(key));
        },
    }
}

proof fn lemma_first_bad_element_stays(elements: Seq<Option<ExpressionView>>, n: int)
    requires
        0 <= n <= elements.len(),
        read_patches(elements.take(n)) is Err,
    ensures
        read_patches(elements) == read_patches(elements.take(n)),
    decreases elements.len(),
{
    if n == elements.len() {
        assert(elements.take(n) =~= elements);
    } else {
        assert(elements.drop_last().take(n) =~= elements.take(n));
        lemma_first_bad_element_stays(elements.drop_last(), n);
    }
}

proof fn lemma_first_undeclared(statements: Seq<StatementView>, patches: Seq<PatchView>, j: int)
    requires
        0 <= j < patches.len(),
        !is_declared(statements, patches[j].patch_function),
        forall|l: int|
            0 <= l < j ==> is_declared(statements, (#[trigger] patches[l]).patch_function),
    ensures
        crate::plugin_engine::script_patch::undeclared_patch(statements, patches) == Some(
            "patch function '"@ + patches[j].patch_function + "' for target '"@ + patches[j].target
                + "' is not declared at top-level in override script"@,
        ),
    decreases patches.len(),
{
    lemma_is_declared(statements, patches[0].patch_function);
    if j > 0 {
        let rest = patches.drop_first();
        assert(is_declared(statements, patches[0].patch_function));
        assert forall|l: int| 0 <= l < j - 1 implies is_declared(
            statements,
            (#[trigger] rest[l]).patch_function,
        ) by {
            assert(rest[l] == patches[l + 1]);
        }
        assert(rest[j - 1] == patches[j]);
        lemma_first_undeclared(statements, rest, j - 1);
    }
}

/// A manifest that is not accepted is refused with what is wrong with it: it has to have a list
/// of functions, and one that is an array; the first element that is bad, or that asks for a
/// function that one before it asked for, is told; the list has to ask for something, and the
/// first patch whose function the script does not declare is told.
pub proof fn law_bad_manifest_says_why(
    source: &str,
    statements: Seq<StatementView>,
    i: int,
    entries: Seq<EntryView>,
    k: int,
    elements: Seq<Option<ExpressionView>>,
    n: int,
    before: Seq<PatchView>,
    at: Seq<int>,
    patch: PatchView,
    j: int,
    r: Result<Option<Vec<FunctionPatchSpec>>, String>,
)
    requires
        call_ensures(extract_patch_specs, (source,), r),
        script_outline("override.js"@, source@) == Ok::<Seq<StatementView>, Seq<char>>(statements),
        !is_blank(source@),
        is_first_manifest(statements, entries, i),
    ensures
        (forall|l: int|
            0 <= l < entries.len() ==> (#[trigger] entries[l]).key != Some("functions"@)) ==> (
        r matches Err(message) && message@ == "__openusage_ast_patch.functions is required"@),
        is_first_with(entries, "functions"@, k) && !(entries[k].value is Array) ==> (
        r matches Err(message) && message@
            == "__openusage_ast_patch.functions must be an array"@),
        is_first_with(entries, "functions"@, k) && entries[k].value == ExpressionView::Array(
            elements,
        ) ==> {
            &&& (forall|l: int| 0 <= l < elements.len() ==> (#[trigger] elements[l]) is None) ==> (
            r matches Err(message) && message@
                == "__openusage_ast_patch.functions must not be empty"@)
            &&& 0 <= n < elements.len() && are_asked_for(elements.take(n), before, at) ==> (
            elements[n] matches Some(element) ==> {
                &&& read_patch(element, n) matches Err(why) ==> (r matches Err(message)
                    && message@ == why)
                &&& asks_for(element, patch) && 0 <= j < before.len() && before[j].target
                    == patch.target ==> (r matches Err(message) && message@
                    == "duplicate AST patch target in manifest: "@ + patch.target)
            })
            &&& are_asked_for(elements, before, at) && 0 <= j < before.len() && !is_declared(
                statements,
                before[j].patch_function,
            ) && (forall|l: int|
                0 <= l < j ==> is_declared(statements, (#[trigger] before[l]).patch_function))
                ==> (r matches Err(message) && message@ == "patch function '"@
                + before[j].patch_function + "' for target '"@ + before[j].target
                + "' is not declared at top-level in override script"@)
        },
{
    lemma_first_manifest_counts(statements, entries, i);
    if forall|l: int|
        0 <= l < entries.len() ==> (#[trigger] entries[l]).key != Some("functions"@) {
        lemma_property(entries, "functions"@);
        if property(entries, "functions"@) is Some {
            let l = choose|l: int| #[trigger] is_first_with(entries, "functions"@, l);
            assert(entries[l].key != Some("functions"@));
        }
    }
    if is_first_with(entries, "functions"@, k) {
        lemma_first_entry_counts(entries, "functions"@, k);
        if entries[k].value == ExpressionView::Array(elements) {
            if forall|l: int| 0 <= l < elements.len() ==> (#[trigger] elements[l]) is None {
                assert(are_asked_for(elements, Seq::empty(), Seq::empty()));
                lemma_accepts(elements, Seq::empty(), Seq::empty());
            }
            if 0 <= n < elements.len() && are_asked_for(elements.take(n), before, at) {
                lemma_accepts(elements.take(n), before, at);
                if let Some(element) = elements[n] {
                    let next = elements.take(n + 1);
                    assert(next.drop_last() =~= elements.take(n));
                    lemma_read_patch(element, n);
                    if read_patch(element, n) is Err {
                        lemma_first_bad_element_stays(elements, n + 1);
                    } else if asks_for(element, patch) && 0 <= j < before.len() && before[j].target
                        == patch.target {
                        assert(crate::plugin_engine::script_patch::is_patched(
                            before,
                            patch.target,
                        ));
                        lemma_first_bad_element_stays(elements, n + 1);
                    }
                }
            }
            if are_asked_for(elements, before, at) && 0 <= j < before.len() && !is_declared(
                statements,
                before[j].patch_function,
            ) && (forall|l: int|
                0 <= l < j ==> is_declared(statements, (#[trigger] before[l]).patch_function)) {
                lemma_accepts(elements, before, at);
                lemma_first_undeclared(statements, before, j);
            }
        }
    }
}

/// What is wrong with an element of the list is said with its index: an object needs a target
/// that is not blank, a function that is not blank where it names one, and a mode that is
/// known where it names one; what is neither a text nor an object asks for nothing.
pub proof fn law_bad_patch_says_why(element: ExpressionView, idx: int)
    ensures
        ({
            let at = "functions["@ + decimal(idx as nat) + "]"@;
            let r = read_patch(element, idx);
            &&& element matches ExpressionView::Text(name) ==> is_blank(name) ==> r == Err::<
                PatchView,
                Seq<char>,
            >(at + " target must not be empty"@)
            &&& element is Array || element is Other ==> r == Err::<PatchView, Seq<char>>(
                at + " must be a string or object definition"@,
            )
            &&& element matches ExpressionView::Object(entries) ==> {
                &&& gives_none(entries, "target"@) ==> r == Err::<PatchView, Seq<char>>(
                    at + ".target is required"@,
                )
                &&& forall|target: Seq<char>| #[trigger]
                    gives(entries, "target"@, target) && is_blank(target) ==> r == Err::<
                        PatchView,
                        Seq<char>,
                    >(at + ".target must not be empty"@)
                &&& forall|target: Seq<char>, with: Seq<char>|
                    gives(entries, "target"@, target) && !is_blank(target) && gives(
                        entries,
                        "with"@,
                        with,
                    ) && is_blank(with) ==> r == Err::<PatchView, Seq<char>>(
                        at + ".with must not be empty"@,
                    )
                &&& forall|target: Seq<char>, mode: Seq<char>|
                    gives(entries, "target"@, target) && !is_blank(target) && gives_none(
                        entries,
                        "with"@,
                    ) && gives(entries, "mode"@, mode) && mode != "wrap"@ && mode != "replace"@
                        ==> r == Err::<PatchView, Seq<char>>(
                        at + ".mode must be 'wrap' or 'replace'"@,
                    )
                &&& forall|target: Seq<char>, with: Seq<char>, mode: Seq<char>|
                    gives(entries, "target"@, target) && !is_blank(target) && gives(
                        entries,
                        "with"@,
                        with,
                    ) && !is_blank(with) && gives(entries, "mode"@, mode) && mode != "wrap"@ && mode
                        != "replace"@ ==> r == Err::<PatchView, Seq<char>>(
                        at + ".mode must be 'wrap' or 'replace'"@,
                    )
            }
        }),
{
    if let ExpressionView::Object(entries) = element {
        lemma_text_property(entries, "target"@);
        lemma_text_property(entries, "with"@);
        lemma_text_property(entries, "mode"@);
        match text_property(entries, "target"@) {
            Some(text) => assert(gives(entries, "target"@, text)),
            None => {},
        }
        match text_property(entries, "with"@) {
            Some(text) => assert(gives(entries, "with"@, text)),
            None => {},
        }
    }
}

/// An override that is blank asks for nothing, and one that cannot be read is refused with the
/// complaint of the parser.
pub proof fn law_unreadable_override_is_refused(
    source: &str,
    complaint: Seq<char>,
    r: Result<Option<Vec<FunctionPatchSpec>>, String>,
)
    requires
        call_ensures(extract_patch_specs, (source,), r),
    ensures
        is_blank(source@) ==> r == Ok::<Option<Vec<FunctionPatchSpec>>, String>(None),
        !is_blank(source@) && script_outline("override.js"@, source@) == Err::<
            Seq<StatementView>,
            Seq<char>,
        >(complaint) ==> (r matches Err(message) && message@ == "failed to parse override.js: "@
            + complaint),
{
}

/// The beginning of a wrapper: it takes the name and all arguments of the function, and calls
/// the original where there is no patch.
pub open spec fn wrapper_head(
    target: Seq<char>,
    patch_function: Seq<char>,
    original: Seq<char>,
) -> Seq<char> {
    "\nfunction "@ + target + "(...__openusage_args) {\n"@
        + "  const __openusage_patch_fn = globalThis[\""@ + patch_function + "\"];\n"@
        + "  if (typeof __openusage_patch_fn !== \"function\") {\n"@ + "    return "@ + original
        + "(...__openusage_args);\n"@ + "  }\n"@
}

/// A patch that takes the place of a function is called with exactly the arguments of the
/// caller, and one that wraps it with the original in front of them.
pub proof fn law_wrapper_calls_the_patch(patch: &FunctionPatchSpec, original: &str, r: String)
    requires
        call_ensures(build_wrapper_snippet, (patch, original), r),
    ensures
        patch.mode == PatchMode::Replace ==> r@ == wrapper_head(
            patch.target@,
            patch.patch_function@,
            original@,
        ) + "  return __openusage_patch_fn(...__openusage_args);\n}\n"@,
        patch.mode == PatchMode::Wrap ==> r@ == wrapper_head(
            patch.target@,
            patch.patch_function@,
            original@,
        ) + "  return __openusage_patch_fn("@ + original@ + ", ...__openusage_args);\n}\n"@,
{
    lemma_wrapper(patch@, original@);
}

proof fn lemma_wrapper(patch: PatchView, original: Seq<char>)
    ensures
        patch.mode == PatchMode::Replace ==> wrapper_text(patch, original) == wrapper_head(
            patch.target,
            patch.patch_function,
            original,
        ) + "  return __openusage_patch_fn(...__openusage_args);\n}\n"@,
        patch.mode == PatchMode::Wrap ==> wrapper_text(patch, original) == wrapper_head(
            patch.target,
            patch.patch_function,
            original,
        ) + "  return __openusage_patch_fn("@ + original + ", ...__openusage_args);\n}\n"@,
{
    reveal_strlit("(...__openusage_args) {\n");
    reveal_strlit("  const __openusage_patch_fn = globalThis[\"");
    reveal_strlit("(...__openusage_args) {\n  const __openusage_patch_fn = globalThis[\"");
    reveal_strlit("\"];\n");
    reveal_strlit("  if (typeof __openusage_patch_fn !== \"function\") {\n");
    reveal_strlit("    return ");
    reveal_strlit("\"];\n  if (typeof __openusage_patch_fn !== \"function\") {\n    return ");
    reveal_strlit("(...__openusage_args);\n");
    reveal_strlit("  }\n");
    reveal_strlit("(...__openusage_args);\n  }\n  return __openusage_patch_fn(");
    reveal_strlit("  return __openusage_patch_fn(...__openusage_args);\n}\n");
    reveal_strlit("  return __openusage_patch_fn(");
    reveal_strlit(", ");
    reveal_strlit(", ...__openusage_args);\n}\n");
    reveal_strlit("...__openusage_args);\n}\n");
    assert("(...__openusage_args) {\n  const __openusage_patch_fn = globalThis[\""@
        =~= "(...__openusage_args) {\n"@ + "  const __openusage_patch_fn = globalThis[\""@);
    assert("\"];\n  if (typeof __openusage_patch_fn !== \"function\") {\n    return "@
        =~= "\"];\n"@ + "  if (typeof __openusage_patch_fn !== \"function\") {\n"@
        + "    return "@);
    assert("(...__openusage_args);\n  }\n  return __openusage_patch_fn("@
        =~= "(...__openusage_args);\n"@ + "  }\n"@ + "  return __openusage_patch_fn("@);
    assert("  return __openusage_patch_fn(...__openusage_args);\n}\n"@
        =~= "  return __openusage_patch_fn("@ + "...__openusage_args);\n}\n"@);
    assert(", ...__openusage_args);\n}\n"@ =~= ", "@ + "...__openusage_args);\n}\n"@);
    let head = wrapper_head(patch.target, patch.patch_function, original);
    match patch.mode {
        PatchMode::Replace => {
            assert(wrapper_text(patch, original) =~= head
                + "  return __openusage_patch_fn(...__openusage_args);\n}\n"@);
        },
        PatchMode::Wrap => {
            assert(wrapper_text(patch, original) =~= head + "  return __openusage_patch_fn("@
                + original + ", ...__openusage_args);\n}\n"@);
        },
    }
}

/// A transformation begins with the patches that the override asks for, none of them applied,
/// each with the name under which its function is kept and with the function that takes its
/// place. The script stays as it is where nothing is asked for.
pub proof fn law_transformation_begins_with_the_patches(
    source: &str,
    override_source: &Option<String>,
    text: &str,
    specs: Result<Option<Vec<FunctionPatchSpec>>, String>,
    i: int,
    r: Result<TransformStep, String>,
)
    requires
        call_ensures(begin_transform, (source, override_source), r),
        call_ensures(extract_patch_specs, (text,), specs),
        *override_source matches Some(own) ==> own@ == text@,
    ensures
        *override_source is None || specs == Ok::<Option<Vec<FunctionPatchSpec>>, String>(None)
            ==> (r matches Ok(TransformStep::Unchanged(result)) && result.script@ == source@
            && result.patched_functions@.len() == 0),
        *override_source is Some ==> (specs matches Err(message) ==> (r matches Err(said) && said@
            == message@)),
        *override_source is Some ==> (specs matches Ok(Some(patches)) ==> (r matches Ok(
            TransformStep::Patch(table),
        ) && table@.len() == patches@.len() && (0 <= i < patches@.len() ==> is_open_patch(
            table@[i],
            patches@[i],
        )))),
{
    if let Ok(Some(patches)) = specs {
        let all = patch_views(patches@);
        if 0 <= i < patches@.len() {
            assert(all[i] == patches@[i]@);
            lemma_wrapper(all[i], kept_name(all[i].target));
        }
    }
}

/// True if a patch is ready to be applied: its wrapper calls it as its mode asks.
pub open spec fn is_open_patch(state: PatchState, patch: FunctionPatchSpec) -> bool {
    &&& state.patch == patch@
    &&& !state.applied
    &&& state.original_name == kept_name(patch.target@)
    &&& patch.mode == PatchMode::Replace ==> state.wrapper_source == wrapper_head(
        patch.target@,
        patch.patch_function@,
        state.original_name,
    ) + "  return __openusage_patch_fn(...__openusage_args);\n}\n"@
    &&& patch.mode == PatchMode::Wrap ==> state.wrapper_source == wrapper_head(
        patch.target@,
        patch.patch_function@,
        state.original_name,
    ) + "  return __openusage_patch_fn("@ + state.original_name
        + ", ...__openusage_args);\n}\n"@
}

/// Patches that look the same are the same, in every part.
pub proof fn law_patches_are_known_by_their_looks(a: FunctionPatchSpec, b: FunctionPatchSpec)
    requires
        a@ == b@,
    ensures
        a.target@ == b.target@,
        a.patch_function@ == b.patch_function@,
        a.mode == b.mode,
{
}

/// The name under which a function is kept begins with a mark and goes on with the name of the
/// function; what cannot stand in a name is an underscore, and it does not end in a digit.
pub proof fn law_kept_name_is_marked(target: &str, i: int, r: String)
    requires
        call_ensures(make_internal_original_name, (target,), r),
    ensures
        ({
            let mark = "__openusage_original_"@;
            let n = mark.len() as int;
            &&& n + target@.len() <= r@.len() <= n + target@.len() + 1
            &&& r@.take(n) == mark
            &&& !('0' <= r@.last() <= '9')
            &&& 0 <= i < target@.len() ==> r@[n + i] == target@[i] || (r@[n + i] == '_' && !(('a'
                <= target@[i] <= 'z') || ('A' <= target@[i] <= 'Z') || ('0' <= target@[i] <= '9')
                || target@[i] == '$'))
            &&& r@.len() == n + target@.len() + 1 <==> target@.len() > 0 && '0' <= target@.last()
                <= '9'
        }),
{
    reveal_strlit("__openusage_original_");
    let mark = "__openusage_original_"@;
    let names = target@.map_values(|c: char| crate::plugin_engine::script_patch::name_char(c));
    let name = mark + names;
    assert(mark.last() == '_');
    assert(target@.len() > 0 ==> name.last() == names.last());
    assert(target@.len() == 0 ==> name =~= mark);
    assert(r@.take(mark.len() as int) =~= mark);
    if 0 <= i < target@.len() {
        assert(r@[mark.len() + i] == names[i]);
    }
}

/// A declaration is patched by the first patch of its name that is not applied yet, if there
/// is one.
pub proof fn law_first_open_patch_is_taken(table: Seq<PatchState>, name: Seq<char>, i: int)
    ensures
        open_patch(table, name) == Some(i) <==> 0 <= i < table.len() && table[i].patch.target
            == name && !table[i].applied && (forall|k: int|
            0 <= k < i ==> (#[trigger] table[k]).patch.target != name || table[k].applied),
        open_patch(table, name) is None <==> forall|k: int|
            0 <= k < table.len() ==> (#[trigger] table[k]).patch.target != name
                || table[k].applied,
    decreases table.len(),
{
    if table.len() > 0 {
        let init = table.drop_last();
        law_first_open_patch_is_taken(init, name, i);
        assert forall|k: int| 0 <= k < init.len() implies init[k] == #[trigger] table[k] by {}
        match open_patch(init, name) {
            Some(j) => {
                law_first_open_patch_is_taken(init, name, j);
                assert(init[j] == table[j]);
                if 0 <= i < table.len() && table[i].patch.target == name && !table[i].applied && (
                forall|k: int|
                    0 <= k < i ==> (#[trigger] table[k]).patch.target != name
                        || table[k].applied) {
                    if i > j {
                        assert(table[j].patch.target != name || table[j].applied);
                    } else if i < j {
                        assert(init[i].patch.target != name || init[i].applied);
                    }
                }
                if open_patch(table, name) == Some(i) {
                    assert forall|k: int| 0 <= k < i implies (#[trigger] table[k]).patch.target
                        != name || table[k].applied by {
                        assert(init[k] == table[k]);
                    }
                }
            },
            None => {
                let last = table.len() - 1;
                if open_patch(table, name) == Some(i) {
                    assert forall|k: int| 0 <= k < i implies (#[trigger] table[k]).patch.target
                        != name || table[k].applied by {
                        assert(init[k] == table[k]);
                    }
                }
                if 0 <= i < table.len() && table[i].patch.target == name && !table[i].applied {
                    if i < last {
                        assert(init[i] == table[i]);
                    }
                }
            },
        }
    }
}

/// The names of the patches that are applied, or of those that are not, are just these, in
/// order: going on with a patch adds its name to the one list and not to the other.
pub proof fn law_targets_are_listed_in_order(table: Seq<PatchState>, next: PatchState, applied: bool)
    ensures
        targets(Seq::empty(), applied) == Seq::<Seq<char>>::empty(),
        next.applied == applied ==> targets(table.push(next), applied) == targets(
            table,
            applied,
        ).push(next.patch.target),
        next.applied != applied ==> targets(table.push(next), applied) == targets(table, applied),
{
    assert(table.push(next).drop_last() =~= table);
    assert(targets(Seq::empty(), applied) =~= Seq::<Seq<char>>::empty());
}

proof fn lemma_all_applied(table: Seq<PatchState>)
    ensures
        targets(table, false).len() == 0 <==> forall|k: int|
            0 <= k < table.len() ==> (#[trigger] table[k]).applied,
        (forall|k: int| 0 <= k < table.len() ==> (#[trigger] table[k]).applied) ==> targets(
            table,
            true,
        ) == table.map_values(|state: PatchState| state.patch.target),
    decreases table.len(),
{
    let names = table.map_values(|state: PatchState| state.patch.target);
    if table.len() > 0 {
        let init = table.drop_last();
        lemma_all_applied(init);
        assert forall|k: int| 0 <= k < init.len() implies init[k] == #[trigger] table[k] by {}
        if forall|k: int| 0 <= k < table.len() ==> (#[trigger] table[k]).applied {
            assert forall|k: int| 0 <= k < init.len() implies (#[trigger] init[k]).applied by {
                assert(table[k].applied);
            }
            assert(table[table.len() - 1].applied);
            assert(init.map_values(|state: PatchState| state.patch.target).push(
                table.last().patch.target,
            ) =~= names);
        }
        if targets(table, false).len() == 0 {
            assert forall|k: int| 0 <= k < table.len() implies (#[trigger] table[k]).applied by {
                if k < init.len() {
                    assert(init[k].applied);
                }
            }
        }
    } else {
        assert(targets(table, true) =~= names);
    }
}

/// A transformation succeeds exactly where all patches are applied, and then names all of
/// them, in order; otherwise those that are missing are named.
pub proof fn law_transformation_needs_all_patches(
    table: &PatchTable,
    script: String,
    r: Result<TransformResult, String>,
)
    requires
        call_ensures(finish_transform, (table, script), r),
    ensures
        r is Ok <==> forall|k: int| 0 <= k < table@.len() ==> (#[trigger] table@[k]).applied,
        r matches Ok(result) ==> result.script@ == script@ && views(result.patched_functions@)
            == table@.map_values(|state: PatchState| state.patch.target),
        r matches Err(message) ==> message@ == "AST patch target(s) not found in plugin script: "@
            + joined(targets(table@, false), ", "@),
{
    lemma_all_applied(table@);
}

/// A function that is met is patched by the first patch of it that is open, which is applied
/// from then on; all other patches stay as they are.
pub proof fn law_open_patch_is_applied(table: &mut PatchTable, name: &str, r: Option<usize>)
    requires
        call_ensures(PatchTable::try_patch, (table, name), r),
    ensures
        r matches Some(i) ==> {
            &&& i < old(table)@.len()
            &&& old(table)@[i as int].patch.target == name@
            &&& !old(table)@[i as int].applied
            &&& forall|k: int|
                0 <= k < i ==> (#[trigger] old(table)@[k]).patch.target != name@ || old(
                    table
                )@[k].applied
            &&& final(table)@[i as int].applied
            &&& final(table)@[i as int].patch == old(table)@[i as int].patch
            &&& final(table)@[i as int].original_name == old(table)@[i as int].original_name
            &&& final(table)@[i as int].wrapper_source == old(table)@[i as int].wrapper_source
            &&& final(table)@.len() == old(table)@.len()
            &&& forall|k: int|
                0 <= k < old(table)@.len() && k != i ==> #[trigger] final(table)@[k] == old(
                    table
                )@[k]
        },
        r is None ==> final(table)@ == old(table)@ && forall|k: int|
            0 <= k < old(table)@.len() ==> (#[trigger] old(table)@[k]).patch.target != name@ || old(
                table
            )@[k].applied,
{
    match r {
        Some(i) => {
            law_first_open_patch_is_taken(old(table)@, name@, i as int);
        },
        None => {
            law_first_open_patch_is_taken(old(table)@, name@, -1);
        },
    }
}

/// A table is read as it is; a wrapper is known by the function that it is put around.
pub proof fn law_table_is_read_as_it_is(
    table: &PatchTable,
    i: usize,
    count: usize,
    original: String,
    wrapper: String,
    file: String,
    missing: Vec<String>,
)
    requires
        i < table@.len(),
        call_ensures(PatchTable::len, (table,), count),
        call_ensures(PatchTable::original_name, (table, i), original),
        call_ensures(PatchTable::wrapper_source, (table, i), wrapper),
        call_ensures(PatchTable::wrapper_file_name, (table, i), file),
        call_ensures(PatchTable::missing_targets, (table,), missing),
    ensures
        count == table@.len(),
        original@ == table@[i as int].original_name,
        wrapper@ == table@[i as int].wrapper_source,
        file@ == "patch-wrapper-"@ + table@[i as int].patch.target + ".js"@,
        missing@.len() == 0 <==> forall|k: int|
            0 <= k < table@.len() ==> (#[trigger] table@[k]).applied,
{
    lemma_all_applied(table@);
    assert(views(missing@).len() == missing@.len());
}

/// A table that is new has a patch for each that was asked for, in order and open.
pub proof fn law_new_table_is_open(specs: &Vec<FunctionPatchSpec>, i: int, r: PatchTable)
    requires
        call_ensures(PatchTable::new, (specs,), r),
    ensures
        r@.len() == specs@.len(),
        0 <= i < specs@.len() ==> is_open_patch(r@[i], specs@[i]),
{
    if 0 <= i < specs@.len() {
        lemma_wrapper(specs@[i]@, kept_name(specs@[i]@.target));
    }
}

} // verus!
