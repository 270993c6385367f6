//! Patches that an override asks for in the script of its plugin.

use crate::plugin_engine::script_outline::{
    element_views, entry_views, expression_view, lemma_expression_view, parse_outline,
    script_outline, statement_views, variable_views, EntryView, ExpressionView, InitKind,
    OutlineEntry, OutlineExpression, OutlineProperty, OutlineStatement, OutlineTarget,
    OutlineVariable, PropertyView, StatementView, TargetView, VariableView,
};
use crate::text::{
    blank, chars_of, decimal, decimal_text, is_ascii_word, is_blank, join, joined, opt_view, same,
    views,
};
use vstd::prelude::*;

verus! {

/// A transformed script.
#[derive(Debug)]
pub struct TransformResult {
    pub script: String,
    /// The functions in it that were patched.
    pub patched_functions: Vec<String>,
}

/// How a patch relates to the function it patches.
#[derive(Debug, Clone, Copy, PartialEq, Eq, Structural)]
pub enum PatchMode {
    /// The patch is called with the function.
    Wrap,
    /// The patch is called in place of the function.
    Replace,
}

/// A patch that an override asks for.
#[derive(Debug)]
pub struct FunctionPatchSpec {
    pub target: String,
    pub patch_function: String,
    pub mode: PatchMode,
}

/// A patch, as values.
pub struct PatchView {
    pub target: Seq<char>,
    pub patch_function: Seq<char>,
    pub mode: PatchMode,
}

impl View for FunctionPatchSpec {
    type V = PatchView;

    open spec fn view(&self) -> PatchView {
        PatchView {
            target: self.target@,
            patch_function: self.patch_function@,
            mode: self.mode,
        }
    }
}

impl Clone for FunctionPatchSpec {
    fn clone(&self) -> (r: Self)
        ensures
            r@ == self@,
    {
        FunctionPatchSpec {
            target: self.target.clone(),
            patch_function: self.patch_function.clone(),
            mode: self.mode,
        }
    }
}

/// Patches as values.
pub open spec fn patch_views(list: Seq<FunctionPatchSpec>) -> Seq<PatchView> {
    list.map_values(|s: FunctionPatchSpec| s@)
}

/// The value of the first entry with a key.
pub open spec fn property(entries: Seq<EntryView>, key: Seq<char>) -> Option<ExpressionView>
    decreases entries.len(),
{
    if entries.len() == 0 {
        None
    } else if entries[0].key == Some(key) {
        Some(entries[0].value)
    } else {
        property(entries.drop_first(), key)
    }
}

/// The value of the first entry with a key, where that value is a text.
pub open spec fn text_property(entries: Seq<EntryView>, key: Seq<char>) -> Option<Seq<char>> {
    match property(entries, key) {
        Some(ExpressionView::Text(text)) => Some(text),
        _ => None,
    }
}

/// The complaint about an element of the list.
pub open spec fn element_problem(idx: int, what: Seq<char>) -> Seq<char> {
    "functions["@ + decimal(idx as nat) + "]"@ + what
}

/// How a patch relates to its function, by name; without a name it wraps it.
pub open spec fn read_mode(mode: Option<Seq<char>>) -> Option<PatchMode> {
    match mode {
        None => Some(PatchMode::Wrap),
        Some(name) => if name == "wrap"@ {
            Some(PatchMode::Wrap)
        } else if name == "replace"@ {
            Some(PatchMode::Replace)
        } else {
            None
        },
    }
}

/// The patch that an object describes, or what is wrong with it.
pub open spec fn read_patch_object(entries: Seq<EntryView>, idx: int) -> Result<
    PatchView,
    Seq<char>,
> {
    match text_property(entries, "target"@) {
        None => Err(element_problem(idx, ".target is required"@)),
        Some(target) => if is_blank(target) {
            Err(element_problem(idx, ".target must not be empty"@))
        } else {
            let patch_function = match text_property(entries, "with"@) {
                Some(name) => name,
                None => target,
            };
            if is_blank(patch_function) {
                Err(element_problem(idx, ".with must not be empty"@))
            } else {
                match read_mode(text_property(entries, "mode"@)) {
                    None => Err(element_problem(idx, ".mode must be 'wrap' or 'replace'"@)),
                    Some(mode) => Ok(PatchView { target, patch_function, mode }),
                }
            }
        },
    }
}

/// The patch that an element of the list describes, or what is wrong with it: a text is
/// the name of a function that a function of the same name wraps.
pub open spec fn read_patch(element: ExpressionView, idx: int) -> Result<PatchView, Seq<char>> {
    match element {
        ExpressionView::Text(target) => if is_blank(target) {
            Err(element_problem(idx, " target must not be empty"@))
        } else {
            Ok(PatchView { target, patch_function: target, mode: PatchMode::Wrap })
        },
        ExpressionView::Object(entries) => read_patch_object(entries, idx),
        _ => Err(element_problem(idx, " must be a string or object definition"@)),
    }
}

/// True if one of the patches has the target.
pub open spec fn is_patched(patches: Seq<PatchView>, target: Seq<char>) -> bool {
    exists|i: int| 0 <= i < patches.len() && (#[trigger] patches[i]).target == target
}

/// The patches of a list, or the first thing that is wrong with it. Elements that are left
/// out count, but ask for nothing.
pub open spec fn read_patches(elements: Seq<Option<ExpressionView>>) -> Result<
    Seq<PatchView>,
    Seq<char>,
>
    decreases elements.len(),
{
    if elements.len() == 0 {
        Ok(Seq::empty())
    } else {
        match read_patches(elements.drop_last()) {
            Err(message) => Err(message),
            Ok(before) => match elements.last() {
                None => Ok(before),
                Some(element) => match read_patch(element, elements.len() - 1) {
                    Err(message) => Err(message),
                    Ok(patch) => if is_patched(before, patch.target) {
                        Err("duplicate AST patch target in manifest: "@ + patch.target)
                    } else {
                        Ok(before.push(patch))
                    },
                },
            },
        }
    }
}

/// The patches that a manifest asks for, or the first thing that is wrong with it.
pub open spec fn read_manifest(entries: Seq<EntryView>) -> Result<Seq<PatchView>, Seq<char>> {
    match property(entries, "functions"@) {
        None => Err("__openusage_ast_patch.functions is required"@),
        Some(ExpressionView::Array(elements)) => read_patches(elements),
        Some(_) => Err("__openusage_ast_patch.functions must be an array"@),
    }
}

/// True for `globalThis.__openusage_ast_patch`, with a dot or in brackets.
pub open spec fn is_manifest_target(target: TargetView) -> bool {
    match target {
        TargetView::Member { object, property } => object == Some("globalThis"@)
            && match property {
            PropertyView::Name(name) => name == "__openusage_ast_patch"@,
            PropertyView::Text(text) => text == "__openusage_ast_patch"@,
            PropertyView::Other => false,
        },
        TargetView::Other => false,
    }
}

/// The manifest that a statement gives, if it gives one.
pub open spec fn statement_manifest(statement: StatementView) -> Option<Seq<EntryView>> {
    match statement {
        StatementView::Assign { target, value: ExpressionView::Object(entries) } => {
            if is_manifest_target(target) {
                Some(entries)
            } else {
                None
            }
        },
        _ => None,
    }
}

/// The first manifest of a script.
pub open spec fn script_manifest(statements: Seq<StatementView>) -> Option<Seq<EntryView>>
    decreases statements.len(),
{
    if statements.len() == 0 {
        None
    } else {
        match statement_manifest(statements[0]) {
            Some(entries) => Some(entries),
            None => script_manifest(statements.drop_first()),
        }
    }
}

/// True if a variable may hold a function of the name.
pub open spec fn variable_declares(variable: VariableView, name: Seq<char>) -> bool {
    variable.name == Some(name) && match variable.init {
        Some(InitKind::Other) => false,
        Some(_) => true,
        None => false,
    }
}

/// True if any of the variables may hold a function of the name.
pub open spec fn any_variable_declares(variables: Seq<VariableView>, name: Seq<char>) -> bool {
    exists|i: int| 0 <= i < variables.len() && #[trigger] variable_declares(variables[i], name)
}

/// True if a statement declares a function of the name.
pub open spec fn statement_declares(statement: StatementView, name: Seq<char>) -> bool {
    match statement {
        StatementView::Function(declared) => declared == name,
        StatementView::Variables(variables) => any_variable_declares(variables, name),
        _ => false,
    }
}

/// True if a script declares a function of the name at its top.
pub open spec fn script_declares(statements: Seq<StatementView>, name: Seq<char>) -> bool {
    exists|i: int| 0 <= i < statements.len() && #[trigger] statement_declares(statements[i], name)
}

/// The complaint about the first patch whose function the script does not declare.
pub open spec fn undeclared_patch(
    statements: Seq<StatementView>,
    patches: Seq<PatchView>,
) -> Option<Seq<char>>
    decreases patches.len(),
{
    if patches.len() == 0 {
        None
    } else if !script_declares(statements, patches[0].patch_function) {
        Some(
            "patch function '"@ + patches[0].patch_function + "' for target '"@ + patches[0].target
                + "' is not declared at top-level in override script"@,
        )
    } else {
        undeclared_patch(statements, patches.drop_first())
    }
}

/// The patches that a script asks for: none without a manifest, and with one at least one
/// patch, each with a function that the script declares.
pub open spec fn script_patches(statements: Seq<StatementView>) -> Result<
    Option<Seq<PatchView>>,
    Seq<char>,
> {
    match script_manifest(statements) {
        None => Ok(None),
        Some(entries) => match read_manifest(entries) {
            Err(message) => Err(message),
            Ok(patches) => if patches.len() == 0 {
                Err("__openusage_ast_patch.functions must not be empty"@)
            } else {
                match undeclared_patch(statements, patches) {
                    Some(message) => Err(message),
                    None => Ok(Some(patches)),
                }
            },
        },
    }
}

/// The patches that an override asks for.
pub open spec fn override_patches(source: Seq<char>) -> Result<Option<Seq<PatchView>>, Seq<char>> {
    if is_blank(source) {
        Ok(None)
    } else {
        match script_outline("override.js"@, source) {
            Err(complaint) => Err("failed to parse override.js: "@ + complaint),
            Ok(statements) => script_patches(statements),
        }
    }
}

fn get_property<'a>(entries: &'a Vec<OutlineEntry>, key: &str) -> (r: Option<&'a OutlineExpression>)
    ensures
        r is Some == property(entry_views(entries@), key@) is Some,
        r matches Some(value) ==> property(entry_views(entries@), key@) == Some(
            expression_view(*value),
        ),
{
    let ghost all = entry_views(entries@);
    let mut i: usize = 0;
    assert(all.skip(0) =~= all);
    while i < entries.len()
        invariant
            i <= entries@.len(),
            all == entry_views(entries@),
            property(all, key@) == property(all.skip(i as int), key@),
        decreases entries@.len() - i,
    {
        assert(all.skip(i as int).drop_first() =~= all.skip(i + 1));
        assert(all.skip(i as int)[0] == all[i as int]);
        match &entries[i].key {
            Some(name) => {
                if same(name.as_str(), key) {
                    return Some(&entries[i].value);
                }
            },
            None => {},
        }
        i = i + 1;
    }
    None
}

fn get_text_property(entries: &Vec<OutlineEntry>, key: &str) -> (r: Option<String>)
    ensures
        opt_view(r) == text_property(entry_views(entries@), key@),
{
    match get_property(entries, key) {
        Some(value) => match value {
            OutlineExpression::Text(text) => Some(text.clone()),
            _ => None,
        },
        None => None,
    }
}

fn problem(idx: usize, what: &str) -> (r: String)
    ensures
        r@ == element_problem(idx as int, what@),
{
    let mut out = "functions[".to_string();
    let number = decimal_text(idx as u128);
    out.append(number.as_str());
    out.append("]");
    out.append(what);
    out
}

fn parse_mode(mode: &Option<String>) -> (r: Option<PatchMode>)
    ensures
        r == read_mode(opt_view(*mode)),
{
    match mode {
        None => Some(PatchMode::Wrap),
        Some(name) => {
            if same(name.as_str(), "wrap") {
                Some(PatchMode::Wrap)
            } else if same(name.as_str(), "replace") {
                Some(PatchMode::Replace)
            } else {
                None
            }
        },
    }
}

fn parse_patch_object(entries: &Vec<OutlineEntry>, idx: usize) -> (r: Result<
    FunctionPatchSpec,
    String,
>)
    ensures
        match (r, read_patch_object(entry_views(entries@), idx as int)) {
            (Ok(patch), Ok(expected)) => patch@ == expected,
            (Err(message), Err(expected)) => message@ == expected,
            _ => false,
        },
{
    let target = match get_text_property(entries, "target") {
        Some(target) => target,
        None => {
            return Err(problem(idx, ".target is required"));
        },
    };
    if blank(target.as_str()) {
        return Err(problem(idx, ".target must not be empty"));
    }
    let patch_function = match get_text_property(entries, "with") {
        Some(name) => name,
        None => target.clone(),
    };
    if blank(patch_function.as_str()) {
        return Err(problem(idx, ".with must not be empty"));
    }
    let mode = get_text_property(entries, "mode");
    match parse_mode(&mode) {
        None => Err(problem(idx, ".mode must be 'wrap' or 'replace'")),
        Some(mode) => Ok(FunctionPatchSpec { target, patch_function, mode }),
    }
}

fn parse_patch(element: &OutlineExpression, idx: usize) -> (r: Result<FunctionPatchSpec, String>)
    ensures
        match (r, read_patch(expression_view(*element), idx as int)) {
            (Ok(patch), Ok(expected)) => patch@ == expected,
            (Err(message), Err(expected)) => message@ == expected,
            _ => false,
        },
{
    proof {
        lemma_expression_view(*element);
    }
    match element {
        OutlineExpression::Text(target) => {
            if blank(target.as_str()) {
                Err(problem(idx, " target must not be empty"))
            } else {
                Ok(
                    FunctionPatchSpec {
                        target: target.clone(),
                        patch_function: target.clone(),
                        mode: PatchMode::Wrap,
                    },
                )
            }
        },
        OutlineExpression::Object(entries) => parse_patch_object(entries, idx),
        _ => Err(problem(idx, " must be a string or object definition")),
    }
}

fn has_target(patches: &Vec<FunctionPatchSpec>, target: &str) -> (r: bool)
    ensures
        r == is_patched(patch_views(patches@), target@),
{
    let ghost all = patch_views(patches@);
    let mut i: usize = 0;
    while i < patches.len()
        invariant
            i <= patches@.len(),
            all == patch_views(patches@),
            forall|j: int| 0 <= j < i ==> (#[trigger] all[j]).target != target@,
        decreases patches@.len() - i,
    {
        assert(all[i as int] == patches@[i as int]@);
        if same(patches[i].target.as_str(), target) {
            return true;
        }
        i = i + 1;
    }
    false
}

fn parse_patches(elements: &Vec<Option<OutlineExpression>>) -> (r: Result<
    Vec<FunctionPatchSpec>,
    String,
>)
    ensures
        match (r, read_patches(element_views(elements@))) {
            (Ok(patches), Ok(expected)) => patch_views(patches@) == expected,
            (Err(message), Err(expected)) => message@ == expected,
            _ => false,
        },
{
    let ghost all = element_views(elements@);
    let mut patches: Vec<FunctionPatchSpec> = Vec::new();
    let mut i: usize = 0;
    assert(all.take(0) =~= Seq::<Option<ExpressionView>>::empty());
    assert(patch_views(patches@) =~= Seq::<PatchView>::empty());
    while i < elements.len()
        invariant
            i <= elements@.len(),
            all == element_views(elements@),
            read_patches(all.take(i as int)) == Ok::<Seq<PatchView>, Seq<char>>(
                patch_views(patches@),
            ),
        decreases elements@.len() - i,
    {
        let ghost next = all.take(i + 1);
        assert(next.drop_last() =~= all.take(i as int));
        assert(next.last() == all[i as int]);
        match &elements[i] {
            None => {},
            Some(element) => match parse_patch(element, i) {
                Err(message) => {
                    proof {
                        assert(read_patches(next) == Err::<Seq<PatchView>, Seq<char>>(message@));
                        lemma_first_complaint_stays(all, i + 1);
                    }
                    return Err(message);
                },
                Ok(patch) => {
                    if has_target(&patches, patch.target.as_str()) {
                        let mut message = "duplicate AST patch target in manifest: ".to_string();
                        message.append(patch.target.as_str());
                        proof {
                            assert(read_patches(next) == Err::<Seq<PatchView>, Seq<char>>(
                                message@,
                            ));
                            lemma_first_complaint_stays(all, i + 1);
                        }
                        return Err(message);
                    }
                    let ghost before = patches@;
                    patches.push(patch);
                    assert(patch_views(patches@) =~= patch_views(before).push(patch@));
                },
            },
        }
        i = i + 1;
    }
    assert(all.take(all.len() as int) =~= all);
    Ok(patches)
}

proof fn lemma_first_complaint_stays(elements: Seq<Option<ExpressionView>>, n: int)
    requires
        0 <= n <= elements.len(),
        read_patches(elements.take(n)) is Err,
    ensures
        read_patches(elements) == read_patches(elements.take(n)),
    decreases elements.len() - n,
{
    if n < elements.len() {
        assert(elements.take(n + 1).drop_last() =~= elements.take(n));
        lemma_first_complaint_stays(elements, n + 1);
    } else {
        assert(elements.take(n) =~= elements);
    }
}

fn manifest_target(target: &OutlineTarget) -> (r: bool)
    ensures
        r == is_manifest_target(target@),
{
    match target {
        OutlineTarget::Member { object, property } => {
            let is_global = match object {
                Some(name) => same(name.as_str(), "globalThis"),
                None => false,
            };
            is_global && match property {
                OutlineProperty::Name(name) => same(name.as_str(), "__openusage_ast_patch"),
                OutlineProperty::Text(text) => same(text.as_str(), "__openusage_ast_patch"),
                OutlineProperty::Other => false,
            }
        },
        OutlineTarget::Other => false,
    }
}

fn find_manifest<'a>(statements: &'a Vec<OutlineStatement>) -> (r: Option<&'a Vec<OutlineEntry>>)
    ensures
        r is Some == script_manifest(statement_views(statements@)) is Some,
        r matches Some(entries) ==> script_manifest(statement_views(statements@)) == Some(
            entry_views(entries@),
        ),
{
    let ghost all = statement_views(statements@);
    let mut i: usize = 0;
    assert(all.skip(0) =~= all);
    while i < statements.len()
        invariant
            i <= statements@.len(),
            all == statement_views(statements@),
            script_manifest(all) == script_manifest(all.skip(i as int)),
        decreases statements@.len() - i,
    {
        assert(all.skip(i as int).drop_first() =~= all.skip(i + 1));
        assert(all.skip(i as int)[0] == statements@[i as int]@);
        proof {
            match statements@[i as int] {
                OutlineStatement::Assign { target, value } => lemma_expression_view(value),
                _ => {},
            }
        }
        match &statements[i] {
            OutlineStatement::Assign { target, value } => match value {
                OutlineExpression::Object(entries) => {
                    if manifest_target(target) {
                        return Some(entries);
                    }
                },
                _ => {},
            },
            _ => {},
        }
        i = i + 1;
    }
    None
}

fn variables_declare(variables: &Vec<OutlineVariable>, name: &str) -> (r: bool)
    ensures
        r == any_variable_declares(variable_views(variables@), name@),
{
    let ghost all = variable_views(variables@);
    let mut i: usize = 0;
    while i < variables.len()
        invariant
            i <= variables@.len(),
            all == variable_views(variables@),
            forall|j: int| 0 <= j < i ==> !#[trigger] variable_declares(all[j], name@),
        decreases variables@.len() - i,
    {
        assert(all[i as int] == variables@[i as int]@);
        let named = match &variables[i].name {
            Some(declared) => same(declared.as_str(), name),
            None => false,
        };
        let callable = match variables[i].init {
            Some(InitKind::Other) => false,
            Some(_) => true,
            None => false,
        };
        if named && callable {
            assert(variable_declares(variable_views(variables@)[i as int], name@));
            return true;
        }
        i = i + 1;
    }
    false
}

/// True if a script declares a function of the name at its top.
pub fn declares_function(statements: &Vec<OutlineStatement>, name: &str) -> (r: bool)
    ensures
        r == script_declares(statement_views(statements@), name@),
{
    let ghost all = statement_views(statements@);
    let mut i: usize = 0;
    while i < statements.len()
        invariant
            i <= statements@.len(),
            all == statement_views(statements@),
            forall|j: int| 0 <= j < i ==> !#[trigger] statement_declares(all[j], name@),
        decreases statements@.len() - i,
    {
        assert(all[i as int] == statements@[i as int]@);
        let found = match &statements[i] {
            OutlineStatement::Function(declared) => same(declared.as_str(), name),
            OutlineStatement::Variables(variables) => variables_declare(variables, name),
            _ => false,
        };
        if found {
            assert(statement_declares(all[i as int], name@));
            return true;
        }
        i = i + 1;
    }
    false
}

/// The patches that the statements of an override ask for.
pub fn patches_of_script(statements: &Vec<OutlineStatement>) -> (r: Result<
    Option<Vec<FunctionPatchSpec>>,
    String,
>)
    ensures
        match (r, script_patches(statement_views(statements@))) {
            (Ok(None), Ok(None)) => true,
            (Ok(Some(patches)), Ok(Some(expected))) => patch_views(patches@) == expected,
            (Err(message), Err(expected)) => message@ == expected,
            _ => false,
        },
{
    let entries = match find_manifest(statements) {
        Some(entries) => entries,
        None => {
            return Ok(None);
        },
    };
    let patches = match get_property(entries, "functions") {
        None => {
            return Err("__openusage_ast_patch.functions is required".to_string());
        },
        Some(value) => {
            proof {
                lemma_expression_view(*value);
            }
            match value {
            OutlineExpression::Array(elements) => match parse_patches(elements) {
                Ok(patches) => patches,
                Err(message) => {
                    return Err(message);
                },
            },
            _ => {
                return Err("__openusage_ast_patch.functions must be an array".to_string());
            },
            }
        },
    };
    let ghost script = statement_views(statements@);
    let ghost all = patch_views(patches@);
    assert(all.len() == patches@.len());
    if patches.len() == 0 {
        return Err("__openusage_ast_patch.functions must not be empty".to_string());
    }
    let mut i: usize = 0;
    assert(all.skip(0) =~= all);
    while i < patches.len()
        invariant
            i <= patches@.len(),
            all == patch_views(patches@),
            all.len() > 0,
            script == statement_views(statements@),
            script_manifest(script) is Some,
            read_manifest(script_manifest(script).unwrap()) == Ok::<
                Seq<PatchView>,
                Seq<char>,
            >(all),
            undeclared_patch(script, all) == undeclared_patch(script, all.skip(i as int)),
        decreases patches@.len() - i,
    {
        assert(all.skip(i as int)[0] == patches@[i as int]@);
        assert(all.skip(i as int).drop_first() =~= all.skip(i + 1));
        if !declares_function(statements, patches[i].patch_function.as_str()) {
            let mut message = "patch function '".to_string();
            message.append(patches[i].patch_function.as_str());
            message.append("' for target '");
            message.append(patches[i].target.as_str());
            message.append("' is not declared at top-level in override script");
            return Err(message);
        }
        i = i + 1;
    }
    Ok(Some(patches))
}

/// The patches that an override asks for.
pub fn extract_patch_specs(override_source: &str) -> (r: Result<
    Option<Vec<FunctionPatchSpec>>,
    String,
>)
    ensures
        match (r, override_patches(override_source@)) {
            (Ok(None), Ok(None)) => true,
            (Ok(Some(patches)), Ok(Some(expected))) => patch_views(patches@) == expected,
            (Err(message), Err(expected)) => message@ == expected,
            _ => false,
        },
{
    if blank(override_source) {
        return Ok(None);
    }
    match parse_outline("override.js", override_source) {
        Err(complaint) => {
            let mut message = "failed to parse override.js: ".to_string();
            message.append(complaint.as_str());
            Err(message)
        },
        Ok(statements) => patches_of_script(&statements),
    }
}

/// A character that may stand in a name; any other becomes an underscore.
pub open spec fn name_char(c: char) -> char {
    if is_ascii_word(c) || c == '_' || c == '$' {
        c
    } else {
        '_'
    }
}

/// The name under which a patched function is kept.
pub open spec fn kept_name(target: Seq<char>) -> Seq<char> {
    let name = "__openusage_original_"@ + target.map_values(|c: char| name_char(c));
    if '0' <= name.last() && name.last() <= '9' {
        name.push('_')
    } else {
        name
    }
}

/// The name under which a patched function is kept.
pub fn make_internal_original_name(target: &str) -> (r: String)
    ensures
        r@ == kept_name(target@),
{
    let mut out = "__openusage_original_".to_string();
    let ghost head = out@;
    proof {
        reveal_strlit("__openusage_original_");
    }
    let mut last = '_';
    let chars = chars_of(target);
    let ghost names = target@.map_values(|c: char| name_char(c));
    let mut i: usize = 0;
    assert(names.take(0) =~= Seq::<char>::empty());
    assert(out@ =~= head + names.take(0));
    while i < chars.len()
        invariant
            i <= chars@.len(),
            chars@ == target@,
            names == target@.map_values(|c: char| name_char(c)),
            out@ == head + names.take(i as int),
            head.len() > 0,
            out@.last() == last,
        decreases chars@.len() - i,
    {
        let c = chars[i];
        let word = ('a' <= c && c <= 'z') || ('A' <= c && c <= 'Z') || ('0' <= c && c <= '9');
        let next = if word || c == '_' || c == '$' {
            c
        } else {
            '_'
        };
        assert(next == names[i as int]);
        out.push(next);
        last = next;
        assert(names.take(i + 1) =~= names.take(i as int).push(next));
        assert(out@ =~= head + names.take(i + 1));
        i = i + 1;
    }
    assert(names.take(names.len() as int) =~= names);
    if '0' <= last && last <= '9' {
        out.push('_');
    }
    out
}

/// The function that takes the place of a patched one.
pub open spec fn wrapper_text(patch: PatchView, original: Seq<char>) -> Seq<char> {
    "\nfunction "@ + patch.target
        + "(...__openusage_args) {\n  const __openusage_patch_fn = globalThis[\""@
        + patch.patch_function
        + "\"];\n  if (typeof __openusage_patch_fn !== \"function\") {\n    return "@ + original
        + "(...__openusage_args);\n  }\n  return __openusage_patch_fn("@ + (match patch.mode {
        PatchMode::Wrap => original + ", "@,
        PatchMode::Replace => Seq::empty(),
    }) + "...__openusage_args);\n}\n"@
}

/// The function that takes the place of a patched one: it calls the patch, with the
/// original as its first argument where the patch wraps it, and falls back on the original
/// where there is no such patch.
pub fn build_wrapper_snippet(patch: &FunctionPatchSpec, original_name: &str) -> (r: String)
    ensures
        r@ == wrapper_text(patch@, original_name@),
{
    let mut out = "\nfunction ".to_string();
    out.append(patch.target.as_str());
    out.append("(...__openusage_args) {\n  const __openusage_patch_fn = globalThis[\"");
    out.append(patch.patch_function.as_str());
    out.append("\"];\n  if (typeof __openusage_patch_fn !== \"function\") {\n    return ");
    out.append(original_name);
    out.append("(...__openusage_args);\n  }\n  return __openusage_patch_fn(");
    let ghost before = out@;
    match patch.mode {
        PatchMode::Wrap => {
            out.append(original_name);
            out.append(", ");
            assert(out@ =~= before + (original_name@ + ", "@));
        },
        PatchMode::Replace => {
            assert(out@ =~= before + Seq::<char>::empty());
        },
    }
    out.append("...__openusage_args);\n}\n");
    out
}

/// A patch that is ready to be applied.
#[derive(Debug)]
pub struct CompiledPatch {
    pub spec: FunctionPatchSpec,
    /// The name under which the patched function is kept.
    pub original_name: String,
    /// The function that takes its place.
    pub wrapper_source: String,
    pub applied: bool,
}

/// The patches of a script, and which of them are applied.
#[derive(Debug)]
pub struct PatchTable {
    patches: Vec<CompiledPatch>,
}

/// A patch in the table, as values.
pub struct PatchState {
    pub patch: PatchView,
    pub original_name: Seq<char>,
    pub wrapper_source: Seq<char>,
    pub applied: bool,
}

impl View for PatchTable {
    type V = Seq<PatchState>;

    closed spec fn view(&self) -> Seq<PatchState> {
        patch_states(self.patches@)
    }
}

closed spec fn patch_states(patches: Seq<CompiledPatch>) -> Seq<PatchState> {
    patches.map_values(
        |p: CompiledPatch|
            PatchState {
                patch: p.spec@,
                original_name: p.original_name@,
                wrapper_source: p.wrapper_source@,
                applied: p.applied,
            },
    )
}

/// The place of the first patch of a function that is not applied yet.
pub open spec fn open_patch(table: Seq<PatchState>, name: Seq<char>) -> Option<int>
    decreases table.len(),
{
    if table.len() == 0 {
        None
    } else {
        match open_patch(table.drop_last(), name) {
            Some(i) => Some(i),
            None => if table.last().patch.target == name && !table.last().applied {
                Some(table.len() - 1)
            } else {
                None
            },
        }
    }
}

/// The targets of the patches that are applied, or of those that are not.
pub open spec fn targets(table: Seq<PatchState>, applied: bool) -> Seq<Seq<char>>
    decreases table.len(),
{
    if table.len() == 0 {
        Seq::empty()
    } else {
        let before = targets(table.drop_last(), applied);
        if table.last().applied == applied {
            before.push(table.last().patch.target)
        } else {
            before
        }
    }
}

impl PatchTable {
    /// The patches of a script, none of them applied yet.
    pub fn new(specs: &Vec<FunctionPatchSpec>) -> (r: Self)
        ensures
            r@.len() == specs@.len(),
            forall|i: int|
                0 <= i < specs@.len() ==> #[trigger] r@[i] == (PatchState {
                    patch: specs@[i]@,
                    original_name: kept_name(specs@[i]@.target),
                    wrapper_source: wrapper_text(specs@[i]@, kept_name(specs@[i]@.target)),
                    applied: false,
                }),
    {
        let mut patches: Vec<CompiledPatch> = Vec::new();
        let mut i: usize = 0;
        while i < specs.len()
            invariant
                i <= specs@.len(),
                patches@.len() == i,
                forall|k: int|
                    0 <= k < i ==> #[trigger] patch_states(patches@)[k] == (PatchState {
                        patch: specs@[k]@,
                        original_name: kept_name(specs@[k]@.target),
                        wrapper_source: wrapper_text(specs@[k]@, kept_name(specs@[k]@.target)),
                        applied: false,
                    }),
            decreases specs@.len() - i,
        {
            let original_name = make_internal_original_name(specs[i].target.as_str());
            let wrapper_source = build_wrapper_snippet(&specs[i], original_name.as_str());
            let ghost before = patches@;
            patches.push(
                CompiledPatch {
                    spec: specs[i].clone(),
                    original_name,
                    wrapper_source,
                    applied: false,
                },
            );
            assert forall|k: int| 0 <= k < i + 1 implies #[trigger] patch_states(patches@)[k] == (
            PatchState {
                patch: specs@[k]@,
                original_name: kept_name(specs@[k]@.target),
                wrapper_source: wrapper_text(specs@[k]@, kept_name(specs@[k]@.target)),
                applied: false,
            }) by {
                if k < i {
                    assert(patch_states(before)[k] == patch_states(patches@)[k]);
                }
            }
            i = i + 1;
        }
        PatchTable { patches }
    }

    /// The number of patches.
    pub fn len(&self) -> (r: usize)
        ensures
            r == self@.len(),
    {
        self.patches.len()
    }

    /// The name under which the function of a patch is kept.
    pub fn original_name(&self, i: usize) -> (r: String)
        requires
            i < self@.len(),
        ensures
            r@ == self@[i as int].original_name,
    {
        self.patches[i].original_name.clone()
    }

    /// The function that takes the place of the function of a patch.
    pub fn wrapper_source(&self, i: usize) -> (r: String)
        requires
            i < self@.len(),
        ensures
            r@ == self@[i as int].wrapper_source,
    {
        self.patches[i].wrapper_source.clone()
    }

    /// The name of the script that the wrapper of a patch is read as.
    pub fn wrapper_file_name(&self, i: usize) -> (r: String)
        requires
            i < self@.len(),
        ensures
            r@ == "patch-wrapper-"@ + self@[i as int].patch.target + ".js"@,
    {
        let mut name = "patch-wrapper-".to_string();
        name.append(self.patches[i].spec.target.as_str());
        name.append(".js");
        name
    }

    /// Applies the patch of a declared function, if there is one that is not applied yet.
    /// Returns its place.
    pub fn try_patch(&mut self, function_name: &str) -> (r: Option<usize>)
        ensures
            match r {
                Some(i) => open_patch(old(self)@, function_name@) == Some(i as int) && i < old(
                    self,
                )@.len() && final(self)@ == old(self)@.update(
                    i as int,
                    PatchState { applied: true, ..old(self)@[i as int] },
                ),
                None => open_patch(old(self)@, function_name@) is None && final(self)@ == old(
                    self,
                )@,
            },
    {
        let ghost start = self@;
        let mut i: usize = 0;
        assert(start.take(0) =~= Seq::<PatchState>::empty());
        while i < self.patches.len()
            invariant
                i <= self.patches@.len(),
                self@ == start,
                start == old(self)@,
                start == patch_states(self.patches@),
                open_patch(start.take(i as int), function_name@) is None,
            decreases self.patches@.len() - i,
        {
            let ghost next = start.take(i + 1);
            assert(next.drop_last() =~= start.take(i as int));
            assert(next.last() == start[i as int]);
            if !self.patches[i].applied && same(
                self.patches[i].spec.target.as_str(),
                function_name,
            ) {
                let used = CompiledPatch {
                    spec: self.patches[i].spec.clone(),
                    original_name: self.patches[i].original_name.clone(),
                    wrapper_source: self.patches[i].wrapper_source.clone(),
                    applied: true,
                };
                self.patches.set(i, used);
                proof {
                    assert(open_patch(next, function_name@) == Some(i as int));
                    lemma_open_patch_stays(start, function_name@, i + 1);
                    assert(self@ =~= start.update(
                        i as int,
                        PatchState { applied: true, ..start[i as int] },
                    ));
                }
                return Some(i);
            }
            i = i + 1;
        }
        assert(start.take(start.len() as int) =~= start);
        None
    }

    fn targets_of(&self, applied: bool) -> (r: Vec<String>)
        ensures
            views(r@) == targets(self@, applied),
    {
        let ghost all = self@;
        let mut out: Vec<String> = Vec::new();
        let mut i: usize = 0;
        assert(all.take(0) =~= Seq::<PatchState>::empty());
        assert(views(out@) =~= Seq::<Seq<char>>::empty());
        while i < self.patches.len()
            invariant
                i <= self.patches@.len(),
                all == patch_states(self.patches@),
                views(out@) == targets(all.take(i as int), applied),
            decreases self.patches@.len() - i,
        {
            let ghost next = all.take(i + 1);
            assert(next.drop_last() =~= all.take(i as int));
            assert(next.last() == all[i as int]);
            if self.patches[i].applied == applied {
                let ghost before = out@;
                out.push(self.patches[i].spec.target.clone());
                assert(views(out@) =~= views(before).push(all[i as int].patch.target));
            }
            i = i + 1;
        }
        assert(all.take(all.len() as int) =~= all);
        out
    }

    /// The functions that were to be patched but were not found.
    pub fn missing_targets(&self) -> (r: Vec<String>)
        ensures
            views(r@) == targets(self@, false),
    {
        self.targets_of(false)
    }

    /// The functions that were patched, or the complaint about those that were not found.
    pub fn finish(&self) -> (r: Result<Vec<String>, String>)
        ensures
            r is Ok <==> targets(self@, false).len() == 0,
            r matches Ok(patched) ==> views(patched@) == targets(self@, true),
            r matches Err(message) ==> message@
                == "AST patch target(s) not found in plugin script: "@ + joined(
                targets(self@, false),
                ", "@,
            ),
    {
        let missing = self.missing_targets();
        assert(views(missing@).len() == missing@.len());
        if missing.len() > 0 {
            let mut message = "AST patch target(s) not found in plugin script: ".to_string();
            let list = join(&missing, ", ");
            message.append(list.as_str());
            return Err(message);
        }
        Ok(self.targets_of(true))
    }
}

proof fn lemma_open_patch_stays(table: Seq<PatchState>, name: Seq<char>, n: int)
    requires
        0 <= n <= table.len(),
        open_patch(table.take(n), name) is Some,
    ensures
        open_patch(table, name) == open_patch(table.take(n), name),
    decreases table.len() - n,
{
    if n < table.len() {
        assert(table.take(n + 1).drop_last() =~= table.take(n));
        lemma_open_patch_stays(table, name, n + 1);
    } else {
        assert(table.take(n) =~= table);
    }
}

/// Each patch is either applied or missing, never both and never neither.
pub proof fn law_patches_are_applied_or_missing(table: Seq<PatchState>)
    ensures
        targets(table, true).len() + targets(table, false).len() == table.len(),
    decreases table.len(),
{
    if table.len() > 0 {
        law_patches_are_applied_or_missing(table.drop_last());
    }
}

/// An accepted manifest names each function once.
pub proof fn law_accepted_patches_have_distinct_targets(elements: Seq<Option<ExpressionView>>)
    ensures
        read_patches(elements) matches Ok(patches) ==> forall|i: int, j: int|
            0 <= i < j < patches.len() ==> (#[trigger] patches[i]).target != (
            #[trigger] patches[j]).target,
    decreases elements.len(),
{
    if elements.len() > 0 {
        law_accepted_patches_have_distinct_targets(elements.drop_last());
    }
}

proof fn lemma_open_patch_is_open(table: Seq<PatchState>, name: Seq<char>)
    ensures
        open_patch(table, name) matches Some(i) ==> 0 <= i < table.len() && table[i].patch.target == name
            && !table[i].applied,
        open_patch(table, name) is None ==> forall|i: int|
            0 <= i < table.len() ==> (#[trigger] table[i]).patch.target != name || table[i].applied,
    decreases table.len(),
{
    if table.len() > 0 {
        let init = table.drop_last();
        lemma_open_patch_is_open(init, name);
        if open_patch(table, name) is None {
            assert forall|i: int| 0 <= i < table.len() implies (#[trigger] table[i]).patch.target != name
                || table[i].applied by {
                if i < init.len() {
                    assert(init[i] == table[i]);
                }
            }
        }
    }
}

/// A patch is applied to the first declaration of its function only: once it is applied,
/// further declarations of the same name stay as they are.
pub proof fn law_patch_is_applied_once(table: Seq<PatchState>, name: Seq<char>, i: int)
    requires
        open_patch(table, name) == Some(i),
        forall|k: int, l: int|
            0 <= k < l < table.len() ==> (#[trigger] table[k]).patch.target != (
            #[trigger] table[l]).patch.target,
    ensures
        0 <= i < table.len(),
        open_patch(table.update(i, PatchState { applied: true, ..table[i] }), name) is None,
{
    lemma_open_patch_is_open(table, name);
    let after = table.update(i, PatchState { applied: true, ..table[i] });
    lemma_open_patch_is_open(after, name);
    match open_patch(after, name) {
        Some(j) => {
            assert(j != i);
            assert(after[j] == table[j]);
            if j < i {
                assert(table[j].patch.target != table[i].patch.target);
            } else {
                assert(table[i].patch.target != table[j].patch.target);
            }
        },
        None => {},
    }
}

/// How the script of a plugin is to be transformed.
#[derive(Debug)]
pub enum TransformStep {
    /// It stays as it is.
    Unchanged(TransformResult),
    /// These patches are to be applied to it.
    Patch(PatchTable),
}

/// How the script of a plugin is to be transformed: it stays as it is without an override, and
/// with one that asks for no patches.
pub fn begin_transform(source: &str, override_source: &Option<String>) -> (r: Result<
    TransformStep,
    String,
>)
    ensures
        override_source is None ==> (r matches Ok(TransformStep::Unchanged(result))
            && result.script@ == source@ && result.patched_functions@.len() == 0),
        override_source matches Some(text) ==> match override_patches(text@) {
            Err(expected) => r matches Err(message) && message@ == expected,
            Ok(None) => r matches Ok(TransformStep::Unchanged(result)) && result.script@ == source@
                && result.patched_functions@.len() == 0,
            Ok(Some(patches)) => r matches Ok(TransformStep::Patch(table)) && table@
                == fresh_states(patches),
        },
{
    let text = match override_source {
        Some(text) => text,
        None => {
            return Ok(
                TransformStep::Unchanged(
                    TransformResult { script: source.to_string(), patched_functions: Vec::new() },
                ),
            );
        },
    };
    match extract_patch_specs(text.as_str()) {
        Err(message) => Err(message),
        Ok(None) => Ok(
            TransformStep::Unchanged(
                TransformResult { script: source.to_string(), patched_functions: Vec::new() },
            ),
        ),
        Ok(Some(specs)) => {
            let table = PatchTable::new(&specs);
            assert(table@ =~= fresh_states(patch_views(specs@)));
            Ok(TransformStep::Patch(table))
        },
    }
}

/// Patches that are not applied yet.
pub open spec fn fresh_states(patches: Seq<PatchView>) -> Seq<PatchState> {
    patches.map_values(
        |p: PatchView|
            PatchState {
                patch: p,
                original_name: kept_name(p.target),
                wrapper_source: wrapper_text(p, kept_name(p.target)),
                applied: false,
            },
    )
}

/// What came of the transformation, given the text of the script with the patches in it.
pub fn finish_transform(table: &PatchTable, script: String) -> (r: Result<TransformResult, String>)
    ensures
        match r {
            Ok(result) => targets(table@, false).len() == 0 && result.script@ == script@ && views(
                result.patched_functions@,
            ) == targets(table@, true),
            Err(message) => targets(table@, false).len() > 0 && message@
                == "AST patch target(s) not found in plugin script: "@ + joined(
                targets(table@, false),
                ", "@,
            ),
        },
{
    match table.finish() {
        Ok(patched_functions) => Ok(TransformResult { script, patched_functions }),
        Err(message) => Err(message),
    }
}

} // verus!
