//! Scripts, as far as the search for patches looks at them.

use swc_core::common::{sync::Lrc, FileName, SourceMap};
use swc_core::ecma::ast::{
    AssignTarget, Decl, EsVersion, Expr, Lit, MemberProp, Pat, Prop, PropName, PropOrSpread,
    SimpleAssignTarget, Stmt, VarDeclarator,
};
use swc_core::ecma::parser::{lexer::Lexer, EsSyntax, Parser, StringInput, Syntax};
use crate::text::opt_view;
use vstd::prelude::*;

verus! {

/// What a variable begins with.
#[derive(Debug, Clone, Copy, PartialEq, Eq, Structural)]
pub enum InitKind {
    Function,
    Arrow,
    Call,
    Parenthesis,
    Other,
}

/// A declared variable.
#[derive(Debug)]
pub struct OutlineVariable {
    /// The name, where the variable has a plain one.
    pub name: Option<String>,
    /// What it begins with, where it begins with something.
    pub init: Option<InitKind>,
}

/// The property that is assigned to.
#[derive(Debug)]
pub enum OutlineProperty {
    /// One by its name, after a dot.
    Name(String),
    /// One by a text, in brackets.
    Text(String),
    Other,
}

/// What is assigned to.
#[derive(Debug)]
pub enum OutlineTarget {
    /// A property of an object; the name of the object, where it is a variable.
    Member { object: Option<String>, property: OutlineProperty },
    Other,
}

/// An entry of an object literal: its key, where it is a name or a text and has a value of
/// its own, and that value.
#[derive(Debug)]
pub struct OutlineEntry {
    pub key: Option<String>,
    pub value: OutlineExpression,
}

/// An expression.
#[derive(Debug)]
pub enum OutlineExpression {
    Text(String),
    /// A list; `None` for an element that is left out.
    Array(Vec<Option<OutlineExpression>>),
    Object(Vec<OutlineEntry>),
    Other,
}

/// A statement at the top of a script.
#[derive(Debug)]
pub enum OutlineStatement {
    /// The declaration of a function, by its name.
    Function(String),
    /// The declaration of variables.
    Variables(Vec<OutlineVariable>),
    /// An assignment.
    Assign { target: OutlineTarget, value: OutlineExpression },
    Other,
}

/// A declared variable, as values.
pub struct VariableView {
    pub name: Option<Seq<char>>,
    pub init: Option<InitKind>,
}

/// The property that is assigned to, as values.
pub enum PropertyView {
    Name(Seq<char>),
    Text(Seq<char>),
    Other,
}

/// What is assigned to, as values.
pub enum TargetView {
    Member { object: Option<Seq<char>>, property: PropertyView },
    Other,
}

/// An entry of an object literal, as values.
pub struct EntryView {
    pub key: Option<Seq<char>>,
    pub value: ExpressionView,
}

/// An expression, as values.
pub enum ExpressionView {
    Text(Seq<char>),
    Array(Seq<Option<ExpressionView>>),
    Object(Seq<EntryView>),
    Other,
}

/// A statement, as values.
pub enum StatementView {
    Function(Seq<char>),
    Variables(Seq<VariableView>),
    Assign { target: TargetView, value: ExpressionView },
    Other,
}

impl View for OutlineVariable {
    type V = VariableView;

    open spec fn view(&self) -> VariableView {
        VariableView { name: opt_view(self.name), init: self.init }
    }
}

impl View for OutlineTarget {
    type V = TargetView;

    open spec fn view(&self) -> TargetView {
        match *self {
            OutlineTarget::Member { object, property } => TargetView::Member {
                object: opt_view(object),
                property: match property {
                    OutlineProperty::Name(name) => PropertyView::Name(name@),
                    OutlineProperty::Text(text) => PropertyView::Text(text@),
                    OutlineProperty::Other => PropertyView::Other,
                },
            },
            OutlineTarget::Other => TargetView::Other,
        }
    }
}

/// An expression, as values.
pub open spec fn expression_view(expression: OutlineExpression) -> ExpressionView
    decreases expression,
{
    match expression {
        OutlineExpression::Text(text) => ExpressionView::Text(text@),
        OutlineExpression::Array(elements) => ExpressionView::Array(
            Seq::new(
                elements@.len(),
                |i: int|
                    if 0 <= i < elements@.len() {
                        match elements@[i] {
                            Some(element) => Some(expression_view(element)),
                            None => None,
                        }
                    } else {
                        None
                    },
            ),
        ),
        OutlineExpression::Object(entries) => ExpressionView::Object(
            Seq::new(
                entries@.len(),
                |i: int|
                    EntryView {
                        key: opt_view(entries@[i].key),
                        value: if 0 <= i < entries@.len() {
                            expression_view(entries@[i].value)
                        } else {
                            ExpressionView::Other
                        },
                    },
            ),
        ),
        OutlineExpression::Other => ExpressionView::Other,
    }
}

/// The elements of a list, as values.
pub open spec fn element_views(elements: Seq<Option<OutlineExpression>>) -> Seq<
    Option<ExpressionView>,
> {
    elements.map_values(
        |element: Option<OutlineExpression>|
            match element {
                Some(expression) => Some(expression_view(expression)),
                None => None,
            },
    )
}

/// The entries of an object literal, as values.
pub open spec fn entry_views(entries: Seq<OutlineEntry>) -> Seq<EntryView> {
    entries.map_values(
        |entry: OutlineEntry|
            EntryView { key: opt_view(entry.key), value: expression_view(entry.value) },
    )
}

/// Declared variables, as values.
pub open spec fn variable_views(variables: Seq<OutlineVariable>) -> Seq<VariableView> {
    variables.map_values(|variable: OutlineVariable| variable@)
}

impl View for OutlineStatement {
    type V = StatementView;

    open spec fn view(&self) -> StatementView {
        match *self {
            OutlineStatement::Function(name) => StatementView::Function(name@),
            OutlineStatement::Variables(variables) => StatementView::Variables(
                variable_views(variables@),
            ),
            OutlineStatement::Assign { target, value } => StatementView::Assign {
                target: target@,
                value: expression_view(value),
            },
            OutlineStatement::Other => StatementView::Other,
        }
    }
}

/// Statements, as values.
pub open spec fn statement_views(statements: Seq<OutlineStatement>) -> Seq<StatementView> {
    statements.map_values(|statement: OutlineStatement| statement@)
}

/// The views of a list and of an object literal are made of the views of their parts.
pub proof fn lemma_expression_view(expression: OutlineExpression)
    ensures
        expression matches OutlineExpression::Array(elements) ==> expression_view(expression)
            == ExpressionView::Array(element_views(elements@)),
        expression matches OutlineExpression::Object(entries) ==> expression_view(expression)
            == ExpressionView::Object(entry_views(entries@)),
{
    match expression {
        OutlineExpression::Array(elements) => {
            assert(expression_view(expression)->Array_0 =~= element_views(elements@));
        },
        OutlineExpression::Object(entries) => {
            assert(expression_view(expression)->Object_0 =~= entry_views(entries@));
        },
        _ => {},
    }
}

#[verifier::external_type_specification]
#[verifier::external_body]
pub struct ExStatement(Stmt);

#[verifier::external_type_specification]
#[verifier::external_body]
pub struct ExVariableDeclarator(VarDeclarator);

#[verifier::external_type_specification]
#[verifier::external_body]
pub struct ExAssignTarget(AssignTarget);

#[verifier::external_type_specification]
#[verifier::external_body]
pub struct ExExpression(Expr);

#[verifier::external_type_specification]
#[verifier::external_body]
pub struct ExPropOrSpread(PropOrSpread);

/// The statements at the top of a script, or the complaint of the parser.
pub uninterp spec fn script_outline(name: Seq<char>, source: Seq<char>) -> Result<
    Seq<StatementView>,
    Seq<char>,
>;

/// `swc_core::ecma::parser::Parser::parse_script` on a script of the edition of 2022, with
/// its errors as `Parser::take_errors` gives them: what is read, or what is complained
/// about, depends on the name and the source alone. The statements are converted to an
/// outline, the complaint to its `Debug` text. Nothing is said of scripts nested so deeply
/// that the recursion of the parser exhausts the stack.
#[verifier::external_body]
pub(crate) fn parse_outline(name: &str, source: &str) -> (r: Result<Vec<OutlineStatement>, String>)
    ensures
        match (r, script_outline(name@, source@)) {
            (Ok(statements), Ok(expected)) => statement_views(statements@) == expected,
            (Err(message), Err(expected)) => message@ == expected,
            _ => false,
        },
{
    let cm: Lrc<SourceMap> = Default::default();
    let file = cm.new_source_file(FileName::Custom(name.to_string()).into(), source.to_string());
    let mut syntax = EsSyntax::default();
    syntax.import_attributes = true;
    syntax.allow_super_outside_method = true;
    syntax.allow_return_outside_function = true;
    let input = StringInput::from(&*file);
    let lexer = Lexer::new(Syntax::Es(syntax), EsVersion::Es2022, input, None);
    let mut parser = Parser::new_from(lexer);
    let parsed = parser.parse_script().map_err(|e| format!("{:?}", e))?;
    match parser.take_errors().first() {
        Some(e) => Err(format!("{:?}", e)),
        None => Ok(parsed.body.iter().map(outline_statement).collect()),
    }
}

/// A statement of `swc_core`, converted to an outline.
#[verifier::external_body]
fn outline_statement(statement: &Stmt) -> (r: OutlineStatement) {
    match statement {
        Stmt::Decl(Decl::Fn(f)) => OutlineStatement::Function(f.ident.sym.to_string()),
        Stmt::Decl(Decl::Var(v)) => {
            OutlineStatement::Variables(v.decls.iter().map(outline_variable).collect())
        },
        Stmt::Expr(e) => match &*e.expr {
            Expr::Assign(a) => OutlineStatement::Assign {
                target: outline_target(&a.left),
                value: outline_expression(&a.right),
            },
            _ => OutlineStatement::Other,
        },
        _ => OutlineStatement::Other,
    }
}

/// A variable of `swc_core`, converted to an outline.
#[verifier::external_body]
fn outline_variable(variable: &VarDeclarator) -> (r: OutlineVariable) {
    let name = match &variable.name {
        Pat::Ident(binding) => Some(binding.id.sym.to_string()),
        _ => None,
    };
    let init = variable.init.as_ref().map(|init| match &**init {
        Expr::Fn(_) => InitKind::Function,
        Expr::Arrow(_) => InitKind::Arrow,
        Expr::Call(_) => InitKind::Call,
        Expr::Paren(_) => InitKind::Parenthesis,
        _ => InitKind::Other,
    });
    OutlineVariable { name, init }
}

/// What is assigned to in `swc_core`, converted to an outline.
#[verifier::external_body]
fn outline_target(target: &AssignTarget) -> (r: OutlineTarget) {
    let AssignTarget::Simple(SimpleAssignTarget::Member(member)) = target else {
        return OutlineTarget::Other;
    };
    let object = member.obj.as_ident().map(|ident| ident.sym.to_string());
    let property = match &member.prop {
        MemberProp::Ident(ident) => OutlineProperty::Name(ident.sym.to_string()),
        MemberProp::Computed(computed) => match &*computed.expr {
            Expr::Lit(Lit::Str(s)) => OutlineProperty::Text(s.value.to_string_lossy().to_string()),
            _ => OutlineProperty::Other,
        },
        _ => OutlineProperty::Other,
    };
    OutlineTarget::Member { object, property }
}

/// An expression of `swc_core`, converted to an outline.
#[verifier::external_body]
fn outline_expression(expression: &Expr) -> (r: OutlineExpression) {
    match expression {
        Expr::Lit(Lit::Str(s)) => OutlineExpression::Text(s.value.to_string_lossy().to_string()),
        Expr::Array(list) => OutlineExpression::Array(
            list.elems
                .iter()
                .map(|elem| elem.as_ref().map(|elem| outline_expression(&elem.expr)))
                .collect(),
        ),
        Expr::Object(object) => {
            OutlineExpression::Object(object.props.iter().map(outline_entry).collect())
        },
        _ => OutlineExpression::Other,
    }
}

/// An entry of an object of `swc_core`, converted to an outline.
#[verifier::external_body]
fn outline_entry(entry: &PropOrSpread) -> (r: OutlineEntry) {
    let none = OutlineEntry { key: None, value: OutlineExpression::Other };
    let PropOrSpread::Prop(prop) = entry else { return none };
    let Prop::KeyValue(pair) = &**prop else { return none };
    let key = match &pair.key {
        PropName::Ident(ident) => Some(ident.sym.to_string()),
        PropName::Str(s) => Some(s.value.to_string_lossy().to_string()),
        _ => None,
    };
    OutlineEntry { key, value: outline_expression(&pair.value) }
}

} // verus!
