//! The whole compilation: tokens in, the source of the sampler out.

use crate::analyze::{
    analyze, analyze_spec, declares, error_ident, error_message, law_accepted_model, mentions,
    SemanticError, SemanticErrorView, VariableIRView,
};
use crate::codegen::{
    codegen, lemma_selected_positions, module_text, selected, selected_positions, Which,
};
use crate::parse::{expectation_text, parse_spec, IdentView, ModelAst, ModelAstView, SyntaxError};
use crate::token::{tokens_view, Span, Token, TokenView};
use vstd::prelude::*;

verus! {

/// Why a description does not compile: it does not parse, or what it says is
/// no model.
#[derive(Debug, PartialEq, Eq)]
pub enum CompileError {
    Syntax(SyntaxError),
    Semantic(SemanticError),
}

/// The mathematical value of a [`CompileError`].
pub enum CompileErrorView {
    Syntax(SyntaxError),
    Semantic(SemanticErrorView),
}

impl View for CompileError {
    type V = CompileErrorView;

    open spec fn view(&self) -> CompileErrorView {
        match *self {
            CompileError::Syntax(e) => CompileErrorView::Syntax(e),
            CompileError::Semantic(e) => CompileErrorView::Semantic(e@),
        }
    }
}

/// The message of a diagnostic.
pub open spec fn diagnostic_message(e: CompileErrorView) -> Seq<char> {
    match e {
        CompileErrorView::Syntax(e) => expectation_text(e.expected),
        CompileErrorView::Semantic(e) => error_message(e),
    }
}

/// The place in the description that a diagnostic points at.
pub open spec fn diagnostic_span(e: CompileErrorView) -> Span {
    match e {
        CompileErrorView::Syntax(e) => e.span,
        CompileErrorView::Semantic(e) => error_ident(e).span,
    }
}

impl CompileError {
    /// The message of the diagnostic.
    pub fn message(&self) -> (text: String)
        ensures
            text@ == diagnostic_message(self@),
    {
        match self {
            CompileError::Syntax(e) => e.message(),
            CompileError::Semantic(e) => e.message(),
        }
    }

    /// The place in the description that the diagnostic points at.
    pub fn span(&self) -> (span: Span)
        ensures
            span == diagnostic_span(self@),
    {
        match self {
            CompileError::Syntax(e) => e.span,
            CompileError::Semantic(e) => e.span(),
        }
    }
}

/// What a description compiles to: the source of its sampler, or the first
/// error of the first stage that fails. A stage runs only on what the stage
/// before it accepted, and nothing is generated for a description in error.
pub open spec fn make_model_spec(tokens: Seq<TokenView>) -> Result<Seq<char>, CompileErrorView> {
    match parse_spec(tokens) {
        Err(e) => Err(CompileErrorView::Syntax(e)),
        Ok(ast) => match analyze_spec(ast) {
            Err(e) => Err(CompileErrorView::Semantic(e)),
            Ok(ir) => Ok(module_text(ir)),
        },
    }
}

/// The value of the outcome of a compilation.
pub open spec fn compile_view(r: Result<String, CompileError>) -> Result<
    Seq<char>,
    CompileErrorView,
> {
    match r {
        Ok(source) => Ok(source@),
        Err(e) => Err(e@),
    }
}

/// Compiles a model description: parses it, analyzes the tree, and generates
/// the source of the sampler.
pub fn make_model(input: &Vec<Token>) -> (outcome: Result<String, CompileError>)
    ensures
        compile_view(outcome) == make_model_spec(tokens_view(input@)),
{
    let ast = match ModelAst::parse(input) {
        Ok(ast) => ast,
        Err(e) => { return Err(CompileError::Syntax(e)); },
    };
    let ir = match analyze(ast) {
        Ok(ir) => ir,
        Err(e) => { return Err(CompileError::Semantic(e)); },
    };
    Ok(codegen(ir))
}

/// Whether one of the variables at `places` has the name `name`.
pub open spec fn is_listed(variables: Seq<VariableIRView>, places: Seq<int>, name: Seq<char>) -> bool {
    exists|k: int|
        0 <= k < places.len() && variables[#[trigger] places[k]].var_ident.name == name
}

/// Whether the variables at `places` are exactly the variables that `refs`
/// name: every one of them is named, every name is one of them, none stands
/// twice, and they stand in the order of the declarations.
pub open spec fn lists_references(
    variables: Seq<VariableIRView>,
    places: Seq<int>,
    refs: Seq<IdentView>,
) -> bool {
    &&& forall|k: int|
        0 <= k < places.len() ==> 0 <= #[trigger] places[k] < variables.len() && mentions(
            refs,
            refs.len() as int,
            variables[places[k]].var_ident.name,
        )
    &&& forall|m: int|
        0 <= m < refs.len() ==> is_listed(variables, places, (#[trigger] refs[m]).name)
    &&& forall|a: int, b: int|
        0 <= a < b < places.len() ==> #[trigger] places[a] < #[trigger] places[b]
            && variables[places[a]].var_ident.name != variables[places[b]].var_ident.name
}

/// A description that parses into a tree that the analysis accepts compiles.
pub proof fn law_accepted_compiles(tokens: Seq<TokenView>)
    requires
        parse_spec(tokens) matches Ok(ast) && analyze_spec(ast) is Ok,
    ensures
        make_model_spec(tokens) is Ok,
{
}

/// In the module of an accepted model the fields of `Sample` are exactly the
/// queried variables and the fields of `Model` exactly the observed ones, each
/// once and in the order of the declarations.
pub proof fn law_fields_are_references(ast: ModelAstView)
    requires
        analyze_spec(ast) is Ok,
    ensures
        ({
            let ir = analyze_spec(ast)->Ok_0;
            &&& lists_references(
                ir.variables,
                selected_positions(ir.variables, Which::Queried),
                ast.queries,
            )
            &&& lists_references(
                ir.variables,
                selected_positions(ir.variables, Which::Observed),
                ast.observes,
            )
        }),
{
    let ir = analyze_spec(ast)->Ok_0;
    law_accepted_model(ast);
    lemma_lists_references(ast, Which::Queried, ast.queries);
    lemma_lists_references(ast, Which::Observed, ast.observes);
}

proof fn lemma_lists_references(ast: ModelAstView, which: Which, refs: Seq<IdentView>)
    requires
        analyze_spec(ast) is Ok,
        which == Which::Queried && refs == ast.queries || which == Which::Observed && refs
            == ast.observes,
    ensures
        lists_references(
            analyze_spec(ast)->Ok_0.variables,
            selected_positions(analyze_spec(ast)->Ok_0.variables, which),
            refs,
        ),
{
    let ir = analyze_spec(ast)->Ok_0;
    let vars = ir.variables;
    let places = selected_positions(vars, which);
    law_accepted_model(ast);
    lemma_selected_positions(vars, which);
    assert forall|k: int| 0 <= k < places.len() implies 0 <= #[trigger] places[k] < vars.len()
        && mentions(refs, refs.len() as int, vars[places[k]].var_ident.name) by {
        let p = places[k];
        assert(selected(vars[p], which));
    }
    assert forall|m: int| 0 <= m < refs.len() implies is_listed(
        vars,
        places,
        (#[trigger] refs[m]).name,
    ) by {
        assert(declares(vars, refs[m].name));
        let i = choose|i: int| 0 <= i < vars.len() && #[trigger] vars[i].var_ident.name == refs[m].name;
        assert(mentions(refs, refs.len() as int, vars[i].var_ident.name));
        assert(selected(vars[i], which));
        assert(places.contains(i));
        let k = choose|k: int| 0 <= k < places.len() && places[k] == i;
        assert(vars[places[k]].var_ident.name == refs[m].name);
    }
    assert forall|a: int, b: int| 0 <= a < b < places.len() implies #[trigger] places[a]
        < #[trigger] places[b] && vars[places[a]].var_ident.name
        != vars[places[b]].var_ident.name by {
        let i = places[a];
        let j = places[b];
        assert(0 <= i < j < vars.len());
        assert(vars[i].var_ident.name != vars[j].var_ident.name);
    }
}

} // verus!
