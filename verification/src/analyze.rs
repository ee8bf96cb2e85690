//! The analyzer: from the syntax tree of a model to its table of variables.

use crate::parse::{
    duplicate_streams, idents_view, stmts_view, streams_view, Ident, IdentView, ModelAst,
    ModelAstView, StmtAst, StmtAstView,
};
use crate::token::{duplicate_tokens, tokens_view, Span, Token, TokenView};
use vstd::prelude::*;
use vstd::string::StringExecFns;

verus! {

/// One random variable of a model: its declaration, and whether the model
/// queries it and whether it observes it.
#[derive(Debug, PartialEq, Eq)]
pub struct VariableIR {
    pub var_ident: Ident,
    pub type_ident: Ident,
    pub dependency: Vec<Token>,
    pub is_queried: bool,
    pub is_observed: bool,
}

/// The mathematical value of a [`VariableIR`].
pub struct VariableIRView {
    pub var_ident: IdentView,
    pub type_ident: IdentView,
    pub dependency: Seq<TokenView>,
    pub is_queried: bool,
    pub is_observed: bool,
}

impl View for VariableIR {
    type V = VariableIRView;

    open spec fn view(&self) -> VariableIRView {
        VariableIRView {
            var_ident: self.var_ident@,
            type_ident: self.type_ident@,
            dependency: tokens_view(self.dependency@),
            is_queried: self.is_queried,
            is_observed: self.is_observed,
        }
    }
}

/// A model before code generation: its name, its imports, and its variables
/// in the order of their declarations.
#[derive(Debug, PartialEq, Eq)]
pub struct ModelIR {
    pub model_ident: Ident,
    pub use_exprs: Vec<Vec<Token>>,
    pub variables: Vec<VariableIR>,
}

/// The mathematical value of a [`ModelIR`].
pub struct ModelIRView {
    pub model_ident: IdentView,
    pub use_exprs: Seq<Seq<TokenView>>,
    pub variables: Seq<VariableIRView>,
}

/// The values of a sequence of variables, in order.
pub open spec fn variables_view(s: Seq<VariableIR>) -> Seq<VariableIRView> {
    Seq::new(s.len(), |i: int| s[i]@)
}

impl View for ModelIR {
    type V = ModelIRView;

    open spec fn view(&self) -> ModelIRView {
        ModelIRView {
            model_ident: self.model_ident@,
            use_exprs: streams_view(self.use_exprs@),
            variables: variables_view(self.variables@),
        }
    }
}

/// Whether one of `variables` has the name `name`.
pub open spec fn declares(variables: Seq<VariableIRView>, name: Seq<char>) -> bool {
    exists|i: int| 0 <= i < variables.len() && #[trigger] variables[i].var_ident.name == name
}

/// Looks a variable up by its name: the place of the first one that has it.
pub fn find_variable(variables: &Vec<VariableIR>, name: &str) -> (found: Option<usize>)
    ensures
        found is Some <==> declares(variables_view(variables@), name@),
        found matches Some(i) ==> {
            &&& i < variables.len()
            &&& variables[i as int].var_ident.name@ == name@
            &&& forall|j: int| 0 <= j < i ==> variables[j].var_ident.name@ != name@
        },
{
    let key = String::from_str(name);
    let mut i: usize = 0;
    while i < variables.len()
        invariant
            i <= variables.len(),
            key@ == name@,
            forall|j: int| 0 <= j < i ==> variables[j].var_ident.name@ != name@,
        decreases variables.len() - i,
    {
        if variables[i].var_ident.name == key {
            assert(variables_view(variables@)[i as int].var_ident.name == name@);
            return Some(i);
        }
        i += 1;
    }
    assert(!declares(variables_view(variables@), name@)) by {
        if declares(variables_view(variables@), name@) {
            let k = choose|k: int|
                0 <= k < variables.len() && #[trigger] variables_view(
                    variables@,
                )[k].var_ident.name == name@;
            assert(variables[k].var_ident.name@ != name@);
        }
    }
    None
}

impl ModelIR {
    /// Whether the model is in order: no two of its variables have one name.
    /// The analysis gives no other models.
    pub open spec fn wf(&self) -> bool {
        distinct_names(self@.variables)
    }

    /// The variable with the name `name`, if the model declares one: the
    /// first, should the model be out of order and declare several.
    pub fn get(&self, name: &str) -> (found: Option<&VariableIR>)
        ensures
            found is Some <==> declares(self@.variables, name@),
            found matches Some(v) ==> v.var_ident.name@ == name@ && exists|i: int|
                0 <= i < self.variables.len() && self.variables[i] == *v && forall|j: int|
                    0 <= j < i ==> self.variables[j].var_ident.name@ != name@,
    {
        match find_variable(&self.variables, name) {
            Some(i) => Some(&self.variables[i]),
            None => None,
        }
    }
}

/// Which kind of statement a reference to a variable stands in.
#[derive(Clone, Copy, Debug, PartialEq, Eq, Structural)]
pub enum Reference {
    Query,
    Observe,
}

/// What makes a syntax tree no model. Each error holds the name at which the
/// analysis stopped, with its place in the description.
#[derive(Debug, PartialEq, Eq)]
pub enum SemanticError {
    /// A declaration of a name that an earlier declaration has.
    DuplicateVariable { ident: Ident },
    /// A query or an observation of a name that no declaration has.
    UndefinedVariable { ident: Ident, reference: Reference },
    /// A query of a variable that an earlier query names.
    DuplicateQuery { ident: Ident },
    /// An observation of a variable that an earlier observation names.
    DuplicateObserve { ident: Ident },
}

/// The mathematical value of a [`SemanticError`].
pub enum SemanticErrorView {
    DuplicateVariable { ident: IdentView },
    UndefinedVariable { ident: IdentView, reference: Reference },
    DuplicateQuery { ident: IdentView },
    DuplicateObserve { ident: IdentView },
}

impl View for SemanticError {
    type V = SemanticErrorView;

    open spec fn view(&self) -> SemanticErrorView {
        match *self {
            SemanticError::DuplicateVariable { ident } => SemanticErrorView::DuplicateVariable {
                ident: ident@,
            },
            SemanticError::UndefinedVariable {
                ident,
                reference,
            } => SemanticErrorView::UndefinedVariable { ident: ident@, reference },
            SemanticError::DuplicateQuery { ident } => SemanticErrorView::DuplicateQuery {
                ident: ident@,
            },
            SemanticError::DuplicateObserve { ident } => SemanticErrorView::DuplicateObserve {
                ident: ident@,
            },
        }
    }
}

/// The name at which the analysis stopped.
pub open spec fn error_ident(e: SemanticErrorView) -> IdentView {
    match e {
        SemanticErrorView::DuplicateVariable { ident } => ident,
        SemanticErrorView::UndefinedVariable { ident, .. } => ident,
        SemanticErrorView::DuplicateQuery { ident } => ident,
        SemanticErrorView::DuplicateObserve { ident } => ident,
    }
}

/// The message of an error, without the name: what stands before the name.
pub open spec fn error_prefix(e: SemanticErrorView) -> Seq<char> {
    match e {
        SemanticErrorView::DuplicateVariable { .. } => "duplicate declaration of variable `"@,
        SemanticErrorView::UndefinedVariable {
            reference: Reference::Query,
            ..
        } => "undefined query variable `"@,
        SemanticErrorView::UndefinedVariable {
            reference: Reference::Observe,
            ..
        } => "undefined observed variable `"@,
        SemanticErrorView::DuplicateQuery { .. } => "duplicate query of variable `"@,
        SemanticErrorView::DuplicateObserve { .. } => "duplicate observe of variable `"@,
    }
}

/// The message of an error: what went wrong, and the name in backquotes.
pub open spec fn error_message(e: SemanticErrorView) -> Seq<char> {
    error_prefix(e) + error_ident(e).name + "`"@
}

impl SemanticError {
    /// The name at which the analysis stopped.
    pub fn ident(&self) -> (ident: &Ident)
        ensures
            ident@ == error_ident(self@),
    {
        match self {
            SemanticError::DuplicateVariable { ident } => ident,
            SemanticError::UndefinedVariable { ident, .. } => ident,
            SemanticError::DuplicateQuery { ident } => ident,
            SemanticError::DuplicateObserve { ident } => ident,
        }
    }

    /// Where in the description the analysis stopped.
    pub fn span(&self) -> (span: Span)
        ensures
            span == error_ident(self@).span,
    {
        self.ident().span
    }

    /// The message of the error.
    pub fn message(&self) -> (text: String)
        ensures
            text@ == error_message(self@),
    {
        let mut text = match self {
            SemanticError::DuplicateVariable { .. } => String::from_str(
                "duplicate declaration of variable `",
            ),
            SemanticError::UndefinedVariable { reference: Reference::Query, .. } => String::from_str(
                "undefined query variable `",
            ),
            SemanticError::UndefinedVariable {
                reference: Reference::Observe,
                ..
            } => String::from_str("undefined observed variable `"),
            SemanticError::DuplicateQuery { .. } => String::from_str(
                "duplicate query of variable `",
            ),
            SemanticError::DuplicateObserve { .. } => String::from_str(
                "duplicate observe of variable `",
            ),
        };
        text.append(self.ident().name.as_str());
        text.append("`");
        text
    }
}

/// Whether one of the first `limit` declarations has the name `name`.
pub open spec fn declared(stmts: Seq<StmtAstView>, limit: int, name: Seq<char>) -> bool {
    exists|i: int| 0 <= i < limit && i < stmts.len() && #[trigger] stmts[i].var_ident.name == name
}

/// Whether one of the first `limit` references names `name`.
pub open spec fn mentions(refs: Seq<IdentView>, limit: int, name: Seq<char>) -> bool {
    exists|k: int| 0 <= k < limit && k < refs.len() && #[trigger] refs[k].name == name
}

/// Whether declaration `j` has a name that an earlier declaration has.
pub open spec fn redeclares(stmts: Seq<StmtAstView>, j: int) -> bool {
    0 <= j < stmts.len() && declared(stmts, j, stmts[j].var_ident.name)
}

/// Whether reference `k` is in error: it names no declared variable, or a
/// variable that an earlier reference of the same list names.
pub open spec fn misrefers(stmts: Seq<StmtAstView>, refs: Seq<IdentView>, k: int) -> bool {
    0 <= k < refs.len() && (!declared(stmts, stmts.len() as int, refs[k].name) || mentions(
        refs,
        k,
        refs[k].name,
    ))
}

/// The first declaration that has the name of an earlier one, if there is one.
pub open spec fn first_redeclared(stmts: Seq<StmtAstView>) -> Option<int> {
    if exists|j: int| redeclares(stmts, j) {
        Some(
            choose|j: int|
                redeclares(stmts, j) && forall|i: int| 0 <= i < j ==> !redeclares(stmts, i),
        )
    } else {
        None
    }
}

/// The first reference that is in error, if there is one.
pub open spec fn first_misreferred(stmts: Seq<StmtAstView>, refs: Seq<IdentView>) -> Option<int> {
    if exists|k: int| misrefers(stmts, refs, k) {
        Some(
            choose|k: int|
                misrefers(stmts, refs, k) && forall|i: int|
                    0 <= i < k ==> !misrefers(stmts, refs, i),
        )
    } else {
        None
    }
}

/// The error of reference `k`, which is in error: a name that is not declared
/// is undefined; a declared one is a duplicate.
pub open spec fn reference_error(
    stmts: Seq<StmtAstView>,
    refs: Seq<IdentView>,
    k: int,
    reference: Reference,
) -> SemanticErrorView {
    if !declared(stmts, stmts.len() as int, refs[k].name) {
        SemanticErrorView::UndefinedVariable { ident: refs[k], reference }
    } else {
        match reference {
            Reference::Query => SemanticErrorView::DuplicateQuery { ident: refs[k] },
            Reference::Observe => SemanticErrorView::DuplicateObserve { ident: refs[k] },
        }
    }
}

/// The variable made of declaration `i`: queried when a query names it,
/// observed when an observation names it.
pub open spec fn variable_of(ast: ModelAstView, i: int) -> VariableIRView {
    let stmt = ast.stmts[i];
    VariableIRView {
        var_ident: stmt.var_ident,
        type_ident: stmt.type_ident,
        dependency: stmt.dependency,
        is_queried: mentions(ast.queries, ast.queries.len() as int, stmt.var_ident.name),
        is_observed: mentions(ast.observes, ast.observes.len() as int, stmt.var_ident.name),
    }
}

/// The outcome of the analysis of `ast`.
///
/// The first declaration that repeats a name is a `DuplicateVariable`. With
/// none, the first query in error decides: `UndefinedVariable` when its name is
/// not declared, `DuplicateQuery` when an earlier query has it. With none, the
/// first observation in error decides in the same way. With none at all the
/// model stands: one variable for each declaration, in the order of the
/// declarations, flagged by the queries and observations that name it.
pub open spec fn analyze_spec(ast: ModelAstView) -> Result<ModelIRView, SemanticErrorView> {
    if let Some(j) = first_redeclared(ast.stmts) {
        Err(SemanticErrorView::DuplicateVariable { ident: ast.stmts[j].var_ident })
    } else if let Some(k) = first_misreferred(ast.stmts, ast.queries) {
        Err(reference_error(ast.stmts, ast.queries, k, Reference::Query))
    } else if let Some(k) = first_misreferred(ast.stmts, ast.observes) {
        Err(reference_error(ast.stmts, ast.observes, k, Reference::Observe))
    } else {
        Ok(
            ModelIRView {
                model_ident: ast.model_ident,
                use_exprs: ast.use_exprs,
                variables: Seq::new(ast.stmts.len(), |i: int| variable_of(ast, i)),
            },
        )
    }
}

/// The value of the outcome of an analysis.
pub open spec fn analysis_view(r: Result<ModelIR, SemanticError>) -> Result<
    ModelIRView,
    SemanticErrorView,
> {
    match r {
        Ok(ir) => Ok(ir@),
        Err(e) => Err(e@),
    }
}

/// Whether the names of the variables are all different.
pub open spec fn distinct_names(variables: Seq<VariableIRView>) -> bool {
    forall|i: int, j: int|
        0 <= i < j < variables.len() ==> #[trigger] variables[i].var_ident.name
            != #[trigger] variables[j].var_ident.name
}

fn find_declaration(stmts: &Vec<StmtAst>, limit: usize, name: &String) -> (found: bool)
    requires
        limit <= stmts.len(),
    ensures
        found == declared(stmts_view(stmts@), limit as int, name@),
{
    let mut i: usize = 0;
    while i < limit
        invariant
            i <= limit <= stmts.len(),
            forall|j: int| 0 <= j < i ==> (#[trigger] stmts_view(stmts@)[j]).var_ident.name != name@,
        decreases limit - i,
    {
        if stmts[i].var_ident.name == *name {
            assert(stmts_view(stmts@)[i as int].var_ident.name == name@);
            return true;
        }
        i += 1;
    }
    false
}

fn find_reference(refs: &Vec<Ident>, limit: usize, name: &String) -> (found: bool)
    requires
        limit <= refs.len(),
    ensures
        found == mentions(idents_view(refs@), limit as int, name@),
{
    let mut i: usize = 0;
    while i < limit
        invariant
            i <= limit <= refs.len(),
            forall|j: int| 0 <= j < i ==> (#[trigger] idents_view(refs@)[j]).name != name@,
        decreases limit - i,
    {
        if refs[i].name == *name {
            assert(idents_view(refs@)[i as int].name == name@);
            return true;
        }
        i += 1;
    }
    false
}

fn check_declarations(stmts: &Vec<StmtAst>) -> (error: Option<SemanticError>)
    ensures
        match first_redeclared(stmts_view(stmts@)) {
            Some(j) => error matches Some(e) && e@ == (SemanticErrorView::DuplicateVariable {
                ident: stmts_view(stmts@)[j].var_ident,
            }),
            None => error is None,
        },
{
    let ghost all = stmts_view(stmts@);
    let mut j: usize = 0;
    while j < stmts.len()
        invariant
            j <= stmts.len(),
            all == stmts_view(stmts@),
            forall|i: int| 0 <= i < j ==> !redeclares(all, i),
        decreases stmts.len() - j,
    {
        if find_declaration(stmts, j, &stmts[j].var_ident.name) {
            assert(redeclares(all, j as int));
            return Some(SemanticError::DuplicateVariable { ident: stmts[j].var_ident.duplicate() });
        }
        j += 1;
    }
    None
}

fn check_references(stmts: &Vec<StmtAst>, refs: &Vec<Ident>, reference: Reference) -> (error:
    Option<SemanticError>)
    ensures
        match first_misreferred(stmts_view(stmts@), idents_view(refs@)) {
            Some(k) => error matches Some(e) && e@ == reference_error(
                stmts_view(stmts@),
                idents_view(refs@),
                k,
                reference,
            ),
            None => error is None,
        },
{
    let ghost all = stmts_view(stmts@);
    let ghost names = idents_view(refs@);
    let mut k: usize = 0;
    while k < refs.len()
        invariant
            k <= refs.len(),
            all == stmts_view(stmts@),
            names == idents_view(refs@),
            forall|i: int| 0 <= i < k ==> !misrefers(all, names, i),
        decreases refs.len() - k,
    {
        let name = &refs[k].name;
        if !find_declaration(stmts, stmts.len(), name) {
            assert(misrefers(all, names, k as int));
            return Some(
                SemanticError::UndefinedVariable { ident: refs[k].duplicate(), reference },
            );
        }
        if find_reference(refs, k, name) {
            assert(misrefers(all, names, k as int));
            return Some(
                match reference {
                    Reference::Query => SemanticError::DuplicateQuery { ident: refs[k].duplicate() },
                    Reference::Observe => SemanticError::DuplicateObserve {
                        ident: refs[k].duplicate(),
                    },
                },
            );
        }
        assert(!misrefers(all, names, k as int));
        k += 1;
    }
    None
}

/// Analyzes a syntax tree: checks its declarations, then its queries, then its
/// observations, each in the order of the description, and stops at the first
/// error. Without one it gives the model.
pub fn analyze(ast: ModelAst) -> (outcome: Result<ModelIR, SemanticError>)
    ensures
        analysis_view(outcome) == analyze_spec(ast@),
        outcome matches Ok(ir) ==> ir.wf(),
{
    if let Some(e) = check_declarations(&ast.stmts) {
        return Err(e);
    }
    if let Some(e) = check_references(&ast.stmts, &ast.queries, Reference::Query) {
        return Err(e);
    }
    if let Some(e) = check_references(&ast.stmts, &ast.observes, Reference::Observe) {
        return Err(e);
    }
    let mut variables: Vec<VariableIR> = Vec::new();
    let mut i: usize = 0;
    while i < ast.stmts.len()
        invariant
            i <= ast.stmts.len(),
            variables.len() == i,
            forall|j: int| 0 <= j < i ==> (#[trigger] variables[j])@ == variable_of(ast@, j),
        decreases ast.stmts.len() - i,
    {
        let stmt = &ast.stmts[i];
        let name = &stmt.var_ident.name;
        let variable = VariableIR {
            var_ident: stmt.var_ident.duplicate(),
            type_ident: stmt.type_ident.duplicate(),
            dependency: duplicate_tokens(&stmt.dependency),
            is_queried: find_reference(&ast.queries, ast.queries.len(), name),
            is_observed: find_reference(&ast.observes, ast.observes.len(), name),
        };
        assert(variable@ == variable_of(ast@, i as int));
        variables.push(variable);
        i += 1;
    }
    let ir = ModelIR {
        model_ident: ast.model_ident.duplicate(),
        use_exprs: duplicate_streams(&ast.use_exprs),
        variables,
    };
    assert(ir@.variables =~= Seq::new(ast@.stmts.len(), |i: int| variable_of(ast@, i)));
    proof {
        law_accepted_model(ast@);
    }
    Ok(ir)
}

/// What `first_redeclared` gives: nothing where no declaration repeats a
/// name, and else the least declaration that does.
pub proof fn lemma_first_redeclared(stmts: Seq<StmtAstView>)
    ensures
        match first_redeclared(stmts) {
            Some(j) => redeclares(stmts, j) && forall|i: int| 0 <= i < j ==> !redeclares(stmts, i),
            None => forall|j: int| !redeclares(stmts, j),
        },
{
    if exists|j: int| redeclares(stmts, j) {
        let j = choose|j: int| redeclares(stmts, j);
        lemma_least_redeclared(stmts, j);
    }
}

proof fn lemma_least_redeclared(stmts: Seq<StmtAstView>, j: int)
    requires
        redeclares(stmts, j),
    ensures
        exists|m: int|
            redeclares(stmts, m) && forall|i: int| 0 <= i < m ==> !redeclares(stmts, i),
    decreases j,
{
    if exists|i: int| 0 <= i < j && redeclares(stmts, i) {
        let i = choose|i: int| 0 <= i < j && redeclares(stmts, i);
        lemma_least_redeclared(stmts, i);
    } else {
        assert(redeclares(stmts, j) && forall|i: int| 0 <= i < j ==> !redeclares(stmts, i));
    }
}

/// What `first_misreferred` gives: nothing where no reference is in error,
/// and else the least reference that is.
pub proof fn lemma_first_misreferred(stmts: Seq<StmtAstView>, refs: Seq<IdentView>)
    ensures
        match first_misreferred(stmts, refs) {
            Some(k) => misrefers(stmts, refs, k) && forall|i: int|
                0 <= i < k ==> !misrefers(stmts, refs, i),
            None => forall|k: int| !misrefers(stmts, refs, k),
        },
{
    if exists|k: int| misrefers(stmts, refs, k) {
        let k = choose|k: int| misrefers(stmts, refs, k);
        lemma_least_misreferred(stmts, refs, k);
    }
}

proof fn lemma_least_misreferred(stmts: Seq<StmtAstView>, refs: Seq<IdentView>, k: int)
    requires
        misrefers(stmts, refs, k),
    ensures
        exists|m: int|
            misrefers(stmts, refs, m) && forall|i: int| 0 <= i < m ==> !misrefers(stmts, refs, i),
    decreases k,
{
    if exists|i: int| 0 <= i < k && misrefers(stmts, refs, i) {
        let i = choose|i: int| 0 <= i < k && misrefers(stmts, refs, i);
        lemma_least_misreferred(stmts, refs, i);
    } else {
        assert(misrefers(stmts, refs, k) && forall|i: int|
            0 <= i < k ==> !misrefers(stmts, refs, i));
    }
}

/// Two declarations of one name are never a model: the analysis ends in
/// `DuplicateVariable`, at the first declaration that repeats a name.
pub proof fn law_duplicate_declaration(ast: ModelAstView, i: int, j: int)
    requires
        0 <= i < j < ast.stmts.len(),
        ast.stmts[i].var_ident.name == ast.stmts[j].var_ident.name,
    ensures
        first_redeclared(ast.stmts) matches Some(first) && 0 < first <= j && analyze_spec(ast)
            == Err::<ModelIRView, SemanticErrorView>(
            SemanticErrorView::DuplicateVariable { ident: ast.stmts[first].var_ident },
        ),
{
    assert(redeclares(ast.stmts, j));
    lemma_first_redeclared(ast.stmts);
}

/// A query of a name that no declaration has ends the analysis in
/// `UndefinedVariable`, at the first query of such a name, where no error of
/// another kind comes before it: the declarations are all different, and no
/// query before it repeats an earlier one.
pub proof fn law_undefined_query(ast: ModelAstView, k: int)
    requires
        first_redeclared(ast.stmts) is None,
        0 <= k < ast.queries.len(),
        !declared(ast.stmts, ast.stmts.len() as int, ast.queries[k].name),
        forall|i: int| 0 <= i < k ==> !#[trigger] mentions(ast.queries, i, ast.queries[i].name),
    ensures
        first_misreferred(ast.stmts, ast.queries) matches Some(first) && first <= k && analyze_spec(
            ast,
        ) == Err::<ModelIRView, SemanticErrorView>(
            SemanticErrorView::UndefinedVariable {
                ident: ast.queries[first],
                reference: Reference::Query,
            },
        ),
{
    lemma_undefined_reference(ast.stmts, ast.queries, k, Reference::Query);
}

/// An observation of a name that no declaration has ends the analysis in
/// `UndefinedVariable`, at the first observation of such a name, where no
/// error of another kind comes before it: the declarations are all different,
/// the queries are in order, and no observation before it repeats an earlier
/// one.
pub proof fn law_undefined_observe(ast: ModelAstView, k: int)
    requires
        first_redeclared(ast.stmts) is None,
        first_misreferred(ast.stmts, ast.queries) is None,
        0 <= k < ast.observes.len(),
        !declared(ast.stmts, ast.stmts.len() as int, ast.observes[k].name),
        forall|i: int| 0 <= i < k ==> !#[trigger] mentions(ast.observes, i, ast.observes[i].name),
    ensures
        first_misreferred(ast.stmts, ast.observes) matches Some(first) && first <= k
            && analyze_spec(ast) == Err::<ModelIRView, SemanticErrorView>(
            SemanticErrorView::UndefinedVariable {
                ident: ast.observes[first],
                reference: Reference::Observe,
            },
        ),
{
    lemma_undefined_reference(ast.stmts, ast.observes, k, Reference::Observe);
}

proof fn lemma_undefined_reference(
    stmts: Seq<StmtAstView>,
    refs: Seq<IdentView>,
    k: int,
    reference: Reference,
)
    requires
        0 <= k < refs.len(),
        !declared(stmts, stmts.len() as int, refs[k].name),
        forall|i: int| 0 <= i < k ==> !#[trigger] mentions(refs, i, refs[i].name),
    ensures
        first_misreferred(stmts, refs) matches Some(first) && first <= k && reference_error(
            stmts,
            refs,
            first,
            reference,
        ) == (SemanticErrorView::UndefinedVariable { ident: refs[first], reference }),
{
    lemma_first_misreferred(stmts, refs);
    assert(misrefers(stmts, refs, k));
    let first = first_misreferred(stmts, refs)->0;
    if first < k {
        assert(!mentions(refs, first, refs[first].name));
    }
}

/// Two queries of one variable end the analysis in `DuplicateQuery`, at the
/// first query that repeats one, where no error of another kind comes before
/// the second: the declarations are all different, and every query up to it
/// names a declared variable.
pub proof fn law_duplicate_query(ast: ModelAstView, i: int, k: int)
    requires
        first_redeclared(ast.stmts) is None,
        0 <= i < k < ast.queries.len(),
        ast.queries[i].name == ast.queries[k].name,
        forall|m: int|
            0 <= m <= k ==> #[trigger] declared(
                ast.stmts,
                ast.stmts.len() as int,
                ast.queries[m].name,
            ),
    ensures
        first_misreferred(ast.stmts, ast.queries) matches Some(first) && first <= k && analyze_spec(
            ast,
        ) == Err::<ModelIRView, SemanticErrorView>(
            SemanticErrorView::DuplicateQuery { ident: ast.queries[first] },
        ),
{
    lemma_duplicate_reference(ast.stmts, ast.queries, i, k, Reference::Query);
}

/// Two observations of one variable end the analysis in `DuplicateObserve`,
/// at the first observation that repeats one, where no error of another kind
/// comes before the second: the declarations are all different, the queries
/// are in order, and every observation up to it names a declared variable.
pub proof fn law_duplicate_observe(ast: ModelAstView, i: int, k: int)
    requires
        first_redeclared(ast.stmts) is None,
        first_misreferred(ast.stmts, ast.queries) is None,
        0 <= i < k < ast.observes.len(),
        ast.observes[i].name == ast.observes[k].name,
        forall|m: int|
            0 <= m <= k ==> #[trigger] declared(
                ast.stmts,
                ast.stmts.len() as int,
                ast.observes[m].name,
            ),
    ensures
        first_misreferred(ast.stmts, ast.observes) matches Some(first) && first <= k
            && analyze_spec(ast) == Err::<ModelIRView, SemanticErrorView>(
            SemanticErrorView::DuplicateObserve { ident: ast.observes[first] },
        ),
{
    lemma_duplicate_reference(ast.stmts, ast.observes, i, k, Reference::Observe);
}

proof fn lemma_duplicate_reference(
    stmts: Seq<StmtAstView>,
    refs: Seq<IdentView>,
    i: int,
    k: int,
    reference: Reference,
)
    requires
        0 <= i < k < refs.len(),
        refs[i].name == refs[k].name,
        forall|m: int| 0 <= m <= k ==> #[trigger] declared(stmts, stmts.len() as int, refs[m].name),
    ensures
        first_misreferred(stmts, refs) matches Some(first) && first <= k && !(reference_error(
            stmts,
            refs,
            first,
            reference,
        ) is UndefinedVariable),
{
    lemma_first_misreferred(stmts, refs);
    assert(mentions(refs, k, refs[k].name));
    assert(misrefers(stmts, refs, k));
    let first = first_misreferred(stmts, refs)->0;
    assert(first <= k);
    assert(declared(stmts, stmts.len() as int, refs[first].name));
}

/// What a model that the analysis accepts is like: its variables are the
/// declarations in their order, their names are all different, every query
/// and every observation names one of them, and none is named twice by the
/// queries or twice by the observations.
pub proof fn law_accepted_model(ast: ModelAstView)
    requires
        analyze_spec(ast) is Ok,
    ensures
        ({
            let ir = analyze_spec(ast)->Ok_0;
            &&& ir.model_ident == ast.model_ident
            &&& ir.use_exprs == ast.use_exprs
            &&& ir.variables.len() == ast.stmts.len()
            &&& forall|i: int|
                0 <= i < ast.stmts.len() ==> #[trigger] ir.variables[i] == variable_of(ast, i)
            &&& distinct_names(ir.variables)
            &&& forall|k: int|
                0 <= k < ast.queries.len() ==> declares(
                    ir.variables,
                    #[trigger] ast.queries[k].name,
                )
            &&& forall|k: int|
                0 <= k < ast.observes.len() ==> declares(
                    ir.variables,
                    #[trigger] ast.observes[k].name,
                )
            &&& forall|i: int, k: int|
                0 <= i < k < ast.queries.len() ==> #[trigger] ast.queries[i].name
                    != #[trigger] ast.queries[k].name
            &&& forall|i: int, k: int|
                0 <= i < k < ast.observes.len() ==> #[trigger] ast.observes[i].name
                    != #[trigger] ast.observes[k].name
        }),
{
    let ir = analyze_spec(ast)->Ok_0;
    lemma_first_redeclared(ast.stmts);
    lemma_first_misreferred(ast.stmts, ast.queries);
    lemma_first_misreferred(ast.stmts, ast.observes);
    assert forall|i: int, j: int| 0 <= i < j < ir.variables.len() implies #[trigger] ir.variables[i].var_ident.name
        != #[trigger] ir.variables[j].var_ident.name by {
        if ir.variables[i].var_ident.name == ir.variables[j].var_ident.name {
            assert(ast.stmts[i].var_ident.name == ast.stmts[j].var_ident.name);
            assert(redeclares(ast.stmts, j));
        }
    }
    assert forall|k: int| 0 <= k < ast.queries.len() implies declares(
        ir.variables,
        #[trigger] ast.queries[k].name,
    ) by {
        assert(!misrefers(ast.stmts, ast.queries, k));
        let i = choose|i: int|
            0 <= i < ast.stmts.len() && i < ast.stmts.len() && #[trigger] ast.stmts[i].var_ident.name
                == ast.queries[k].name;
        assert(ir.variables[i].var_ident.name == ast.queries[k].name);
    }
    assert forall|k: int| 0 <= k < ast.observes.len() implies declares(
        ir.variables,
        #[trigger] ast.observes[k].name,
    ) by {
        assert(!misrefers(ast.stmts, ast.observes, k));
        let i = choose|i: int|
            0 <= i < ast.stmts.len() && i < ast.stmts.len() && #[trigger] ast.stmts[i].var_ident.name
                == ast.observes[k].name;
        assert(ir.variables[i].var_ident.name == ast.observes[k].name);
    }
    assert forall|i: int, k: int| 0 <= i < k < ast.queries.len() implies #[trigger] ast.queries[i].name
        != #[trigger] ast.queries[k].name by {
        assert(!misrefers(ast.stmts, ast.queries, k));
    }
    assert forall|i: int, k: int| 0 <= i < k < ast.observes.len() implies #[trigger] ast.observes[i].name
        != #[trigger] ast.observes[k].name by {
        assert(!misrefers(ast.stmts, ast.observes, k));
    }
}

} // verus!
