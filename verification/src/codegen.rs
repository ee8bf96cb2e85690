//! The generator: from the table of variables to the source of the sampler.
//!
//! The sampler evaluates lazily: a variable is drawn when it is first read,
//! and a dependency before the variable that reads it, because the reference
//! to it in a dependency expression is rewritten into a call of its evaluator.
//! No order of evaluation is computed beforehand. A variable that reads
//! itself, directly or through others, is therefore no error of the model: the
//! reference may never be reached. The evaluators find such a cycle when they
//! run into it, and report it as `CyclicDependency`.

use crate::analyze::{
    declares, find_variable, variables_view, ModelIR, ModelIRView, VariableIR, VariableIRView,
};
use crate::parse::streams_view;
use crate::template::{
    bindings_view, expand, expand_into, filling, law_place_is_filled, law_plain_text_stands,
};
use crate::token::{render, render_tokens, tokens_view, Delimiter, Span, Token, TokenView};
use vstd::prelude::*;
use vstd::string::{StrSliceExecFns, StringExecFns};

verus! {

/// The name of a variable without the mark of a raw identifier: the names
/// made from it (`eval_name`, `var_name`, `obs_name`) are ordinary identifiers.
pub open spec fn bare_name(name: Seq<char>) -> Seq<char> {
    if name.len() >= 2 && name[0] == 'r' && name[1] == '#' {
        name.skip(2)
    } else {
        name
    }
}

/// The tokens that stand for a reference to the variable `name`: a call of its
/// evaluator, which hands a failed draw on to the caller.
pub open spec fn evaluator_call(name: Seq<char>, span: Span) -> Seq<TokenView> {
    seq![
        TokenView::Ident { name: "self"@, span },
        TokenView::Punct { ch: '.', joint: false, span },
        TokenView::Ident { name: "eval_"@ + bare_name(name), span },
        TokenView::Group { delimiter: Delimiter::Parenthesis, stream: Seq::empty(), span },
        TokenView::Punct { ch: '?', joint: false, span },
    ]
}

/// One token tree of a dependency expression after the rewrite: a word that
/// names a declared variable becomes an invisible group holding the call of
/// that variable's evaluator; a group is rewritten inside; all else stays.
pub open spec fn replace_token(t: TokenView, variables: Seq<VariableIRView>) -> TokenView
    decreases t, 0int,
{
    match t {
        TokenView::Ident { name, span } => if declares(variables, name) {
            TokenView::Group {
                delimiter: Delimiter::Invisible,
                stream: evaluator_call(name, span),
                span,
            }
        } else {
            t
        },
        TokenView::Group { delimiter, stream, span } => TokenView::Group {
            delimiter,
            stream: replace_tokens(stream, variables),
            span,
        },
        _ => t,
    }
}

/// A dependency expression after the rewrite: each of its token trees
/// rewritten, in place.
pub open spec fn replace_tokens(s: Seq<TokenView>, variables: Seq<VariableIRView>) -> Seq<
    TokenView,
>
    decreases s, 1int,
{
    Seq::new(
        s.len(),
        |i: int|
            if 0 <= i < s.len() {
                replace_token(s[i], variables)
            } else {
                arbitrary()
            },
    )
}

fn strip_raw(name: &str) -> (bare: &str)
    ensures
        bare@ == bare_name(name@),
{
    let n = name.unicode_len();
    if n >= 2 && name.get_char(0) == 'r' && name.get_char(1) == '#' {
        let bare = name.substring_char(2, n);
        assert(bare@ =~= name@.skip(2));
        bare
    } else {
        name
    }
}

fn make_evaluator_call(name: &str, span: Span) -> (call: Vec<Token>)
    ensures
        tokens_view(call@) == evaluator_call(name@, span),
{
    let mut eval_name = String::from_str("eval_");
    eval_name.append(strip_raw(name));
    let mut call: Vec<Token> = Vec::new();
    call.push(Token::Ident { name: String::from_str("self"), span });
    call.push(Token::Punct { ch: '.', joint: false, span });
    call.push(Token::Ident { name: eval_name, span });
    let inner: Vec<Token> = Vec::new();
    assert(tokens_view(inner@) =~= Seq::empty());
    call.push(Token::Group { delimiter: Delimiter::Parenthesis, stream: inner, span });
    call.push(Token::Punct { ch: '?', joint: false, span });
    assert(tokens_view(call@) =~= evaluator_call(name@, span));
    call
}

fn replace_one(token: &Token, variables: &Vec<VariableIR>) -> (out: Token)
    ensures
        out@ == replace_token(token@, variables_view(variables@)),
    decreases token, 0int,
{
    match token {
        Token::Ident { name, span } => {
            if find_variable(variables, name.as_str()).is_some() {
                Token::Group {
                    delimiter: Delimiter::Invisible,
                    stream: make_evaluator_call(name.as_str(), *span),
                    span: *span,
                }
            } else {
                token.duplicate()
            }
        },
        Token::Group { delimiter, stream, span } => Token::Group {
            delimiter: *delimiter,
            stream: replace(stream, variables),
            span: *span,
        },
        _ => token.duplicate(),
    }
}

/// Rewrites a dependency expression: every word in it that names one of
/// `variables`, at any depth of bracketing, becomes a call of that variable's
/// evaluator. Nothing else changes.
pub fn replace(dep_tokens: &Vec<Token>, variables: &Vec<VariableIR>) -> (out: Vec<Token>)
    ensures
        tokens_view(out@) == replace_tokens(tokens_view(dep_tokens@), variables_view(variables@)),
    decreases dep_tokens, 1int,
{
    let mut out: Vec<Token> = Vec::new();
    let mut i: usize = 0;
    while i < dep_tokens.len()
        invariant
            i <= dep_tokens.len(),
            out.len() == i,
            forall|j: int|
                0 <= j < i ==> out[j]@ == replace_token(
                    dep_tokens[j]@,
                    variables_view(variables@),
                ),
        decreases dep_tokens.len() - i,
    {
        out.push(replace_one(&dep_tokens[i], variables));
        i += 1;
    }
    assert(tokens_view(out@) =~= replace_tokens(
        tokens_view(dep_tokens@),
        variables_view(variables@),
    ));
    out
}

/// Which of a model's variables a part of the module is written for.
#[derive(Clone, Copy, Debug, PartialEq, Eq, Structural)]
pub enum Which {
    /// Every declared variable.
    All,
    /// The variables that the model queries.
    Queried,
    /// The variables that the model observes.
    Observed,
}

/// The parts of the module that are written once for each variable.
#[derive(Clone, Copy, Debug, PartialEq, Eq, Structural)]
pub enum Part {
    /// A public field of `Sample` or of `Model`.
    Field,
    /// The evidence as an argument of the constructor of `World`.
    Argument,
    /// The memo cell, and the flag that is set while the variable is being
    /// evaluated.
    Cell,
    /// The field that holds the evidence.
    Evidence,
    /// The evidence as a parameter of the constructor of `World`.
    Parameter,
    /// The memo cell set to `Unknown` and the flag cleared, in the
    /// constructor.
    CellInit,
    /// The evidence handed to its field, in the constructor.
    EvidenceInit,
    /// The statements of `reset`: the memo cell is `Unknown` again and the
    /// flag is clear.
    Reset,
    /// The test of the evidence against the variable's value, in `sample`.
    Check,
    /// The field of the sample, filled by the variable's evaluator.
    Answer,
    /// The evaluator, which draws the variable once in a trial and reports a
    /// cycle that it runs into, and the function that constructs the
    /// distribution from the rewritten dependency expression.
    Evaluator,
}

// The templates of the generated module.
//
// In the template of a part, `$n` is the name of the variable, `$b` the name
// without the mark of a raw identifier, `$t` its type, and `$e` the text of
// its rewritten dependency expression. A part starts with a space, so that
// parts can stand side by side.

/// A public field of `Sample` or of `Model`.
pub const FIELD: &'static str = " pub $n: $t,";

/// The evidence as an argument of the constructor of `World`.
pub const ARGUMENT: &'static str = " self.$n,";

/// The memo cell of a variable, and the flag that is set while the variable
/// is being evaluated.
pub const CELL: &'static str = " var_$b: FeOption<$t>, busy_$b: bool,";

/// The field of `World` that holds the evidence.
pub const EVIDENCE: &'static str = " obs_$b: $t,";

/// The evidence as a parameter of the constructor of `World`.
pub const PARAMETER: &'static str = " $n: $t,";

/// The memo cell and the flag at the start: nothing drawn, nothing under way.
pub const CELL_INIT: &'static str = " var_$b: FeOption::Unknown, busy_$b: false,";

/// The evidence handed to its field.
pub const EVIDENCE_INIT: &'static str = " obs_$b: $n,";

/// The start of a trial for one variable: its cell is `Unknown` again.
pub const RESET: &'static str = " self.var_$b = FeOption::Unknown; self.busy_$b = false;";

/// The rejection: a trial in which the variable is not what was observed
/// ends here, and the next one starts.
pub const CHECK: &'static str = " if self.obs_$b != self.eval_$b()? { continue; }";

/// The field of the sample, filled by the variable's evaluator.
pub const ANSWER: &'static str = " $n: self.eval_$b()?,";

/// The evaluator of a variable and the function that constructs its
/// distribution. The evaluator draws the variable where its cell is `Unknown`,
/// and only there; it reports a cycle where it is asked for the variable while
/// it is evaluating it; and it hands on the failure to construct the
/// distribution.
pub const EVALUATOR: &'static str = " \
    pub fn eval_$b(&mut self) -> Result<$t, ferric::SampleError> { \
        if self.var_$b.is_unknown() { \
            if self.busy_$b { return Err(ferric::SampleError::CyclicDependency); } \
            self.busy_$b = true; \
            let dist = self.evaldist_$b()?; \
            self.busy_$b = false; \
            self.var_$b = FeOption::Known(dist.sample(&mut self.rng)); \
        } \
        match self.var_$b { \
            FeOption::Known(value) => Ok(value), \
            _ => Err(ferric::SampleError::UnresolvedAccess), \
        } \
    } \
    pub fn evaldist_$b(&mut self) \
        -> Result<Box<dyn ferric::distributions::Distribution<R, Domain = $t>>, ferric::SampleError> { \
        let dist = $e; \
        match dist { \
            Ok(dist) => Ok(Box::new(dist)), \
            Err(error) => Err(ferric::SampleError::DistributionConstruction(error.to_string())), \
        } \
    }";

/// An import of the model; `$e` is its text.
pub const IMPORT: &'static str = " use $e;";

/// The module. `$m` is the name of the model and `$u` its imports; each other
/// place holds one part for each variable that the part is written for, in
/// the order of the declarations: `$q` the fields of `Sample`, `$o` the fields
/// of `Model`, `$a` the arguments, `$c` the cells, `$d` the evidence, `$p` the
/// parameters, `$i` and `$j` what the cells and the evidence start with, `$r`
/// the resets, `$k` the checks, `$s` the answers, and `$v` the evaluators.
pub const MODULE: &'static str = "\
    #[allow(unused_parens)] \
    pub mod $m {\
        $u \
        use ferric::FeOption; \
        pub struct Sample {$q } \
        pub struct Model {$o } \
        impl Model { \
            pub fn sample_iter(&self) -> World<rand::rngs::ThreadRng> { \
                World::new(rand::thread_rng(),$a) \
            } \
        } \
        pub struct World<R> { rng: R, max_attempts: u64,$c$d } \
        impl<R: rand::Rng> Iterator for World<R> { \
            type Item = Result<Sample, ferric::SampleError>; \
            fn next(&mut self) -> Option<Self::Item> { Some(self.sample()) } \
        } \
        impl<R: rand::Rng> World<R> { \
            pub fn new(rng: R,$p) -> World<R> { \
                World { rng: rng, max_attempts: u64::MAX,$i$j } \
            } \
            pub fn with_max_attempts(mut self, max_attempts: u64) -> World<R> { \
                self.max_attempts = max_attempts; \
                self \
            } \
            pub fn reset(&mut self) {$r } \
            pub fn sample(&mut self) -> Result<Sample, ferric::SampleError> { \
                let mut attempts: u64 = 0; \
                while attempts < self.max_attempts { \
                    attempts += 1; \
                    self.reset();\
                    $k \
                    return Ok(Sample {$s }); \
                } \
                Err(ferric::SampleError::EvidenceUnreachable) \
            }\
            $v \
        } \
    }";

/// The template of a part.
pub open spec fn part_template(part: Part) -> Seq<char> {
    match part {
        Part::Field => FIELD@,
        Part::Argument => ARGUMENT@,
        Part::Cell => CELL@,
        Part::Evidence => EVIDENCE@,
        Part::Parameter => PARAMETER@,
        Part::CellInit => CELL_INIT@,
        Part::EvidenceInit => EVIDENCE_INIT@,
        Part::Reset => RESET@,
        Part::Check => CHECK@,
        Part::Answer => ANSWER@,
        Part::Evaluator => EVALUATOR@,
    }
}

fn template_of(part: Part) -> (template: &'static str)
    ensures
        template@ == part_template(part),
{
    match part {
        Part::Field => FIELD,
        Part::Argument => ARGUMENT,
        Part::Cell => CELL,
        Part::Evidence => EVIDENCE,
        Part::Parameter => PARAMETER,
        Part::CellInit => CELL_INIT,
        Part::EvidenceInit => EVIDENCE_INIT,
        Part::Reset => RESET,
        Part::Check => CHECK,
        Part::Answer => ANSWER,
        Part::Evaluator => EVALUATOR,
    }
}

/// Whether a part written for `which` is written for the variable `v`.
pub open spec fn selected(v: VariableIRView, which: Which) -> bool {
    match which {
        Which::All => true,
        Which::Queried => v.is_queried,
        Which::Observed => v.is_observed,
    }
}

/// What the places in the template of a part stand for, where the part is
/// written for the variable `v` of a model with the variables `all`.
pub open spec fn variable_bindings(v: VariableIRView, all: Seq<VariableIRView>) -> Seq<
    (char, Seq<char>),
> {
    seq![
        ('n', v.var_ident.name),
        ('b', bare_name(v.var_ident.name)),
        ('t', v.type_ident.name),
        ('e', render_tokens(replace_tokens(v.dependency, all))),
    ]
}

/// The text of one part for the variable `v` of a model with the variables `all`.
pub open spec fn part_text(v: VariableIRView, all: Seq<VariableIRView>, part: Part) -> Seq<char> {
    expand(part_template(part), variable_bindings(v, all))
}

/// The text of one part for each selected variable among `vars`, in the order
/// of their declarations.
pub open spec fn section_text(
    vars: Seq<VariableIRView>,
    all: Seq<VariableIRView>,
    which: Which,
    part: Part,
) -> Seq<char>
    decreases vars.len(),
{
    if vars.len() == 0 {
        Seq::empty()
    } else if selected(vars.last(), which) {
        section_text(vars.drop_last(), all, which, part) + part_text(vars.last(), all, part)
    } else {
        section_text(vars.drop_last(), all, which, part)
    }
}

/// The imports of the module: one `use` item for each import of the model, in
/// order.
pub open spec fn imports_text(uses: Seq<Seq<TokenView>>) -> Seq<char>
    decreases uses.len(),
{
    if uses.len() == 0 {
        Seq::empty()
    } else {
        imports_text(uses.drop_last()) + expand(IMPORT@, seq![('e', render_tokens(uses.last()))])
    }
}

/// What the places in the template of the module stand for.
pub open spec fn module_bindings(ir: ModelIRView) -> Seq<(char, Seq<char>)> {
    let vars = ir.variables;
    seq![
        ('m', ir.model_ident.name),
        ('u', imports_text(ir.use_exprs)),
        ('q', section_text(vars, vars, Which::Queried, Part::Field)),
        ('o', section_text(vars, vars, Which::Observed, Part::Field)),
        ('a', section_text(vars, vars, Which::Observed, Part::Argument)),
        ('c', section_text(vars, vars, Which::All, Part::Cell)),
        ('d', section_text(vars, vars, Which::Observed, Part::Evidence)),
        ('p', section_text(vars, vars, Which::Observed, Part::Parameter)),
        ('i', section_text(vars, vars, Which::All, Part::CellInit)),
        ('j', section_text(vars, vars, Which::Observed, Part::EvidenceInit)),
        ('r', section_text(vars, vars, Which::All, Part::Reset)),
        ('k', section_text(vars, vars, Which::Observed, Part::Check)),
        ('s', section_text(vars, vars, Which::Queried, Part::Answer)),
        ('v', section_text(vars, vars, Which::All, Part::Evaluator)),
    ]
}

/// The source of the module that the model `ir` compiles to: the template of
/// the module, filled in for the model.
///
/// The module has the model's name. It holds the model's imports; `Sample`,
/// with one public field for each queried variable; `Model`, with one public
/// field for each observed variable; and `World`, the sampler: one memo cell
/// for each variable, the evidence, a constructor that takes the random source
/// and one value for each observed variable, `reset`, `sample`, and for each
/// variable its evaluator `eval_name` and the function `evaldist_name` that
/// holds its rewritten dependency expression. Every list is in the order of
/// the declarations. A rewritten reference stands in parentheses, which the
/// module allows where they are not needed.
///
/// `sample` runs trials until one agrees with the evidence, at most
/// `max_attempts` of them, which `with_max_attempts` sets; it is an error
/// value, not a failure of the program, where the evidence is not reached,
/// where a distribution cannot be constructed, and where a variable needs its
/// own value.
pub open spec fn module_text(ir: ModelIRView) -> Seq<char> {
    expand(MODULE@, module_bindings(ir))
}

fn bind_variable(v: &VariableIR, all: &Vec<VariableIR>) -> (bound: Vec<(char, String)>)
    ensures
        bindings_view(bound@) == variable_bindings(v@, variables_view(all@)),
{
    let rewritten = replace(&v.dependency, all);
    let mut bound: Vec<(char, String)> = Vec::new();
    bound.push(('n', v.var_ident.name.clone()));
    bound.push(('b', String::from_str(strip_raw(v.var_ident.name.as_str()))));
    bound.push(('t', v.type_ident.name.clone()));
    bound.push(('e', render(&rewritten)));
    assert(bindings_view(bound@) =~= variable_bindings(v@, variables_view(all@)));
    bound
}

fn bind_variables(all: &Vec<VariableIR>) -> (bound: Vec<Vec<(char, String)>>)
    ensures
        bound.len() == all.len(),
        forall|i: int|
            0 <= i < all.len() ==> bindings_view(#[trigger] bound[i]@) == variable_bindings(
                all[i]@,
                variables_view(all@),
            ),
{
    let mut bound: Vec<Vec<(char, String)>> = Vec::new();
    let mut i: usize = 0;
    while i < all.len()
        invariant
            i <= all.len(),
            bound.len() == i,
            forall|j: int|
                0 <= j < i ==> bindings_view(#[trigger] bound[j]@) == variable_bindings(
                    all[j]@,
                    variables_view(all@),
                ),
        decreases all.len() - i,
    {
        bound.push(bind_variable(&all[i], all));
        i += 1;
    }
    bound
}

fn section(all: &Vec<VariableIR>, bound: &Vec<Vec<(char, String)>>, which: Which, part: Part) -> (text:
    String)
    requires
        bound.len() == all.len(),
        forall|i: int|
            0 <= i < all.len() ==> bindings_view(#[trigger] bound[i]@) == variable_bindings(
                all[i]@,
                variables_view(all@),
            ),
    ensures
        text@ == section_text(variables_view(all@), variables_view(all@), which, part),
{
    let ghost vars = variables_view(all@);
    let mut text = String::new();
    let mut i: usize = 0;
    assert(vars.take(0) =~= Seq::empty());
    while i < all.len()
        invariant
            i <= all.len(),
            bound.len() == all.len(),
            vars == variables_view(all@),
            forall|j: int|
                0 <= j < all.len() ==> bindings_view(#[trigger] bound[j]@) == variable_bindings(
                    all[j]@,
                    vars,
                ),
            text@ == section_text(vars.take(i as int), vars, which, part),
        decreases all.len() - i,
    {
        assert(vars.take(i + 1).drop_last() =~= vars.take(i as int));
        let v = &all[i];
        let chosen = match which {
            Which::All => true,
            Which::Queried => v.is_queried,
            Which::Observed => v.is_observed,
        };
        if chosen {
            expand_into(&mut text, template_of(part), &bound[i]);
        }
        i += 1;
    }
    assert(vars.take(all.len() as int) =~= vars);
    text
}

fn imports(uses: &Vec<Vec<Token>>) -> (text: String)
    ensures
        text@ == imports_text(streams_view(uses@)),
{
    let ghost all = streams_view(uses@);
    let mut text = String::new();
    let mut i: usize = 0;
    assert(all.take(0) =~= Seq::empty());
    while i < uses.len()
        invariant
            i <= uses.len(),
            all == streams_view(uses@),
            text@ == imports_text(all.take(i as int)),
        decreases uses.len() - i,
    {
        assert(all.take(i + 1).drop_last() =~= all.take(i as int));
        let mut bound: Vec<(char, String)> = Vec::new();
        bound.push(('e', render(&uses[i])));
        assert(bindings_view(bound@) =~= seq![('e', render_tokens(all[i as int]))]);
        expand_into(&mut text, IMPORT, &bound);
        i += 1;
    }
    assert(all.take(uses.len() as int) =~= all);
    text
}

/// Generates the source of the sampler for the model `ir`.
pub fn codegen(ir: ModelIR) -> (source: String)
    ensures
        source@ == module_text(ir@),
{
    let vars = &ir.variables;
    let bound = bind_variables(vars);
    let mut filled: Vec<(char, String)> = Vec::new();
    filled.push(('m', ir.model_ident.name.clone()));
    filled.push(('u', imports(&ir.use_exprs)));
    filled.push(('q', section(vars, &bound, Which::Queried, Part::Field)));
    filled.push(('o', section(vars, &bound, Which::Observed, Part::Field)));
    filled.push(('a', section(vars, &bound, Which::Observed, Part::Argument)));
    filled.push(('c', section(vars, &bound, Which::All, Part::Cell)));
    filled.push(('d', section(vars, &bound, Which::Observed, Part::Evidence)));
    filled.push(('p', section(vars, &bound, Which::Observed, Part::Parameter)));
    filled.push(('i', section(vars, &bound, Which::All, Part::CellInit)));
    filled.push(('j', section(vars, &bound, Which::Observed, Part::EvidenceInit)));
    filled.push(('r', section(vars, &bound, Which::All, Part::Reset)));
    filled.push(('k', section(vars, &bound, Which::Observed, Part::Check)));
    filled.push(('s', section(vars, &bound, Which::Queried, Part::Answer)));
    filled.push(('v', section(vars, &bound, Which::All, Part::Evaluator)));
    assert(bindings_view(filled@) =~= module_bindings(ir@));
    let mut source = String::new();
    expand_into(&mut source, MODULE, &filled);
    assert(source@ =~= module_text(ir@));
    source
}

/// The places, among the declarations, of the variables that a part written
/// for `which` is written for, in the order of the declarations.
pub open spec fn selected_positions(vars: Seq<VariableIRView>, which: Which) -> Seq<int>
    decreases vars.len(),
{
    if vars.len() == 0 {
        Seq::empty()
    } else {
        let before = selected_positions(vars.drop_last(), which);
        if selected(vars.last(), which) {
            before.push(vars.len() - 1)
        } else {
            before
        }
    }
}

/// The text of one part for each of the variables at `positions`, in the
/// order of `positions`.
pub open spec fn parts_at(positions: Seq<int>, all: Seq<VariableIRView>, part: Part) -> Seq<char>
    decreases positions.len(),
{
    if positions.len() == 0 {
        Seq::empty()
    } else {
        parts_at(positions.drop_last(), all, part) + part_text(all[positions.last()], all, part)
    }
}

/// The selected places are places of selected variables, they rise, and no
/// selected variable is left out.
pub proof fn lemma_selected_positions(vars: Seq<VariableIRView>, which: Which)
    ensures
        forall|k: int|
            0 <= k < selected_positions(vars, which).len() ==> {
                let p = #[trigger] selected_positions(vars, which)[k];
                0 <= p < vars.len() && selected(vars[p], which)
            },
        forall|a: int, b: int|
            0 <= a < b < selected_positions(vars, which).len() ==> selected_positions(
                vars,
                which,
            )[a] < selected_positions(vars, which)[b],
        forall|i: int|
            0 <= i < vars.len() && selected(#[trigger] vars[i], which) ==> selected_positions(
                vars,
                which,
            ).contains(i),
    decreases vars.len(),
{
    if vars.len() > 0 {
        let shorter = vars.drop_last();
        let before = selected_positions(shorter, which);
        let here = selected_positions(vars, which);
        lemma_selected_positions(shorter, which);
        assert forall|k: int| 0 <= k < here.len() implies {
            let p = #[trigger] here[k];
            0 <= p < vars.len() && selected(vars[p], which)
        } by {
            if k < before.len() {
                let p = before[k];
                assert(shorter[p] == vars[p]);
            }
        }
        assert forall|i: int| 0 <= i < vars.len() && selected(
            #[trigger] vars[i],
            which,
        ) implies here.contains(i) by {
            if i < vars.len() - 1 {
                assert(shorter[i] == vars[i]);
                let k = choose|k: int| 0 <= k < before.len() && before[k] == i;
                assert(here[k] == i);
            } else {
                assert(here[here.len() - 1] == i);
            }
        }
    }
}

/// What a section of the module holds: the part of each selected variable,
/// and of no other, in the order of the declarations.
pub proof fn law_section_lists_selected(
    vars: Seq<VariableIRView>,
    all: Seq<VariableIRView>,
    which: Which,
    part: Part,
)
    requires
        vars.len() <= all.len(),
        forall|i: int| 0 <= i < vars.len() ==> vars[i] == all[i],
    ensures
        section_text(vars, all, which, part) == parts_at(
            selected_positions(vars, which),
            all,
            part,
        ),
    decreases vars.len(),
{
    if vars.len() > 0 {
        let shorter = vars.drop_last();
        law_section_lists_selected(shorter, all, which, part);
        if selected(vars.last(), which) {
            let here = selected_positions(vars, which);
            assert(here.drop_last() =~= selected_positions(shorter, which));
            assert(all[here.last()] == vars.last());
        }
    }
}

/// The places of the variables that `which` selects, in the order of the
/// declarations.
pub fn positions(variables: &Vec<VariableIR>, which: Which) -> (places: Vec<usize>)
    ensures
        places@.map_values(|p: usize| p as int) == selected_positions(
            variables_view(variables@),
            which,
        ),
{
    let ghost vars = variables_view(variables@);
    let mut places: Vec<usize> = Vec::new();
    let mut i: usize = 0;
    assert(vars.take(0) =~= Seq::empty());
    while i < variables.len()
        invariant
            i <= variables.len(),
            vars == variables_view(variables@),
            places@.map_values(|p: usize| p as int) == selected_positions(vars.take(i as int), which),
        decreases variables.len() - i,
    {
        assert(vars.take(i + 1).drop_last() =~= vars.take(i as int));
        let v = &variables[i];
        let chosen = match which {
            Which::All => true,
            Which::Queried => v.is_queried,
            Which::Observed => v.is_observed,
        };
        let ghost before = places@;
        if chosen {
            places.push(i);
            assert(places@.map_values(|p: usize| p as int) =~= before.map_values(
                |p: usize| p as int,
            ).push(i as int));
        }
        i += 1;
    }
    assert(vars.take(variables.len() as int) =~= vars);
    places
}

/// The field that a variable gets in `Sample` or in `Model`: public, with
/// the name and the type of the variable.
pub proof fn law_field_text(v: VariableIRView, all: Seq<VariableIRView>)
    ensures
        part_text(v, all, Part::Field) == " pub "@ + v.var_ident.name + ": "@ + v.type_ident.name
            + ","@,
{
    reveal_strlit(" pub $n: $t,");
    reveal_strlit(" pub ");
    reveal_strlit(": ");
    reveal_strlit(",");
    let bindings = variable_bindings(v, all);
    let rest = ": "@ + seq!['$', 't'] + ","@;
    assert(FIELD@ =~= " pub "@ + seq!['$', 'n'] + rest);
    law_place_is_filled(" pub "@, 'n', rest, bindings);
    law_place_is_filled(": "@, 't', ","@, bindings);
    law_plain_text_stands(","@, bindings);
    assert(filling(bindings, 'n') == v.var_ident.name);
    assert(bindings.drop_first().drop_first().first() == bindings[2]);
    assert(filling(bindings.drop_first().drop_first(), 't') == v.type_ident.name);
    assert(filling(bindings.drop_first(), 't') == v.type_ident.name);
    assert(filling(bindings, 't') == v.type_ident.name);
    assert(" pub "@ + v.var_ident.name + (": "@ + v.type_ident.name + ","@) =~= " pub "@
        + v.var_ident.name + ": "@ + v.type_ident.name + ","@);
}

} // verus!
