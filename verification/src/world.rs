//! The sampler at run time: one memo cell for each variable, the evidence, and
//! rejection sampling over both.
//!
//! A variable's value is drawn by a [`Source`], which the caller provides. The
//! source is asked for one variable at a time and sees the cells: it builds the
//! variable's distribution from the values that its dependency expression
//! reads and draws from it, or it names a variable that it needs first.

use crate::analyze::{variables_view, ModelIR};
use crate::codegen::{lemma_selected_positions, positions, selected_positions, Which};
use crate::distributions::Distribution;
use crate::feoption::FeOption;
use vstd::prelude::*;

verus! {

/// A value of a random variable.
#[derive(Clone, Copy, Debug, PartialEq, Eq, Structural)]
pub enum Value {
    Bool(bool),
    Count(u64),
}

/// Why no sample was produced.
#[derive(Debug, PartialEq, Eq)]
pub enum SampleError {
    /// Every trial that the limit allows was rejected by the evidence.
    EvidenceUnreachable,
    /// A distribution could not be constructed from its parameters.
    DistributionConstruction(String),
    /// A cell was asked for that holds no value and cannot get one.
    UnresolvedAccess,
    /// A variable needs its own value before it can be drawn.
    CyclicDependency,
}

/// The mathematical value of a [`SampleError`].
pub enum SampleErrorView {
    EvidenceUnreachable,
    DistributionConstruction(Seq<char>),
    UnresolvedAccess,
    CyclicDependency,
}

impl View for SampleError {
    type V = SampleErrorView;

    open spec fn view(&self) -> SampleErrorView {
        match *self {
            SampleError::EvidenceUnreachable => SampleErrorView::EvidenceUnreachable,
            SampleError::DistributionConstruction(message) => SampleErrorView::DistributionConstruction(
                message@,
            ),
            SampleError::UnresolvedAccess => SampleErrorView::UnresolvedAccess,
            SampleError::CyclicDependency => SampleErrorView::CyclicDependency,
        }
    }
}

/// What a source answers when it is asked to draw a variable.
#[derive(Debug, PartialEq, Eq)]
pub enum Draw {
    /// The value drawn from the variable's distribution.
    Value(Value),
    /// The variable whose value the dependency expression reads and the
    /// cells do not hold yet.
    Needs(usize),
    /// The distribution could not be constructed; the message says why.
    Failed(String),
}

/// The mathematical value of a [`Draw`].
pub enum DrawView {
    Value(Value),
    Needs(usize),
    Failed(Seq<char>),
}

impl View for Draw {
    type V = DrawView;

    open spec fn view(&self) -> DrawView {
        match *self {
            Draw::Value(v) => DrawView::Value(v),
            Draw::Needs(j) => DrawView::Needs(j),
            Draw::Failed(message) => DrawView::Failed(message@),
        }
    }
}

/// The distributions of a model together with their random source.
pub trait Source {
    /// Draws the variable `variable`, which the cells do not hold yet: evaluates
    /// its dependency expression over the cells, constructs the distribution
    /// and draws from it. An expression that reads a variable whose cell is
    /// `Unknown` draws nothing and names that variable.
    fn draw(&mut self, variable: usize, cells: &Vec<FeOption<Value>>) -> Draw;
}

/// The answer of a source for a variable with truth values: a draw from the
/// distribution that was constructed for it, or the failure to construct one.
/// Nothing is drawn where there is no distribution.
pub fn draw_bool<R, D: Distribution<R, Domain = bool>>(
    constructed: Result<D, String>,
    rng: &mut R,
) -> (answer: Draw)
    ensures
        match constructed {
            Ok(_) => answer matches Draw::Value(Value::Bool(_)),
            Err(message) => answer@ == DrawView::Failed(message@) && *final(rng) == *old(rng),
        },
{
    match constructed {
        Ok(distribution) => Draw::Value(Value::Bool(distribution.sample(rng))),
        Err(message) => Draw::Failed(message),
    }
}

/// The answer of a source for a variable that counts: a draw from the
/// distribution that was constructed for it, or the failure to construct one.
/// Nothing is drawn where there is no distribution.
pub fn draw_count<R, D: Distribution<R, Domain = u64>>(
    constructed: Result<D, String>,
    rng: &mut R,
) -> (answer: Draw)
    ensures
        match constructed {
            Ok(_) => answer matches Draw::Value(Value::Count(_)),
            Err(message) => answer@ == DrawView::Failed(message@) && *final(rng) == *old(rng),
        },
{
    match constructed {
        Ok(distribution) => Draw::Value(Value::Count(distribution.sample(rng))),
        Err(message) => Draw::Failed(message),
    }
}

/// Whether variable `i` can still be asked for: its cell holds no value and
/// no evaluation of it is under way.
pub open spec fn is_free(cells: Seq<FeOption<Value>>, stack: Seq<usize>, i: int) -> bool {
    0 <= i < cells.len() && cells[i] is Unknown && !stack.contains(i as usize)
}

/// How many of the first `n` variables can still be asked for.
pub open spec fn free_count(cells: Seq<FeOption<Value>>, stack: Seq<usize>, n: int) -> nat
    decreases n,
{
    if n <= 0 {
        0
    } else {
        free_count(cells, stack, n - 1) + if is_free(cells, stack, n - 1) {
            1nat
        } else {
            0nat
        }
    }
}

proof fn lemma_count_same(
    c1: Seq<FeOption<Value>>,
    s1: Seq<usize>,
    c2: Seq<FeOption<Value>>,
    s2: Seq<usize>,
    n: int,
)
    requires
        forall|i: int| 0 <= i < n ==> is_free(c1, s1, i) == is_free(c2, s2, i),
    ensures
        free_count(c1, s1, n) == free_count(c2, s2, n),
    decreases n,
{
    if n > 0 {
        lemma_count_same(c1, s1, c2, s2, n - 1);
    }
}

proof fn lemma_count_drop(
    c1: Seq<FeOption<Value>>,
    s1: Seq<usize>,
    c2: Seq<FeOption<Value>>,
    s2: Seq<usize>,
    n: int,
    j: int,
)
    requires
        0 <= j < n,
        is_free(c1, s1, j),
        !is_free(c2, s2, j),
        forall|i: int| 0 <= i < n && i != j ==> is_free(c1, s1, i) == is_free(c2, s2, i),
    ensures
        free_count(c2, s2, n) + 1 == free_count(c1, s1, n),
    decreases n,
{
    if n - 1 == j {
        lemma_count_same(c1, s1, c2, s2, n - 1);
    } else {
        lemma_count_drop(c1, s1, c2, s2, n - 1, j);
    }
}

/// The cells and the evaluations under way after the source has answered for
/// the variable on top of the stack.
///
/// A value settles the variable: its cell holds the value and its evaluation
/// is over. A variable that is needed first, has no value yet and is not
/// being evaluated is evaluated next. One that is being evaluated already
/// closes a cycle; one that does not exist, or whose cell holds a value the
/// source failed to see, cannot be provided. A failure of the source is the
/// failure of the whole evaluation. Where no evaluation is under way, or the
/// variable on top of the stack does not exist, there is no cell to settle.
pub open spec fn settled(cells: Seq<FeOption<Value>>, stack: Seq<usize>, outcome: DrawView) -> Result<
    (Seq<FeOption<Value>>, Seq<usize>),
    SampleErrorView,
> {
    if stack.len() == 0 || stack.last() >= cells.len() {
        Err(SampleErrorView::UnresolvedAccess)
    } else {
        match outcome {
            DrawView::Value(v) => Ok(
                (cells.update(stack.last() as int, FeOption::Known(v)), stack.drop_last()),
            ),
            DrawView::Needs(j) => if j < cells.len() && cells[j as int] is Unknown {
                if stack.contains(j) {
                    Err(SampleErrorView::CyclicDependency)
                } else {
                    Ok((cells, stack.push(j)))
                }
            } else {
                Err(SampleErrorView::UnresolvedAccess)
            },
            DrawView::Failed(message) => Err(SampleErrorView::DistributionConstruction(message)),
        }
    }
}

/// Whether the evaluations under way are in order: each is of a variable
/// that exists and whose cell is `Unknown`, and none is of a variable that
/// another is of.
pub open spec fn under_way(cells: Seq<FeOption<Value>>, stack: Seq<usize>) -> bool {
    &&& forall|k: int|
        0 <= k < stack.len() ==> (#[trigger] stack[k]) < cells.len() && cells[stack[k] as int] is Unknown
    &&& forall|a: int, b: int| 0 <= a < b < stack.len() ==> #[trigger] stack[a] != #[trigger] stack[b]
}

/// What is drawn stays drawn: a step of an evaluation changes no cell that
/// holds a value, and a value that the source gives is the value that the
/// cell of the variable holds from then on.
pub proof fn law_drawn_once(cells: Seq<FeOption<Value>>, stack: Seq<usize>, outcome: DrawView)
    requires
        under_way(cells, stack),
        stack.len() > 0,
    ensures
        settled(cells, stack, outcome) matches Ok((after, _)) ==> {
            &&& after.len() == cells.len()
            &&& forall|i: int|
                0 <= i < cells.len() && (#[trigger] cells[i]) is Known ==> after[i] == cells[i]
            &&& outcome matches DrawView::Value(v) ==> after[stack.last() as int]
                == FeOption::Known(v)
        },
{
    assert(stack[stack.len() - 1] == stack.last());
}

/// An evaluation comes to an end: a step that succeeds leaves the
/// evaluations under way in order, and it either settles the variable on top
/// of the stack, which leaves the stack shorter and as many variables free as
/// before, or starts on a free variable, which leaves one fewer free.
pub proof fn law_step_advances(cells: Seq<FeOption<Value>>, stack: Seq<usize>, outcome: DrawView)
    requires
        under_way(cells, stack),
        stack.len() > 0,
        cells.len() <= usize::MAX,
    ensures
        settled(cells, stack, outcome) matches Ok((after, rest)) ==> {
            &&& under_way(after, rest)
            &&& (rest.len() > 0 ==> rest[0] == stack[0])
            &&& (rest.len() == 0 ==> after[stack[0] as int] is Known)
            &&& (rest.len() < stack.len() && free_count(after, rest, cells.len() as int)
                == free_count(cells, stack, cells.len() as int) || free_count(
                after,
                rest,
                cells.len() as int,
            ) < free_count(cells, stack, cells.len() as int))
        },
{
    let n = cells.len() as int;
    let top = stack.last();
    assert(stack[stack.len() - 1] == top);
    if let Ok((after, rest)) = settled(cells, stack, outcome) {
        if rest.len() < stack.len() {
            assert forall|i: int| 0 <= i < n implies is_free(cells, stack, i) == is_free(
                after,
                rest,
                i,
            ) by {
                if i != top && stack.contains(i as usize) {
                    let k = choose|k: int| 0 <= k < stack.len() && stack[k] == i as usize;
                    assert(rest[k] == i as usize);
                }
            }
            lemma_count_same(cells, stack, after, rest, n);
        } else {
            let j = rest.last();
            assert(rest[rest.len() - 1] == j);
            assert forall|i: int| 0 <= i < n && i != j implies is_free(cells, stack, i) == is_free(
                after,
                rest,
                i,
            ) by {
                if rest.contains(i as usize) {
                    let k = choose|k: int| 0 <= k < rest.len() && rest[k] == i as usize;
                    assert(stack[k] == i as usize);
                }
                if stack.contains(i as usize) {
                    let k = choose|k: int| 0 <= k < stack.len() && stack[k] == i as usize;
                    assert(rest[k] == i as usize);
                }
            }
            lemma_count_drop(cells, stack, after, rest, n, j as int);
        }
    }
}

fn on_stack(stack: &Vec<usize>, j: usize) -> (found: bool)
    ensures
        found == stack@.contains(j),
{
    let mut i: usize = 0;
    while i < stack.len()
        invariant
            i <= stack.len(),
            forall|k: int| 0 <= k < i ==> stack[k] != j,
        decreases stack.len() - i,
    {
        if stack[i] == j {
            return true;
        }
        i += 1;
    }
    false
}

/// Takes the answer of the source for the variable on top of `stack` into
/// the cells and the stack.
pub fn settle(cells: &mut Vec<FeOption<Value>>, stack: &mut Vec<usize>, outcome: Draw) -> (done:
    Result<(), SampleError>)
    ensures
        match settled(old(cells)@, old(stack)@, outcome@) {
            Ok((c, s)) => done is Ok && final(cells)@ == c && final(stack)@ == s,
            Err(e) => done matches Err(x) && x@ == e && final(cells)@ == old(cells)@
                && final(stack)@ == old(stack)@,
        },
{
    if stack.len() == 0 || stack[stack.len() - 1] >= cells.len() {
        return Err(SampleError::UnresolvedAccess);
    }
    match outcome {
        Draw::Value(v) => {
            let top = stack[stack.len() - 1];
            cells[top] = FeOption::Known(v);
            stack.pop();
            Ok(())
        },
        Draw::Needs(j) => {
            if j < cells.len() && cells[j].is_unknown() {
                if on_stack(stack, j) {
                    Err(SampleError::CyclicDependency)
                } else {
                    stack.push(j);
                    Ok(())
                }
            } else {
                Err(SampleError::UnresolvedAccess)
            }
        },
        Draw::Failed(message) => Err(SampleError::DistributionConstruction(message)),
    }
}

/// Whether the log `later` holds all of the log `earlier`, and then perhaps
/// more.
pub open spec fn extends(later: Seq<usize>, earlier: Seq<usize>) -> bool {
    &&& earlier.len() <= later.len()
    &&& later.subrange(0, earlier.len() as int) =~= earlier
}

proof fn lemma_extends(a: Seq<usize>, b: Seq<usize>, c: Seq<usize>)
    requires
        extends(a, b),
        extends(b, c),
    ensures
        extends(a, c),
        c.len() < b.len() ==> a[c.len() as int] == b[c.len() as int],
{
    assert forall|i: int| 0 <= i < b.len() implies a[i] == b[i] by {
        assert(a.subrange(0, b.len() as int)[i] == b[i]);
    }
    assert forall|i: int| 0 <= i < c.len() implies a[i] == c[i] by {
        assert(b.subrange(0, c.len() as int)[i] == c[i]);
    }
    assert(a.subrange(0, c.len() as int) =~= c);
}

/// What the value of an observed variable means for a trial.
#[derive(Debug, PartialEq, Eq)]
pub enum Verdict {
    /// The value is the evidence: the trial goes on.
    Agrees,
    /// The value is not the evidence: the trial is rejected.
    Rejects,
    /// There is no value: the evaluator failed, and the trial with it.
    Fails(SampleError),
}

/// Holds what the evaluator of an observed variable gave against the
/// evidence for that variable.
pub fn judge(outcome: Result<Value, SampleError>, evidence: Value) -> (verdict: Verdict)
    ensures
        match outcome {
            Ok(value) => verdict == if value == evidence {
                Verdict::Agrees
            } else {
                Verdict::Rejects
            },
            Err(e) => verdict == Verdict::Fails(e),
        },
{
    match outcome {
        Ok(value) => if value == evidence {
            Verdict::Agrees
        } else {
            Verdict::Rejects
        },
        Err(e) => Verdict::Fails(e),
    }
}

/// What follows a trial, the `attempts`-th of at most `max_attempts`: the
/// sample of an accepted trial and the error of a failed one end the
/// sampling; after a rejected trial the next one follows, unless it was the
/// last that is allowed, and then the evidence counts as unreachable.
/// Nothing stands for "the next trial follows".
pub fn after_trial(
    attempts: u64,
    max_attempts: u64,
    outcome: Result<Option<Sample>, SampleError>,
) -> (next: Option<Result<Sample, SampleError>>)
    ensures
        match outcome {
            Ok(Some(sample)) => next == Some(Ok::<Sample, SampleError>(sample)),
            Ok(None) => next == if attempts < max_attempts {
                None::<Result<Sample, SampleError>>
            } else {
                Some(Err::<Sample, SampleError>(SampleError::EvidenceUnreachable))
            },
            Err(e) => next == Some(Err::<Sample, SampleError>(e)),
        },
{
    match outcome {
        Ok(Some(sample)) => Some(Ok(sample)),
        Ok(None) => if attempts < max_attempts {
            None
        } else {
            Some(Err(SampleError::EvidenceUnreachable))
        },
        Err(e) => Some(Err(e)),
    }
}

/// One accepted trial: the value of each queried variable, in the order of
/// the declarations.
#[derive(Debug, PartialEq, Eq)]
pub struct Sample {
    pub values: Vec<Value>,
}

/// One sampling session: a source, the evidence, and one memo cell for each
/// declared variable.
pub struct World<S> {
    source: S,
    cells: Vec<FeOption<Value>>,
    observed: Vec<usize>,
    evidence: Vec<Value>,
    queried: Vec<usize>,
    max_attempts: u64,
    trials: Ghost<nat>,
    stamps: Ghost<Seq<nat>>,
    asked: Ghost<Seq<usize>>,
    replies: Ghost<Seq<DrawView>>,
}

fn all_below(indices: &Vec<usize>, bound: usize) -> (ok: bool)
    ensures
        ok == forall|k: int| 0 <= k < indices.len() ==> indices[k] < bound,
{
    let mut k: usize = 0;
    while k < indices.len()
        invariant
            k <= indices.len(),
            forall|i: int| 0 <= i < k ==> indices[i] < bound,
        decreases indices.len() - k,
    {
        if indices[k] >= bound {
            return false;
        }
        k += 1;
    }
    true
}

impl<S: Source> World<S> {
    /// The memo cells, one for each variable.
    pub closed spec fn cells(&self) -> Seq<FeOption<Value>> {
        self.cells@
    }

    /// The observed variables.
    pub closed spec fn observed(&self) -> Seq<usize> {
        self.observed@
    }

    /// The evidence: the fixed value of each observed variable.
    pub closed spec fn evidence(&self) -> Seq<Value> {
        self.evidence@
    }

    /// The queried variables.
    pub closed spec fn queried(&self) -> Seq<usize> {
        self.queried@
    }

    /// The number of trials that one call of `sample` may make.
    pub closed spec fn max_attempts(&self) -> u64 {
        self.max_attempts
    }

    /// The source of the draws.
    pub closed spec fn source(&self) -> S {
        self.source
    }

    /// How many trials the session has started.
    pub closed spec fn trials(&self) -> nat {
        self.trials@
    }

    /// For each variable, the trial in which its cell was last given a value.
    pub closed spec fn stamps(&self) -> Seq<nat> {
        self.stamps@
    }

    /// The variables that the source was asked to draw, in the order in
    /// which it was asked, from the start of the session on.
    pub closed spec fn asked(&self) -> Seq<usize> {
        self.asked@
    }

    /// What the source answered, question by question.
    pub closed spec fn replies(&self) -> Seq<DrawView> {
        self.replies@
    }

    /// Whether the error `e` is what the last answer of the source leads to:
    /// a distribution that could not be constructed, with the source's own
    /// message, or a variable that the source needs and cannot have.
    pub open spec fn blames(&self, e: SampleErrorView) -> bool {
        &&& self.replies().len() > 0
        &&& match e {
            SampleErrorView::DistributionConstruction(message) => self.replies().last()
                == DrawView::Failed(message),
            SampleErrorView::CyclicDependency => self.replies().last() is Needs,
            SampleErrorView::UnresolvedAccess => self.replies().last() is Needs,
            SampleErrorView::EvidenceUnreachable => false,
        }
    }

    /// Whether every cell that holds a value was given it in the trial that
    /// is under way.
    pub open spec fn settled_in_this_trial(&self) -> bool {
        &&& self.stamps().len() == self.cells().len()
        &&& forall|i: int|
            0 <= i < self.cells().len() && (#[trigger] self.cells()[i]) is Known
                ==> self.stamps()[i] == self.trials()
    }

    /// Whether the source was asked in `self` for all that it was asked for
    /// in `earlier`, and then perhaps for more.
    pub open spec fn asked_since(&self, earlier: &Self) -> bool {
        extends(self.asked(), earlier.asked())
    }

    /// Whether the first variable that the source was asked for after
    /// `earlier` is `variable`.
    pub open spec fn asked_first(&self, earlier: &Self, variable: usize) -> bool {
        &&& earlier.asked().len() < self.asked().len()
        &&& self.asked()[earlier.asked().len() as int] == variable
    }

    /// Whether the session is in order: each observed variable has its
    /// evidence, the observed and the queried variables exist, no cell is
    /// `Null`, and every cell that holds a value was given it in the trial
    /// that is under way.
    pub open spec fn wf(&self) -> bool {
        &&& self.settled_in_this_trial()
        &&& self.replies().len() == self.asked().len()
        &&& self.observed().len() == self.evidence().len()
        &&& forall|k: int|
            0 <= k < self.observed().len() ==> #[trigger] self.observed()[k] < self.cells().len()
        &&& forall|k: int|
            0 <= k < self.queried().len() ==> #[trigger] self.queried()[k] < self.cells().len()
        &&& forall|i: int| 0 <= i < self.cells().len() ==> !(#[trigger] self.cells()[i] is Null)
    }

    /// Whether two states belong to one session: all but the cells and the
    /// source is the same, and there are as many cells.
    pub open spec fn same_session(&self, other: &Self) -> bool {
        &&& self.cells().len() == other.cells().len()
        &&& self.observed() == other.observed()
        &&& self.evidence() == other.evidence()
        &&& self.queried() == other.queried()
        &&& self.max_attempts() == other.max_attempts()
    }

    /// Whether every cell that holds a value in `earlier` holds the same
    /// value in `self`: what a trial has drawn, it keeps.
    pub open spec fn keeps(&self, earlier: &Self) -> bool {
        forall|i: int|
            0 <= i < earlier.cells().len() && (#[trigger] earlier.cells()[i]) is Known
                ==> self.cells()[i] == earlier.cells()[i]
    }

    /// Whether the cells agree with the evidence on the first `limit`
    /// observed variables.
    pub open spec fn agrees(&self, limit: int) -> bool {
        forall|k: int|
            0 <= k < limit && k < self.observed().len() ==> self.cells()[(
            #[trigger] self.observed()[k]) as int] == FeOption::Known(self.evidence()[k])
    }

    /// Whether the cells hold, for one of the observed variables, a value that
    /// is not its evidence.
    pub open spec fn disagrees(&self) -> bool {
        exists|k: int|
            0 <= k < self.observed().len() && (self.cells()[(
            #[trigger] self.observed()[k]) as int] matches FeOption::Known(v) && v
                != self.evidence()[k])
    }

    /// Whether `values` are the values that the cells hold for the first
    /// queried variables, one for one.
    pub open spec fn answers(&self, values: Seq<Value>) -> bool {
        &&& values.len() <= self.queried().len()
        &&& forall|k: int|
            0 <= k < values.len() ==> self.cells()[(#[trigger] self.queried()[k]) as int]
                == FeOption::Known(values[k])
    }

    /// A session over `variables` variables, with every cell `Unknown`.
    /// `observed` and `queried` name variables by their place among the
    /// declarations; `evidence` holds one value for each observed variable.
    /// There is no session where a value is missing or a place does not exist.
    pub fn new(
        source: S,
        variables: usize,
        observed: Vec<usize>,
        evidence: Vec<Value>,
        queried: Vec<usize>,
        max_attempts: u64,
    ) -> (world: Option<Self>)
        ensures
            world is Some <==> (observed.len() == evidence.len() && (forall|k: int|
                0 <= k < observed.len() ==> observed[k] < variables) && (forall|k: int|
                0 <= k < queried.len() ==> queried[k] < variables)),
            world matches Some(w) ==> {
                &&& w.wf()
                &&& w.source() == source
                &&& w.cells().len() == variables
                &&& forall|i: int| 0 <= i < variables ==> w.cells()[i] is Unknown
                &&& w.observed() == observed@
                &&& w.evidence() == evidence@
                &&& w.queried() == queried@
                &&& w.max_attempts() == max_attempts
                &&& w.trials() == 0
                &&& w.asked() == Seq::<usize>::empty()
            },
    {
        if observed.len() != evidence.len() || !all_below(&observed, variables) || !all_below(
            &queried,
            variables,
        ) {
            return None;
        }
        let mut cells: Vec<FeOption<Value>> = Vec::new();
        let mut i: usize = 0;
        while i < variables
            invariant
                i <= variables,
                cells.len() == i,
                forall|j: int| 0 <= j < i ==> cells[j] is Unknown,
            decreases variables - i,
        {
            cells.push(FeOption::Unknown);
            i += 1;
        }
        Some(
            World {
                source,
                cells,
                observed,
                evidence,
                queried,
                max_attempts,
                trials: Ghost(0),
                stamps: Ghost(Seq::new(variables as nat, |i: int| 0nat)),
                asked: Ghost(Seq::empty()),
                replies: Ghost(Seq::empty()),
            },
        )
    }

    /// A session for the model `model`: one cell for each of its variables,
    /// its observed and its queried variables in the order of the
    /// declarations, and `evidence` as the values of the observed ones, one
    /// for one. There is no session where `evidence` holds another number of
    /// values than the model observes variables.
    pub fn for_model(source: S, model: &ModelIR, evidence: Vec<Value>, max_attempts: u64) -> (world:
        Option<Self>)
        ensures
            world is Some <==> evidence.len() == selected_positions(
                model@.variables,
                Which::Observed,
            ).len(),
            world matches Some(w) ==> {
                &&& w.wf()
                &&& w.source() == source
                &&& w.cells().len() == model.variables.len()
                &&& forall|i: int| 0 <= i < w.cells().len() ==> w.cells()[i] is Unknown
                &&& w.observed().map_values(|p: usize| p as int) == selected_positions(
                    model@.variables,
                    Which::Observed,
                )
                &&& w.queried().map_values(|p: usize| p as int) == selected_positions(
                    model@.variables,
                    Which::Queried,
                )
                &&& w.evidence() == evidence@
                &&& w.max_attempts() == max_attempts
                &&& w.trials() == 0
                &&& w.asked() == Seq::<usize>::empty()
            },
    {
        let observed = positions(&model.variables, Which::Observed);
        let queried = positions(&model.variables, Which::Queried);
        proof {
            let vars = variables_view(model.variables@);
            lemma_selected_positions(vars, Which::Observed);
            lemma_selected_positions(vars, Which::Queried);
            let o = observed@.map_values(|p: usize| p as int);
            let q = queried@.map_values(|p: usize| p as int);
            assert forall|k: int| 0 <= k < observed.len() implies observed[k]
                < model.variables.len() by {
                assert(o[k] == observed[k] as int);
            }
            assert forall|k: int| 0 <= k < queried.len() implies queried[k]
                < model.variables.len() by {
                assert(q[k] == queried[k] as int);
            }
            assert(o.len() == observed.len());
        }
        Self::new(source, model.variables.len(), observed, evidence, queried, max_attempts)
    }

    /// The cell of variable `variable`.
    pub fn cell(&self, variable: usize) -> (cell: Option<FeOption<Value>>)
        ensures
            variable < self.cells().len() ==> cell == Some(self.cells()[variable as int]),
            variable >= self.cells().len() ==> cell is None,
    {
        if variable < self.cells.len() {
            Some(self.cells[variable])
        } else {
            None
        }
    }

    /// Ends the session and hands back its source.
    pub fn into_source(self) -> (source: S)
        ensures
            source == self.source(),
    {
        self.source
    }

    /// Starts a trial: every cell is `Unknown` again, and the session has
    /// started one trial more. The source is not asked.
    pub fn reset(&mut self)
        requires
            old(self).wf(),
        ensures
            final(self).wf(),
            final(self).same_session(old(self)),
            final(self).source() == old(self).source(),
            final(self).asked() == old(self).asked(),
            final(self).replies() == old(self).replies(),
            final(self).trials() == old(self).trials() + 1,
            forall|i: int| 0 <= i < final(self).cells().len() ==> final(self).cells()[i] is Unknown,
    {
        let n = self.cells.len();
        let mut i: usize = 0;
        while i < n
            invariant
                i <= n,
                n == self.cells.len(),
                self.same_session(old(self)),
                self.source() == old(self).source(),
                self.asked() == old(self).asked(),
                self.replies() == old(self).replies(),
                self.trials() == old(self).trials(),
                self.stamps() == old(self).stamps(),
                self.stamps().len() == n,
                forall|j: int| 0 <= j < i ==> self.cells()[j] is Unknown,
                forall|j: int| 0 <= j < n ==> !(self.cells()[j] is Null),
            decreases n - i,
        {
            self.cells[i] = FeOption::Unknown;
            i += 1;
        }
        self.trials = Ghost((self.trials@ + 1) as nat);
    }

    /// The evaluator of variable `variable`.
    ///
    /// A cell that holds a value gives that value: nothing is drawn, and the
    /// session, its source included, stays as it was. For a cell that is
    /// `Unknown` the source is asked; the variables it needs first are
    /// evaluated first, each once. Whatever the source answers, no cell that
    /// held a value before holds another after, and on success the cell of
    /// `variable` holds the value returned.
    pub fn eval(&mut self, variable: usize) -> (outcome: Result<Value, SampleError>)
        requires
            old(self).wf(),
        ensures
            final(self).wf(),
            final(self).same_session(old(self)),
            final(self).keeps(old(self)),
            outcome matches Ok(v) ==> variable < final(self).cells().len()
                && final(self).cells()[variable as int] == FeOption::Known(v),
            variable < old(self).cells().len() ==> (old(self).cells()[variable as int] matches FeOption::Known(
                v,
            ) ==> outcome == Ok::<Value, SampleError>(v) && *final(self) == *old(self)),
            variable >= old(self).cells().len() ==> outcome == Err::<Value, SampleError>(
                SampleError::UnresolvedAccess,
            ) && *final(self) == *old(self),
            outcome matches Err(e) ==> !(e is EvidenceUnreachable),
            final(self).trials() == old(self).trials(),
            final(self).asked_since(old(self)),
            variable < old(self).cells().len() && old(self).cells()[variable as int] is Unknown
                ==> final(self).asked_first(old(self), variable),
            variable < old(self).cells().len() ==> (outcome matches Err(e) ==> final(self).blames(
                e@,
            )),
    {
        let n = self.cells.len();
        if variable >= n {
            return Err(SampleError::UnresolvedAccess);
        }
        if let FeOption::Known(v) = self.cells[variable] {
            return Ok(v);
        }
        let mut stack: Vec<usize> = Vec::new();
        stack.push(variable);
        while stack.len() > 0
            invariant
                n == self.cells.len(),
                variable < n,
                self.wf(),
                self.same_session(old(self)),
                self.keeps(old(self)),
                under_way(self.cells(), stack@),
                stack.len() > 0 ==> stack[0] == variable,
                stack.len() == 0 ==> self.cells()[variable as int] is Known,
                self.trials() == old(self).trials(),
                self.asked_since(old(self)),
                self.asked().len() == old(self).asked().len() ==> stack.len() == 1,
                self.asked().len() > old(self).asked().len() ==> self.asked()[old(self).asked().len() as int] == variable,
            decreases free_count(self.cells(), stack@, n as int), stack.len(),
        {
            let top = stack[stack.len() - 1];
            let ghost asked_before = self.asked();
            self.asked = Ghost(self.asked@.push(top));
            assert(self.asked().subrange(0, old(self).asked().len() as int) =~= asked_before.subrange(
                0,
                old(self).asked().len() as int,
            ));
            let answer = self.source.draw(top, &self.cells);
            self.replies = Ghost(self.replies@.push(answer@));
            proof {
                law_drawn_once(self.cells(), stack@, answer@);
                law_step_advances(self.cells(), stack@, answer@);
                assert(self.replies().last() == answer@);
            }
            match settle(&mut self.cells, &mut stack, answer) {
                Err(e) => {
                    return Err(e);
                },
                Ok(()) => {
                    self.stamps = Ghost(
                        if self.cells@[top as int] is Known {
                            self.stamps@.update(top as int, self.trials@)
                        } else {
                            self.stamps@
                        },
                    );
                },
            }
        }
        match self.cells[variable] {
            FeOption::Known(v) => Ok(v),
            _ => Err(SampleError::UnresolvedAccess),
        }
    }

    /// Evaluates the observed variables in the order of their declarations
    /// and says whether each value is its evidence. It stops at the first
    /// that is not. The first variable that the source is asked for is the
    /// first observed one, where its cell holds no value.
    pub fn check_evidence(&mut self) -> (outcome: Result<bool, SampleError>)
        requires
            old(self).wf(),
        ensures
            final(self).wf(),
            final(self).same_session(old(self)),
            final(self).keeps(old(self)),
            final(self).trials() == old(self).trials(),
            final(self).asked_since(old(self)),
            outcome matches Ok(true) ==> final(self).agrees(final(self).observed().len() as int),
            outcome matches Ok(false) ==> final(self).disagrees(),
            outcome matches Err(e) ==> final(self).blames(e@) && old(self).asked().len()
                < final(self).asked().len(),
            old(self).observed().len() == 0 ==> outcome == Ok::<bool, SampleError>(true)
                && *final(self) == *old(self),
            old(self).observed().len() > 0 && old(self).cells()[old(self).observed()[0] as int] is Unknown
                ==> final(self).asked_first(old(self), old(self).observed()[0]),
    {
        let mut k: usize = 0;
        while k < self.observed.len()
            invariant
                k <= self.observed.len(),
                self.wf(),
                self.same_session(old(self)),
                self.keeps(old(self)),
                self.agrees(k as int),
                self.trials() == old(self).trials(),
                self.asked_since(old(self)),
                k == 0 ==> *self == *old(self),
                k > 0 && old(self).cells()[old(self).observed()[0] as int] is Unknown
                    ==> self.asked_first(old(self), old(self).observed()[0]),
            decreases self.observed.len() - k,
        {
            let variable = self.observed[k];
            let expected = self.evidence[k];
            let ghost before = *self;
            let outcome = self.eval(variable);
            proof {
                lemma_extends(self.asked(), before.asked(), old(self).asked());
            }
            match judge(outcome, expected) {
                Verdict::Agrees => {},
                Verdict::Rejects => {
                    assert(self.cells()[self.observed()[k as int] as int] is Known);
                    return Ok(false);
                },
                Verdict::Fails(e) => {
                    return Err(e);
                },
            }
            proof {
                assert forall|i: int| 0 <= i < k + 1 && i < self.observed().len() implies self.cells()[(
                #[trigger] self.observed()[i]) as int] == FeOption::Known(self.evidence()[i]) by {
                    if i < k {
                        assert(before.cells()[before.observed()[i] as int] == FeOption::Known(
                            before.evidence()[i],
                        ));
                    }
                }
            }
            k += 1;
        }
        Ok(true)
    }

    /// Evaluates the queried variables in the order of their declarations and
    /// gathers their values. The first variable that the source is asked for
    /// is the first queried one, where its cell holds no value.
    pub fn collect_answers(&mut self) -> (outcome: Result<Sample, SampleError>)
        requires
            old(self).wf(),
        ensures
            final(self).wf(),
            final(self).same_session(old(self)),
            final(self).keeps(old(self)),
            final(self).trials() == old(self).trials(),
            final(self).asked_since(old(self)),
            outcome matches Ok(sample) ==> sample.values.len() == final(self).queried().len()
                && final(self).answers(sample.values@),
            outcome matches Err(e) ==> final(self).blames(e@) && old(self).asked().len()
                < final(self).asked().len(),
            old(self).queried().len() == 0 ==> outcome is Ok && *final(self) == *old(self),
            old(self).queried().len() > 0 && old(self).cells()[old(self).queried()[0] as int] is Unknown
                ==> final(self).asked_first(old(self), old(self).queried()[0]),
    {
        let mut values: Vec<Value> = Vec::new();
        let mut k: usize = 0;
        while k < self.queried.len()
            invariant
                k <= self.queried.len(),
                values.len() == k,
                self.wf(),
                self.same_session(old(self)),
                self.keeps(old(self)),
                self.answers(values@),
                self.trials() == old(self).trials(),
                self.asked_since(old(self)),
                k == 0 ==> *self == *old(self),
                k > 0 && old(self).cells()[old(self).queried()[0] as int] is Unknown
                    ==> self.asked_first(old(self), old(self).queried()[0]),
            decreases self.queried.len() - k,
        {
            let variable = self.queried[k];
            let ghost before = *self;
            let ghost earlier = values@;
            let outcome = self.eval(variable);
            proof {
                lemma_extends(self.asked(), before.asked(), old(self).asked());
            }
            let value = match outcome {
                Ok(value) => value,
                Err(e) => {
                    return Err(e);
                },
            };
            values.push(value);
            proof {
                assert forall|i: int| 0 <= i < values@.len() implies self.cells()[(
                #[trigger] self.queried()[i]) as int] == FeOption::Known(values@[i]) by {
                    if i < k {
                        assert(before.cells()[before.queried()[i] as int] == FeOption::Known(
                            earlier[i],
                        ));
                    }
                }
            }
            k += 1;
        }
        Ok(Sample { values })
    }

    /// Runs one trial, and the session has started one trial more. Every cell
    /// starts `Unknown`: a cell that holds a value after the trial was given
    /// it in this trial. The observed variables are evaluated in the order of
    /// their declarations; the first whose value is not its evidence rejects
    /// the trial, and there is no sample. In a trial that agrees with all the
    /// evidence the queried variables are evaluated, in the order of their
    /// declarations, and their values are the sample. Where nothing is
    /// observed and nothing queried, the trial is accepted without a draw.
    pub fn trial(&mut self) -> (outcome: Result<Option<Sample>, SampleError>)
        requires
            old(self).wf(),
        ensures
            final(self).wf(),
            final(self).same_session(old(self)),
            final(self).trials() == old(self).trials() + 1,
            final(self).settled_in_this_trial(),
            final(self).asked_since(old(self)),
            outcome matches Ok(Some(sample)) ==> {
                &&& final(self).agrees(final(self).observed().len() as int)
                &&& sample.values.len() == final(self).queried().len()
                &&& final(self).answers(sample.values@)
            },
            outcome matches Ok(None) ==> final(self).disagrees(),
            outcome matches Err(e) ==> final(self).blames(e@) && old(self).asked().len()
                < final(self).asked().len(),
            old(self).observed().len() == 0 && old(self).queried().len() == 0 ==> (outcome matches Ok(
                Some(_),
            )) && final(self).source() == old(self).source() && final(self).asked() == old(self).asked(),
            old(self).observed().len() > 0 ==> final(self).asked_first(
                old(self),
                old(self).observed()[0],
            ),
            old(self).observed().len() == 0 && old(self).queried().len() > 0 ==> final(self).asked_first(old(self), old(self).queried()[0]),
    {
        self.reset();
        let ghost fresh = *self;
        let accepted = match self.check_evidence() {
            Ok(accepted) => accepted,
            Err(e) => {
                return Err(e);
            },
        };
        if !accepted {
            return Ok(None);
        }
        let ghost before = *self;
        let outcome = self.collect_answers();
        proof {
            lemma_extends(self.asked(), before.asked(), fresh.asked());
        }
        let sample = match outcome {
            Ok(sample) => sample,
            Err(e) => {
                return Err(e);
            },
        };
        proof {
            assert forall|k: int| 0 <= k < self.observed().len() implies self.cells()[(
            #[trigger] self.observed()[k]) as int] == FeOption::Known(self.evidence()[k]) by {
                assert(before.cells()[before.observed()[k] as int] == FeOption::Known(
                    before.evidence()[k],
                ));
            }
        }
        Ok(Some(sample))
    }

    /// Produces one sample by rejection: runs trials until one is accepted,
    /// and gives its sample. After `max_attempts` rejected trials, and no
    /// fewer, the evidence counts as unreachable. An error of an evaluator
    /// ends the call at once.
    ///
    /// A sample is never returned from a rejected trial: the cells of the
    /// observed variables hold exactly the evidence, and the sample holds
    /// exactly the values of the cells of the queried variables. Where the
    /// evidence counts as unreachable after at least one trial, the cells are
    /// those of a rejected trial.
    pub fn sample(&mut self) -> (outcome: Result<Sample, SampleError>)
        requires
            old(self).wf(),
        ensures
            final(self).wf(),
            final(self).same_session(old(self)),
            final(self).asked_since(old(self)),
            old(self).trials() <= final(self).trials() <= old(self).trials() + old(self).max_attempts(),
            outcome matches Ok(sample) ==> {
                &&& final(self).agrees(final(self).observed().len() as int)
                &&& sample.values.len() == final(self).queried().len()
                &&& final(self).answers(sample.values@)
                &&& old(self).trials() < final(self).trials()
            },
            outcome matches Err(e) ==> if e is EvidenceUnreachable {
                final(self).trials() == old(self).trials() + old(self).max_attempts()
            } else {
                old(self).trials() < final(self).trials() && final(self).blames(e@) && old(self).asked().len()
                    < final(self).asked().len()
            },
            old(self).max_attempts() == 0 ==> outcome == Err::<Sample, SampleError>(
                SampleError::EvidenceUnreachable,
            ) && *final(self) == *old(self),
            outcome == Err::<Sample, SampleError>(SampleError::EvidenceUnreachable)
                && old(self).max_attempts() > 0 ==> final(self).disagrees(),
            old(self).observed().len() == 0 && old(self).queried().len() == 0
                && old(self).max_attempts() > 0 ==> outcome is Ok
                && final(self).source() == old(self).source(),
            old(self).max_attempts() > 0 && old(self).observed().len() > 0 ==> final(self).asked_first(old(self), old(self).observed()[0]),
    {
        let mut attempts: u64 = 0;
        while attempts < self.max_attempts
            invariant
                self.wf(),
                self.same_session(old(self)),
                attempts <= self.max_attempts,
                self.trials() == old(self).trials() + attempts,
                self.asked_since(old(self)),
                attempts == 0 ==> *self == *old(self),
                attempts > 0 ==> self.disagrees(),
                attempts > 0 && self.observed().len() > 0 ==> self.asked_first(
                    old(self),
                    old(self).observed()[0],
                ),
            decreases self.max_attempts - attempts,
        {
            attempts += 1;
            let ghost before = *self;
            let outcome = self.trial();
            proof {
                lemma_extends(self.asked(), before.asked(), old(self).asked());
            }
            match after_trial(attempts, self.max_attempts, outcome) {
                Some(result) => {
                    return result;
                },
                None => {},
            }
        }
        Err(SampleError::EvidenceUnreachable)
    }

    /// The next `count` samples of the endless sequence that `sample` gives
    /// one by one: each is produced by rejection, with all its trials. The
    /// first error ends the call.
    pub fn take(&mut self, count: usize) -> (outcome: Result<Vec<Sample>, SampleError>)
        requires
            old(self).wf(),
        ensures
            final(self).wf(),
            final(self).same_session(old(self)),
            outcome matches Ok(samples) ==> {
                &&& samples.len() == count
                &&& forall|i: int|
                    0 <= i < count ==> (#[trigger] samples[i]).values.len()
                        == final(self).queried().len()
                &&& count > 0 ==> final(self).agrees(final(self).observed().len() as int)
                    && final(self).answers(samples[count - 1].values@)
            },
            count == 0 ==> outcome is Ok && *final(self) == *old(self),
            old(self).trials() <= final(self).trials(),
            final(self).asked_since(old(self)),
            outcome matches Err(e) ==> if e is EvidenceUnreachable {
                final(self).trials() >= old(self).trials() + old(self).max_attempts()
            } else {
                final(self).blames(e@)
            },
    {
        let mut samples: Vec<Sample> = Vec::new();
        let mut i: usize = 0;
        while i < count
            invariant
                i <= count,
                samples.len() == i,
                self.wf(),
                self.same_session(old(self)),
                forall|j: int|
                    0 <= j < i ==> (#[trigger] samples[j]).values.len() == self.queried().len(),
                i == 0 ==> *self == *old(self),
                i > 0 ==> self.agrees(self.observed().len() as int) && self.answers(
                    samples[i - 1].values@,
                ),
                old(self).trials() <= self.trials(),
                self.asked_since(old(self)),
            decreases count - i,
        {
            let ghost before = *self;
            let outcome = self.sample();
            proof {
                lemma_extends(self.asked(), before.asked(), old(self).asked());
            }
            let sample = match outcome {
                Ok(sample) => sample,
                Err(e) => {
                    return Err(e);
                },
            };
            samples.push(sample);
            i += 1;
        }
        Ok(samples)
    }
}

} // verus!
