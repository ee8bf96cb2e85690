use ferric::compile::make_model;
use ferric::token::{Delimiter, Span, Token};

// The description of the model, as its author writes it.
const DESCRIPTION: &str = "
    mod loopy;
    use ferric::distributions::Distribution;
    let a : bool ~ Flip::new(b);
    let b : bool ~ Flip::new(!c);
    let c : bool ~ Flip::new(a);
    let d : bool ~ Flip::new(true);
    query a;
    query d;
";

// What stands inside the module that the description compiles to, word for word.
const BODY: &[&str] = &[
    "use ferric :: distributions :: Distribution ; use ferric::FeOption; pub struct Sample {",
    "pub a: bool, pub d: bool, } pub struct Model { } impl Model { pub fn sample_iter(&self)",
    "-> World<rand::rngs::ThreadRng> { World::new(rand::thread_rng(),) } } pub struct",
    "World<R> { rng: R, max_attempts: u64, var_a: FeOption<bool>, busy_a: bool, var_b:",
    "FeOption<bool>, busy_b: bool, var_c: FeOption<bool>, busy_c: bool, var_d:",
    "FeOption<bool>, busy_d: bool, } impl<R: rand::Rng> Iterator for World<R> { type Item =",
    "Result<Sample, ferric::SampleError>; fn next(&mut self) -> Option<Self::Item> {",
    "Some(self.sample()) } } impl<R: rand::Rng> World<R> { pub fn new(rng: R,) -> World<R> {",
    "World { rng: rng, max_attempts: u64::MAX, var_a: FeOption::Unknown, busy_a: false,",
    "var_b: FeOption::Unknown, busy_b: false, var_c: FeOption::Unknown, busy_c: false, var_d:",
    "FeOption::Unknown, busy_d: false, } } pub fn with_max_attempts(mut self, max_attempts:",
    "u64) -> World<R> { self.max_attempts = max_attempts; self } pub fn reset(&mut self) {",
    "self.var_a = FeOption::Unknown; self.busy_a = false; self.var_b = FeOption::Unknown;",
    "self.busy_b = false; self.var_c = FeOption::Unknown; self.busy_c = false; self.var_d =",
    "FeOption::Unknown; self.busy_d = false; } pub fn sample(&mut self) -> Result<Sample,",
    "ferric::SampleError> { let mut attempts: u64 = 0; while attempts < self.max_attempts {",
    "attempts += 1; self.reset(); return Ok(Sample { a: self.eval_a()?, d: self.eval_d()?,",
    "}); } Err(ferric::SampleError::EvidenceUnreachable) } pub fn eval_a(&mut self) ->",
    "Result<bool, ferric::SampleError> { if self.var_a.is_unknown() { if self.busy_a { return",
    "Err(ferric::SampleError::CyclicDependency); } self.busy_a = true; let dist =",
    "self.evaldist_a()?; self.busy_a = false; self.var_a = FeOption::Known(dist.sample(&mut",
    "self.rng)); } match self.var_a { FeOption::Known(value) => Ok(value), _ =>",
    "Err(ferric::SampleError::UnresolvedAccess), } } pub fn evaldist_a(&mut self) ->",
    "Result<Box<dyn ferric::distributions::Distribution<R, Domain = bool>>,",
    "ferric::SampleError> { let dist = Flip :: new ( ( self . eval_b ( ) ? ) ) ; match dist {",
    "Ok(dist) => Ok(Box::new(dist)), Err(error) =>",
    "Err(ferric::SampleError::DistributionConstruction(error.to_string())), } } pub fn",
    "eval_b(&mut self) -> Result<bool, ferric::SampleError> { if self.var_b.is_unknown() { if",
    "self.busy_b { return Err(ferric::SampleError::CyclicDependency); } self.busy_b = true;",
    "let dist = self.evaldist_b()?; self.busy_b = false; self.var_b =",
    "FeOption::Known(dist.sample(&mut self.rng)); } match self.var_b { FeOption::Known(value)",
    "=> Ok(value), _ => Err(ferric::SampleError::UnresolvedAccess), } } pub fn",
    "evaldist_b(&mut self) -> Result<Box<dyn ferric::distributions::Distribution<R, Domain =",
    "bool>>, ferric::SampleError> { let dist = Flip :: new ( ! ( self . eval_c ( ) ? ) ) ;",
    "match dist { Ok(dist) => Ok(Box::new(dist)), Err(error) =>",
    "Err(ferric::SampleError::DistributionConstruction(error.to_string())), } } pub fn",
    "eval_c(&mut self) -> Result<bool, ferric::SampleError> { if self.var_c.is_unknown() { if",
    "self.busy_c { return Err(ferric::SampleError::CyclicDependency); } self.busy_c = true;",
    "let dist = self.evaldist_c()?; self.busy_c = false; self.var_c =",
    "FeOption::Known(dist.sample(&mut self.rng)); } match self.var_c { FeOption::Known(value)",
    "=> Ok(value), _ => Err(ferric::SampleError::UnresolvedAccess), } } pub fn",
    "evaldist_c(&mut self) -> Result<Box<dyn ferric::distributions::Distribution<R, Domain =",
    "bool>>, ferric::SampleError> { let dist = Flip :: new ( ( self . eval_a ( ) ? ) ) ;",
    "match dist { Ok(dist) => Ok(Box::new(dist)), Err(error) =>",
    "Err(ferric::SampleError::DistributionConstruction(error.to_string())), } } pub fn",
    "eval_d(&mut self) -> Result<bool, ferric::SampleError> { if self.var_d.is_unknown() { if",
    "self.busy_d { return Err(ferric::SampleError::CyclicDependency); } self.busy_d = true;",
    "let dist = self.evaldist_d()?; self.busy_d = false; self.var_d =",
    "FeOption::Known(dist.sample(&mut self.rng)); } match self.var_d { FeOption::Known(value)",
    "=> Ok(value), _ => Err(ferric::SampleError::UnresolvedAccess), } } pub fn",
    "evaldist_d(&mut self) -> Result<Box<dyn ferric::distributions::Distribution<R, Domain =",
    "bool>>, ferric::SampleError> { let dist = Flip :: new ( true ) ; match dist { Ok(dist)",
    "=> Ok(Box::new(dist)), Err(error) =>",
    "Err(ferric::SampleError::DistributionConstruction(error.to_string())), } } }",
];

// The same items as code: this is what a user of the compiled module runs.
use ferric :: distributions :: Distribution ; use ferric::FeOption; pub struct Sample { pub a:
bool, pub d: bool, } pub struct Model { } impl Model { pub fn sample_iter(&self) ->
World<rand::rngs::ThreadRng> { World::new(rand::thread_rng(),) } } pub struct World<R> { rng: R,
max_attempts: u64, var_a: FeOption<bool>, busy_a: bool, var_b: FeOption<bool>, busy_b: bool,
var_c: FeOption<bool>, busy_c: bool, var_d: FeOption<bool>, busy_d: bool, } impl<R: rand::Rng>
Iterator for World<R> { type Item = Result<Sample, ferric::SampleError>; fn next(&mut self) ->
Option<Self::Item> { Some(self.sample()) } } impl<R: rand::Rng> World<R> { pub fn new(rng: R,)
-> World<R> { World { rng: rng, max_attempts: u64::MAX, var_a: FeOption::Unknown, busy_a: false,
var_b: FeOption::Unknown, busy_b: false, var_c: FeOption::Unknown, busy_c: false, var_d:
FeOption::Unknown, busy_d: false, } } pub fn with_max_attempts(mut self, max_attempts: u64) ->
World<R> { self.max_attempts = max_attempts; self } pub fn reset(&mut self) { self.var_a =
FeOption::Unknown; self.busy_a = false; self.var_b = FeOption::Unknown; self.busy_b = false;
self.var_c = FeOption::Unknown; self.busy_c = false; self.var_d = FeOption::Unknown; self.busy_d
= false; } pub fn sample(&mut self) -> Result<Sample, ferric::SampleError> { let mut attempts:
u64 = 0; while attempts < self.max_attempts { attempts += 1; self.reset(); return Ok(Sample { a:
self.eval_a()?, d: self.eval_d()?, }); } Err(ferric::SampleError::EvidenceUnreachable) } pub fn
eval_a(&mut self) -> Result<bool, ferric::SampleError> { if self.var_a.is_unknown() { if
self.busy_a { return Err(ferric::SampleError::CyclicDependency); } self.busy_a = true; let dist
= self.evaldist_a()?; self.busy_a = false; self.var_a = FeOption::Known(dist.sample(&mut
self.rng)); } match self.var_a { FeOption::Known(value) => Ok(value), _ =>
Err(ferric::SampleError::UnresolvedAccess), } } pub fn evaldist_a(&mut self) -> Result<Box<dyn
ferric::distributions::Distribution<R, Domain = bool>>, ferric::SampleError> { let dist = Flip
:: new ( ( self . eval_b ( ) ? ) ) ; match dist { Ok(dist) => Ok(Box::new(dist)), Err(error) =>
Err(ferric::SampleError::DistributionConstruction(error.to_string())), } } pub fn eval_b(&mut
self) -> Result<bool, ferric::SampleError> { if self.var_b.is_unknown() { if self.busy_b {
return Err(ferric::SampleError::CyclicDependency); } self.busy_b = true; let dist =
self.evaldist_b()?; self.busy_b = false; self.var_b = FeOption::Known(dist.sample(&mut
self.rng)); } match self.var_b { FeOption::Known(value) => Ok(value), _ =>
Err(ferric::SampleError::UnresolvedAccess), } } pub fn evaldist_b(&mut self) -> Result<Box<dyn
ferric::distributions::Distribution<R, Domain = bool>>, ferric::SampleError> { let dist = Flip
:: new ( ! ( self . eval_c ( ) ? ) ) ; match dist { Ok(dist) => Ok(Box::new(dist)), Err(error)
=> Err(ferric::SampleError::DistributionConstruction(error.to_string())), } } pub fn eval_c(&mut
self) -> Result<bool, ferric::SampleError> { if self.var_c.is_unknown() { if self.busy_c {
return Err(ferric::SampleError::CyclicDependency); } self.busy_c = true; let dist =
self.evaldist_c()?; self.busy_c = false; self.var_c = FeOption::Known(dist.sample(&mut
self.rng)); } match self.var_c { FeOption::Known(value) => Ok(value), _ =>
Err(ferric::SampleError::UnresolvedAccess), } } pub fn evaldist_c(&mut self) -> Result<Box<dyn
ferric::distributions::Distribution<R, Domain = bool>>, ferric::SampleError> { let dist = Flip
:: new ( ( self . eval_a ( ) ? ) ) ; match dist { Ok(dist) => Ok(Box::new(dist)), Err(error) =>
Err(ferric::SampleError::DistributionConstruction(error.to_string())), } } pub fn eval_d(&mut
self) -> Result<bool, ferric::SampleError> { if self.var_d.is_unknown() { if self.busy_d {
return Err(ferric::SampleError::CyclicDependency); } self.busy_d = true; let dist =
self.evaldist_d()?; self.busy_d = false; self.var_d = FeOption::Known(dist.sample(&mut
self.rng)); } match self.var_d { FeOption::Known(value) => Ok(value), _ =>
Err(ferric::SampleError::UnresolvedAccess), } } pub fn evaldist_d(&mut self) -> Result<Box<dyn
ferric::distributions::Distribution<R, Domain = bool>>, ferric::SampleError> { let dist = Flip
:: new ( true ) ; match dist { Ok(dist) => Ok(Box::new(dist)), Err(error) =>
Err(ferric::SampleError::DistributionConstruction(error.to_string())), } } }

// A distribution that always gives the value it was made with.
pub struct Flip(bool);

impl Flip {
    pub fn new(value: bool) -> Result<Flip, String> {
        Ok(Flip(value))
    }
}

impl<R: rand::Rng + ?Sized> Distribution<R> for Flip {
    type Domain = bool;

    fn sample(&self, _rng: &mut R) -> bool {
        self.0
    }
}

fn convert(stream: proc_macro2::TokenStream, next: &mut usize) -> Vec<Token> {
    let mut out = Vec::new();
    for tree in stream {
        *next += 1;
        let span = Span { line: 1, column: *next };
        out.push(match tree {
            proc_macro2::TokenTree::Ident(i) => Token::Ident { name: i.to_string(), span },
            proc_macro2::TokenTree::Punct(p) => Token::Punct {
                ch: p.as_char(),
                joint: p.spacing() == proc_macro2::Spacing::Joint,
                span,
            },
            proc_macro2::TokenTree::Literal(l) => Token::Literal { text: l.to_string(), span },
            proc_macro2::TokenTree::Group(g) => {
                let delimiter = match g.delimiter() {
                    proc_macro2::Delimiter::Parenthesis => Delimiter::Parenthesis,
                    proc_macro2::Delimiter::Brace => Delimiter::Brace,
                    proc_macro2::Delimiter::Bracket => Delimiter::Bracket,
                    proc_macro2::Delimiter::None => Delimiter::Invisible,
                };
                Token::Group { delimiter, stream: convert(g.stream(), next), span }
            }
        });
    }
    out
}

fn tokens(source: &str) -> Vec<Token> {
    let stream: proc_macro2::TokenStream = source.parse().unwrap();
    let mut next = 0;
    convert(stream, &mut next)
}

#[test]
fn compiled_module_with_a_cycle_is_the_one_run_here() {
    let source = make_model(&tokens(DESCRIPTION)).unwrap();
    let expected = format!("#[allow(unused_parens)] pub mod loopy {{ {} }}", BODY.join(" "));
    assert_eq!(source, expected);
}

#[test]
fn compiled_evaluators_report_a_cycle() {
    let mut world = World::new(rand::thread_rng());
    // a reads b, b reads c, c reads a
    assert_eq!(world.eval_a(), Err(ferric::SampleError::CyclicDependency));
    world.reset();
    assert_eq!(world.eval_c(), Err(ferric::SampleError::CyclicDependency));
    // a variable off the cycle is drawn as ever
    world.reset();
    assert_eq!(world.eval_d(), Ok(true));
    // and the sample, which needs a, is an error value
    assert_eq!(world.sample().err(), Some(ferric::SampleError::CyclicDependency));
    assert_eq!(
        Model {}.sample_iter().next().unwrap().err(),
        Some(ferric::SampleError::CyclicDependency)
    );
}
