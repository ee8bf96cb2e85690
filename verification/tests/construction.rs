use ferric::compile::make_model;
use ferric::token::{Delimiter, Span, Token};

// The description of the model, as its author writes it.
const DESCRIPTION: &str = "
    mod broken;
    use ferric::distributions::Distribution;
    let chance : u64 ~ Level::new(3);
    let coin : bool ~ Coin::new(chance);
    let never : bool ~ Coin::new(0);
    observe never;
    query coin;
";

// What stands inside the module that the description compiles to, word for word.
const BODY: &[&str] = &[
    "use ferric :: distributions :: Distribution ; use ferric::FeOption; pub struct Sample {",
    "pub coin: bool, } pub struct Model { pub never: bool, } impl Model { pub fn",
    "sample_iter(&self) -> World<rand::rngs::ThreadRng> { World::new(rand::thread_rng(),",
    "self.never,) } } pub struct World<R> { rng: R, max_attempts: u64, var_chance:",
    "FeOption<u64>, busy_chance: bool, var_coin: FeOption<bool>, busy_coin: bool, var_never:",
    "FeOption<bool>, busy_never: bool, obs_never: bool, } impl<R: rand::Rng> Iterator for",
    "World<R> { type Item = Result<Sample, ferric::SampleError>; fn next(&mut self) ->",
    "Option<Self::Item> { Some(self.sample()) } } impl<R: rand::Rng> World<R> { pub fn",
    "new(rng: R, never: bool,) -> World<R> { World { rng: rng, max_attempts: u64::MAX,",
    "var_chance: FeOption::Unknown, busy_chance: false, var_coin: FeOption::Unknown,",
    "busy_coin: false, var_never: FeOption::Unknown, busy_never: false, obs_never: never, } }",
    "pub fn with_max_attempts(mut self, max_attempts: u64) -> World<R> { self.max_attempts =",
    "max_attempts; self } pub fn reset(&mut self) { self.var_chance = FeOption::Unknown;",
    "self.busy_chance = false; self.var_coin = FeOption::Unknown; self.busy_coin = false;",
    "self.var_never = FeOption::Unknown; self.busy_never = false; } pub fn sample(&mut self)",
    "-> Result<Sample, ferric::SampleError> { let mut attempts: u64 = 0; while attempts <",
    "self.max_attempts { attempts += 1; self.reset(); if self.obs_never != self.eval_never()?",
    "{ continue; } return Ok(Sample { coin: self.eval_coin()?, }); }",
    "Err(ferric::SampleError::EvidenceUnreachable) } pub fn eval_chance(&mut self) ->",
    "Result<u64, ferric::SampleError> { if self.var_chance.is_unknown() { if self.busy_chance",
    "{ return Err(ferric::SampleError::CyclicDependency); } self.busy_chance = true; let dist",
    "= self.evaldist_chance()?; self.busy_chance = false; self.var_chance =",
    "FeOption::Known(dist.sample(&mut self.rng)); } match self.var_chance {",
    "FeOption::Known(value) => Ok(value), _ => Err(ferric::SampleError::UnresolvedAccess), }",
    "} pub fn evaldist_chance(&mut self) -> Result<Box<dyn",
    "ferric::distributions::Distribution<R, Domain = u64>>, ferric::SampleError> { let dist =",
    "Level :: new ( 3 ) ; match dist { Ok(dist) => Ok(Box::new(dist)), Err(error) =>",
    "Err(ferric::SampleError::DistributionConstruction(error.to_string())), } } pub fn",
    "eval_coin(&mut self) -> Result<bool, ferric::SampleError> { if",
    "self.var_coin.is_unknown() { if self.busy_coin { return",
    "Err(ferric::SampleError::CyclicDependency); } self.busy_coin = true; let dist =",
    "self.evaldist_coin()?; self.busy_coin = false; self.var_coin =",
    "FeOption::Known(dist.sample(&mut self.rng)); } match self.var_coin {",
    "FeOption::Known(value) => Ok(value), _ => Err(ferric::SampleError::UnresolvedAccess), }",
    "} pub fn evaldist_coin(&mut self) -> Result<Box<dyn",
    "ferric::distributions::Distribution<R, Domain = bool>>, ferric::SampleError> { let dist",
    "= Coin :: new ( ( self . eval_chance ( ) ? ) ) ; match dist { Ok(dist) =>",
    "Ok(Box::new(dist)), Err(error) =>",
    "Err(ferric::SampleError::DistributionConstruction(error.to_string())), } } pub fn",
    "eval_never(&mut self) -> Result<bool, ferric::SampleError> { if",
    "self.var_never.is_unknown() { if self.busy_never { return",
    "Err(ferric::SampleError::CyclicDependency); } self.busy_never = true; let dist =",
    "self.evaldist_never()?; self.busy_never = false; self.var_never =",
    "FeOption::Known(dist.sample(&mut self.rng)); } match self.var_never {",
    "FeOption::Known(value) => Ok(value), _ => Err(ferric::SampleError::UnresolvedAccess), }",
    "} pub fn evaldist_never(&mut self) -> Result<Box<dyn",
    "ferric::distributions::Distribution<R, Domain = bool>>, ferric::SampleError> { let dist",
    "= Coin :: new ( 0 ) ; match dist { Ok(dist) => Ok(Box::new(dist)), Err(error) =>",
    "Err(ferric::SampleError::DistributionConstruction(error.to_string())), } } }",
];

// The same items as code: this is what a user of the compiled module runs.
use ferric :: distributions :: Distribution ; use ferric::FeOption; pub struct Sample { pub
coin: bool, } pub struct Model { pub never: bool, } impl Model { pub fn sample_iter(&self) ->
World<rand::rngs::ThreadRng> { World::new(rand::thread_rng(), self.never,) } } pub struct
World<R> { rng: R, max_attempts: u64, var_chance: FeOption<u64>, busy_chance: bool, var_coin:
FeOption<bool>, busy_coin: bool, var_never: FeOption<bool>, busy_never: bool, obs_never: bool, }
impl<R: rand::Rng> Iterator for World<R> { type Item = Result<Sample, ferric::SampleError>; fn
next(&mut self) -> Option<Self::Item> { Some(self.sample()) } } impl<R: rand::Rng> World<R> {
pub fn new(rng: R, never: bool,) -> World<R> { World { rng: rng, max_attempts: u64::MAX,
var_chance: FeOption::Unknown, busy_chance: false, var_coin: FeOption::Unknown, busy_coin:
false, var_never: FeOption::Unknown, busy_never: false, obs_never: never, } } pub fn
with_max_attempts(mut self, max_attempts: u64) -> World<R> { self.max_attempts = max_attempts;
self } pub fn reset(&mut self) { self.var_chance = FeOption::Unknown; self.busy_chance = false;
self.var_coin = FeOption::Unknown; self.busy_coin = false; self.var_never = FeOption::Unknown;
self.busy_never = false; } pub fn sample(&mut self) -> Result<Sample, ferric::SampleError> { let
mut attempts: u64 = 0; while attempts < self.max_attempts { attempts += 1; self.reset(); if
self.obs_never != self.eval_never()? { continue; } return Ok(Sample { coin: self.eval_coin()?,
}); } Err(ferric::SampleError::EvidenceUnreachable) } pub fn eval_chance(&mut self) ->
Result<u64, ferric::SampleError> { if self.var_chance.is_unknown() { if self.busy_chance {
return Err(ferric::SampleError::CyclicDependency); } self.busy_chance = true; let dist =
self.evaldist_chance()?; self.busy_chance = false; self.var_chance =
FeOption::Known(dist.sample(&mut self.rng)); } match self.var_chance { FeOption::Known(value) =>
Ok(value), _ => Err(ferric::SampleError::UnresolvedAccess), } } pub fn evaldist_chance(&mut
self) -> Result<Box<dyn ferric::distributions::Distribution<R, Domain = u64>>,
ferric::SampleError> { let dist = Level :: new ( 3 ) ; match dist { Ok(dist) =>
Ok(Box::new(dist)), Err(error) =>
Err(ferric::SampleError::DistributionConstruction(error.to_string())), } } pub fn eval_coin(&mut
self) -> Result<bool, ferric::SampleError> { if self.var_coin.is_unknown() { if self.busy_coin {
return Err(ferric::SampleError::CyclicDependency); } self.busy_coin = true; let dist =
self.evaldist_coin()?; self.busy_coin = false; self.var_coin = FeOption::Known(dist.sample(&mut
self.rng)); } match self.var_coin { FeOption::Known(value) => Ok(value), _ =>
Err(ferric::SampleError::UnresolvedAccess), } } pub fn evaldist_coin(&mut self) ->
Result<Box<dyn ferric::distributions::Distribution<R, Domain = bool>>, ferric::SampleError> {
let dist = Coin :: new ( ( self . eval_chance ( ) ? ) ) ; match dist { Ok(dist) =>
Ok(Box::new(dist)), Err(error) =>
Err(ferric::SampleError::DistributionConstruction(error.to_string())), } } pub fn
eval_never(&mut self) -> Result<bool, ferric::SampleError> { if self.var_never.is_unknown() { if
self.busy_never { return Err(ferric::SampleError::CyclicDependency); } self.busy_never = true;
let dist = self.evaldist_never()?; self.busy_never = false; self.var_never =
FeOption::Known(dist.sample(&mut self.rng)); } match self.var_never { FeOption::Known(value) =>
Ok(value), _ => Err(ferric::SampleError::UnresolvedAccess), } } pub fn evaldist_never(&mut self)
-> Result<Box<dyn ferric::distributions::Distribution<R, Domain = bool>>, ferric::SampleError> {
let dist = Coin :: new ( 0 ) ; match dist { Ok(dist) => Ok(Box::new(dist)), Err(error) =>
Err(ferric::SampleError::DistributionConstruction(error.to_string())), } } }

// A distribution that always gives the level it was made with.
pub struct Level(u64);

impl Level {
    pub fn new(level: u64) -> Result<Level, String> {
        Ok(Level(level))
    }
}

impl<R: rand::Rng + ?Sized> Distribution<R> for Level {
    type Domain = u64;

    fn sample(&self, _rng: &mut R) -> u64 {
        self.0
    }
}

// A coin that comes up with a chance of `halves` in two.
pub struct Coin(u64);

impl Coin {
    pub fn new(halves: u64) -> Result<Coin, String> {
        if halves > 2 {
            Err(format!("Coin: illegal chance `{}` should be between 0 and 2", halves))
        } else {
            Ok(Coin(halves))
        }
    }
}

impl<R: rand::Rng + ?Sized> Distribution<R> for Coin {
    type Domain = bool;

    fn sample(&self, rng: &mut R) -> bool {
        rng.gen_range(0..2) < self.0
    }
}

fn convert(stream: proc_macro2::TokenStream, next: &mut usize) -> Vec<Token> {
    let mut out = Vec::new();
    for tree in stream {
        *next += 1;
        let span = Span { line: 1, column: *next };
        out.push(match tree {
            proc_macro2::TokenTree::Ident(i) => Token::Ident { name: i.to_string(), span },
            proc_macro2::TokenTree::Punct(p) => Token::Punct {
                ch: p.as_char(),
                joint: p.spacing() == proc_macro2::Spacing::Joint,
                span,
            },
            proc_macro2::TokenTree::Literal(l) => Token::Literal { text: l.to_string(), span },
            proc_macro2::TokenTree::Group(g) => {
                let delimiter = match g.delimiter() {
                    proc_macro2::Delimiter::Parenthesis => Delimiter::Parenthesis,
                    proc_macro2::Delimiter::Brace => Delimiter::Brace,
                    proc_macro2::Delimiter::Bracket => Delimiter::Bracket,
                    proc_macro2::Delimiter::None => Delimiter::Invisible,
                };
                Token::Group { delimiter, stream: convert(g.stream(), next), span }
            }
        });
    }
    out
}

fn tokens(source: &str) -> Vec<Token> {
    let stream: proc_macro2::TokenStream = source.parse().unwrap();
    let mut next = 0;
    convert(stream, &mut next)
}

#[test]
fn compiled_module_with_a_bad_parameter_is_the_one_run_here() {
    let source = make_model(&tokens(DESCRIPTION)).unwrap();
    let expected = format!("#[allow(unused_parens)] pub mod broken {{ {} }}", BODY.join(" "));
    assert_eq!(source, expected);
}

#[test]
fn compiled_sampler_reports_a_parameter_out_of_range() {
    // `never` is observed to be false, which it always is; `coin` is then asked for, and
    // its chance of 3 in 2 is no chance
    let mut world = World::new(rand::thread_rng(), false);
    assert_eq!(
        world.sample().err(),
        Some(ferric::SampleError::DistributionConstruction(String::from(
            "Coin: illegal chance `3` should be between 0 and 2"
        )))
    );
    assert_eq!(world.eval_chance(), Ok(3));
    assert_eq!(world.eval_never(), Ok(false));
}

#[test]
fn compiled_sampler_gives_up_on_evidence_that_never_comes() {
    let mut world = World::new(rand::thread_rng(), true).with_max_attempts(50);
    assert_eq!(world.sample().err(), Some(ferric::SampleError::EvidenceUnreachable));
    let mut samples = Model { never: true }.sample_iter().with_max_attempts(3);
    assert_eq!(samples.next().unwrap().err(), Some(ferric::SampleError::EvidenceUnreachable));
}
