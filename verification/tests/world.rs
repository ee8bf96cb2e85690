use ferric::analyze::analyze;
use ferric::distributions::Distribution;
use ferric::parse::ModelAst;
use ferric::token::{Delimiter, Span, Token};
use ferric::world::{
    after_trial, draw_bool, draw_count, judge, settle, Draw, Sample, Source, Value, Verdict, World,
};
use ferric::{FeOption, SampleError};
use rand::Rng;

// A Bernoulli distribution, as a model imports one.
struct Bernoulli {
    p: f64,
}

impl Bernoulli {
    fn new(p: f64) -> Result<Bernoulli, String> {
        if !(0f64..=1f64).contains(&p) {
            Err(format!("Bernoulli: illegal probability `{}` should be between 0 and 1", p))
        } else {
            Ok(Bernoulli { p })
        }
    }
}

impl<R: Rng + ?Sized> Distribution<R> for Bernoulli {
    type Domain = bool;

    fn sample(&self, rng: &mut R) -> bool {
        let val: f64 = rng.gen();
        val < self.p
    }
}

// A distribution that always gives the same count.
struct Always(u64);

impl<R: Rng + ?Sized> Distribution<R> for Always {
    type Domain = u64;

    fn sample(&self, _rng: &mut R) -> u64 {
        self.0
    }
}

// A source that follows a script: for each variable the answers it gives, in turn. It
// counts how often it is asked for each variable.
struct Script {
    answers: Vec<Vec<Draw>>,
    asked: Vec<usize>,
}

impl Script {
    fn new(answers: Vec<Vec<Draw>>) -> Script {
        let asked = vec![0; answers.len()];
        Script { answers, asked }
    }
}

impl Source for Script {
    fn draw(&mut self, variable: usize, _cells: &Vec<FeOption<Value>>) -> Draw {
        self.asked[variable] += 1;
        if self.answers[variable].len() > 1 {
            self.answers[variable].remove(0)
        } else {
            match &self.answers[variable][0] {
                Draw::Value(v) => Draw::Value(*v),
                Draw::Needs(j) => Draw::Needs(*j),
                Draw::Failed(m) => Draw::Failed(m.clone()),
            }
        }
    }
}

// The network of the worked example: rain, sprinkler, grass_wet, in this order.
struct Grass<R> {
    rng: R,
    draws: [usize; 3],
}

fn read(cells: &Vec<FeOption<Value>>, variable: usize) -> Result<bool, Draw> {
    match cells[variable] {
        FeOption::Known(Value::Bool(b)) => Ok(b),
        FeOption::Known(_) => Err(Draw::Failed(String::from("not a bool"))),
        _ => Err(Draw::Needs(variable)),
    }
}

impl<R: Rng> Grass<R> {
    fn distribution(&mut self, variable: usize, cells: &Vec<FeOption<Value>>) -> Result<f64, Draw> {
        Ok(match variable {
            0 => 0.2,
            1 => {
                if read(cells, 0)? {
                    0.01
                } else {
                    0.4
                }
            }
            _ => {
                if read(cells, 1)? && read(cells, 0)? {
                    0.99
                } else if read(cells, 1)? && !read(cells, 0)? {
                    0.9
                } else if !read(cells, 1)? && read(cells, 0)? {
                    0.8
                } else {
                    0.0
                }
            }
        })
    }
}

impl<R: Rng> Source for Grass<R> {
    fn draw(&mut self, variable: usize, cells: &Vec<FeOption<Value>>) -> Draw {
        match self.distribution(variable, cells) {
            Ok(p) => {
                self.draws[variable] += 1;
                draw_bool(Bernoulli::new(p), &mut self.rng)
            }
            Err(other) => other,
        }
    }
}

fn grass_world(max_attempts: u64) -> World<Grass<rand::rngs::ThreadRng>> {
    let source = Grass { rng: rand::thread_rng(), draws: [0; 3] };
    World::new(source, 3, vec![2], vec![Value::Bool(true)], vec![0], max_attempts).unwrap()
}

#[test]
fn an_evaluator_draws_once_in_a_trial() {
    let script = Script::new(vec![vec![Draw::Value(Value::Count(4)), Draw::Value(Value::Count(9))]]);
    let mut world = World::new(script, 1, vec![], vec![], vec![0], 1).unwrap();
    assert_eq!(world.cell(0), Some(FeOption::Unknown));
    assert_eq!(world.eval(0), Ok(Value::Count(4)));
    assert_eq!(world.eval(0), Ok(Value::Count(4)));
    assert_eq!(world.eval(0), Ok(Value::Count(4)));
    assert_eq!(world.cell(0), Some(FeOption::Known(Value::Count(4))));
    // the next trial draws anew
    world.reset();
    assert_eq!(world.cell(0), Some(FeOption::Unknown));
    assert_eq!(world.eval(0), Ok(Value::Count(9)));
    assert_eq!(world.eval(0), Ok(Value::Count(9)));
    let script = world.into_source();
    assert_eq!(script.asked, [2]);
}

#[test]
fn a_dependency_is_drawn_first_and_once() {
    // variable 2 reads 1 and then 0; variable 1 reads 0
    let script = Script::new(vec![
        vec![Draw::Value(Value::Bool(true))],
        vec![Draw::Needs(0), Draw::Value(Value::Bool(false))],
        vec![Draw::Needs(1), Draw::Value(Value::Count(7))],
    ]);
    let mut world = World::new(script, 3, vec![], vec![], vec![], 1).unwrap();
    assert_eq!(world.eval(2), Ok(Value::Count(7)));
    assert_eq!(world.cell(0), Some(FeOption::Known(Value::Bool(true))));
    assert_eq!(world.cell(1), Some(FeOption::Known(Value::Bool(false))));
    assert_eq!(world.cell(2), Some(FeOption::Known(Value::Count(7))));
    assert_eq!(world.cell(3), None);
    assert_eq!(world.eval(1), Ok(Value::Bool(false)));
    assert_eq!(world.eval(0), Ok(Value::Bool(true)));
    // asked: variable 0 once; variables 1 and 2 once in vain, once with the value they needed
    assert_eq!(world.into_source().asked, [1, 2, 2]);
}

#[test]
fn only_what_is_read_is_drawn() {
    let mut world = grass_world(1);
    world.reset();
    world.eval(0).unwrap();
    assert_eq!(world.cell(1), Some(FeOption::Unknown));
    assert_eq!(world.cell(2), Some(FeOption::Unknown));
    assert_eq!(world.into_source().draws, [1, 0, 0]);
}

#[test]
fn a_sample_agrees_with_the_evidence() {
    let mut world = grass_world(u64::MAX);
    for _ in 0..1000 {
        let sample = world.sample().unwrap();
        assert_eq!(world.cell(2), Some(FeOption::Known(Value::Bool(true))));
        assert_eq!(sample.values.len(), 1);
        assert_eq!(world.cell(0), Some(FeOption::Known(sample.values[0])));
        // grass is never wet without rain or sprinkler
        let rain = world.cell(0) == Some(FeOption::Known(Value::Bool(true)));
        let sprinkler = world.cell(1) == Some(FeOption::Known(Value::Bool(true)));
        assert!(rain || sprinkler);
    }
}

#[test]
fn a_trial_is_a_sample_or_a_rejection() {
    let script = Script::new(vec![
        vec![Draw::Value(Value::Bool(false)), Draw::Value(Value::Bool(true))],
        vec![Draw::Value(Value::Count(3))],
    ]);
    let mut world = World::new(script, 2, vec![0], vec![Value::Bool(true)], vec![1, 0], 5).unwrap();
    // the first trial draws `false` for the observed variable and is rejected before
    // anything is drawn for the query
    assert_eq!(world.trial(), Ok(None));
    assert_eq!(world.cell(0), Some(FeOption::Known(Value::Bool(false))));
    assert_eq!(world.cell(1), Some(FeOption::Unknown));
    // the second is accepted
    assert_eq!(world.trial(), Ok(Some(Sample { values: vec![Value::Count(3), Value::Bool(true)] })));
    assert_eq!(world.into_source().asked, [2, 1]);
}

#[test]
fn rejection_retries_up_to_the_limit() {
    let never = || Script::new(vec![vec![Draw::Value(Value::Bool(false))]]);
    let mut world = World::new(never(), 1, vec![0], vec![Value::Bool(true)], vec![0], 25).unwrap();
    assert_eq!(world.sample(), Err(SampleError::EvidenceUnreachable));
    assert_eq!(world.into_source().asked, [25]);
    // no attempt allowed: nothing is drawn
    let mut world = World::new(never(), 1, vec![0], vec![Value::Bool(true)], vec![0], 0).unwrap();
    assert_eq!(world.sample(), Err(SampleError::EvidenceUnreachable));
    assert_eq!(world.into_source().asked, [0]);
    // the third trial is the first that agrees
    let third = Script::new(vec![vec![
        Draw::Value(Value::Count(1)),
        Draw::Value(Value::Count(2)),
        Draw::Value(Value::Count(3)),
    ]]);
    let mut world = World::new(third, 1, vec![0], vec![Value::Count(3)], vec![0], 3).unwrap();
    assert_eq!(world.sample(), Ok(Sample { values: vec![Value::Count(3)] }));
}

#[test]
fn samples_come_one_after_another() {
    let counting = Script::new(vec![vec![
        Draw::Value(Value::Count(1)),
        Draw::Value(Value::Count(2)),
        Draw::Value(Value::Count(2)),
        Draw::Value(Value::Count(3)),
        Draw::Value(Value::Count(2)),
    ]]);
    let mut world = World::new(counting, 1, vec![0], vec![Value::Count(2)], vec![0], 2).unwrap();
    assert_eq!(world.take(0), Ok(vec![]));
    // the first sample takes two trials, the second one
    let two = Sample { values: vec![Value::Count(2)] };
    assert_eq!(world.take(2), Ok(vec![Sample { values: vec![Value::Count(2)] }, two]));
    // the third takes two again; after it the source gives 2 for ever
    assert_eq!(world.take(3).map(|samples| samples.len()), Ok(3));
    assert_eq!(world.into_source().asked, [7]);
}

#[test]
fn nothing_asked_is_answered_without_a_draw() {
    let script = Script::new(vec![vec![Draw::Failed(String::from("never asked"))]]);
    let mut world = World::new(script, 1, vec![], vec![], vec![], 1).unwrap();
    assert_eq!(world.sample(), Ok(Sample { values: vec![] }));
    assert_eq!(world.trial(), Ok(Some(Sample { values: vec![] })));
    assert_eq!(world.into_source().asked, [0]);
}

#[test]
fn a_failed_construction_is_an_error_value() {
    let script = Script::new(vec![vec![Draw::Failed(String::from("illegal probability `1.5`"))]]);
    let mut world = World::new(script, 1, vec![], vec![], vec![0], 10).unwrap();
    assert_eq!(
        world.sample(),
        Err(SampleError::DistributionConstruction(String::from("illegal probability `1.5`")))
    );
    // the error ended the call at the first draw
    assert_eq!(world.into_source().asked, [1]);
}

// One variable, distributed as Bernoulli(p).
struct Coin<R> {
    rng: R,
    p: f64,
}

impl<R: Rng> Source for Coin<R> {
    fn draw(&mut self, _variable: usize, _cells: &Vec<FeOption<Value>>) -> Draw {
        draw_bool(Bernoulli::new(self.p), &mut self.rng)
    }
}

#[test]
fn a_probability_out_of_range_is_not_clamped() {
    for p in [-0.01, 1.01, 1.5, f64::NAN] {
        let coin = Coin { rng: rand::thread_rng(), p };
        let mut world = World::new(coin, 1, vec![], vec![], vec![0], 10).unwrap();
        assert_eq!(
            world.sample(),
            Err(SampleError::DistributionConstruction(format!(
                "Bernoulli: illegal probability `{}` should be between 0 and 1",
                p
            )))
        );
    }
    // both extremes are probabilities, and certain
    for (p, outcome) in [(0.0, false), (1.0, true)] {
        let coin = Coin { rng: rand::thread_rng(), p };
        let mut world = World::new(coin, 1, vec![], vec![], vec![0], 10).unwrap();
        for _ in 0..100 {
            assert_eq!(world.sample(), Ok(Sample { values: vec![Value::Bool(outcome)] }));
        }
    }
}

#[test]
fn a_draw_is_a_value_or_a_failure() {
    let mut rng = rand::thread_rng();
    assert_eq!(draw_count(Ok(Always(7)), &mut rng), Draw::Value(Value::Count(7)));
    assert_eq!(
        draw_count(Err::<Always, String>(String::from("no rate")), &mut rng),
        Draw::Failed(String::from("no rate"))
    );
    assert_eq!(draw_bool(Bernoulli::new(1.0), &mut rng), Draw::Value(Value::Bool(true)));
    assert_eq!(
        draw_bool(Bernoulli::new(2.0), &mut rng),
        Draw::Failed(String::from("Bernoulli: illegal probability `2` should be between 0 and 1"))
    );
}

#[test]
fn a_cycle_is_reported() {
    // 0 reads 1, 1 reads 0
    let script = Script::new(vec![vec![Draw::Needs(1)], vec![Draw::Needs(0)]]);
    let mut world = World::new(script, 2, vec![], vec![], vec![0], 10).unwrap();
    assert_eq!(world.eval(0), Err(SampleError::CyclicDependency));
    assert_eq!(world.sample(), Err(SampleError::CyclicDependency));
    // a variable that reads itself
    let script = Script::new(vec![vec![Draw::Needs(0)]]);
    let mut world = World::new(script, 1, vec![], vec![], vec![], 10).unwrap();
    assert_eq!(world.eval(0), Err(SampleError::CyclicDependency));
}

#[test]
fn a_dependency_that_cannot_be_met_is_reported() {
    // a variable that does not exist
    let script = Script::new(vec![vec![Draw::Needs(5)]]);
    let mut world = World::new(script, 1, vec![], vec![], vec![], 10).unwrap();
    assert_eq!(world.eval(0), Err(SampleError::UnresolvedAccess));
    assert_eq!(world.eval(1), Err(SampleError::UnresolvedAccess));
    // a variable whose value is there to be read
    let script = Script::new(vec![vec![Draw::Value(Value::Bool(true))], vec![Draw::Needs(0)]]);
    let mut world = World::new(script, 2, vec![], vec![], vec![], 10).unwrap();
    assert_eq!(world.eval(0), Ok(Value::Bool(true)));
    assert_eq!(world.eval(1), Err(SampleError::UnresolvedAccess));
}

#[test]
fn a_value_is_held_against_the_evidence() {
    assert_eq!(judge(Ok(Value::Bool(true)), Value::Bool(true)), Verdict::Agrees);
    assert_eq!(judge(Ok(Value::Bool(false)), Value::Bool(true)), Verdict::Rejects);
    assert_eq!(judge(Ok(Value::Count(1)), Value::Bool(true)), Verdict::Rejects);
    assert_eq!(judge(Ok(Value::Count(3)), Value::Count(3)), Verdict::Agrees);
    assert_eq!(
        judge(Err(SampleError::CyclicDependency), Value::Count(3)),
        Verdict::Fails(SampleError::CyclicDependency)
    );
    assert_eq!(
        judge(Err(SampleError::DistributionConstruction(String::from("no"))), Value::Count(3)),
        Verdict::Fails(SampleError::DistributionConstruction(String::from("no")))
    );
}

#[test]
fn a_trial_is_followed_by_the_next_or_by_the_end() {
    let sample = || Sample { values: vec![Value::Count(1)] };
    // an accepted trial ends the sampling, whatever the count
    assert_eq!(after_trial(1, 5, Ok(Some(sample()))), Some(Ok(sample())));
    assert_eq!(after_trial(5, 5, Ok(Some(sample()))), Some(Ok(sample())));
    // a rejected one is followed by the next, up to the limit
    assert_eq!(after_trial(1, 5, Ok(None)), None);
    assert_eq!(after_trial(4, 5, Ok(None)), None);
    assert_eq!(after_trial(5, 5, Ok(None)), Some(Err(SampleError::EvidenceUnreachable)));
    assert_eq!(after_trial(1, 1, Ok(None)), Some(Err(SampleError::EvidenceUnreachable)));
    // an error ends it at once
    assert_eq!(
        after_trial(1, 5, Err(SampleError::UnresolvedAccess)),
        Some(Err(SampleError::UnresolvedAccess))
    );
}

#[test]
fn the_parts_of_a_trial_can_be_run_one_by_one() {
    let script = Script::new(vec![
        vec![Draw::Value(Value::Bool(true))],
        vec![Draw::Needs(0), Draw::Value(Value::Count(3))],
    ]);
    let mut world = World::new(script, 2, vec![1], vec![Value::Count(3)], vec![0, 1], 5).unwrap();
    world.reset();
    assert_eq!(world.check_evidence(), Ok(true));
    assert_eq!(world.collect_answers(), Ok(Sample { values: vec![Value::Bool(true), Value::Count(3)] }));
    // the observed variable was asked for first, then what it needs, then it again
    assert_eq!(world.into_source().asked, [1, 2]);
}

#[test]
fn each_answer_is_settled() {
    let known = FeOption::Known(Value::Bool(true));
    let start = || (vec![known, FeOption::Unknown, FeOption::Unknown], vec![2usize]);

    let (mut cells, mut stack) = start();
    assert_eq!(settle(&mut cells, &mut stack, Draw::Value(Value::Count(5))), Ok(()));
    assert_eq!(cells, [known, FeOption::Unknown, FeOption::Known(Value::Count(5))]);
    assert_eq!(stack, []);

    let (mut cells, mut stack) = start();
    assert_eq!(settle(&mut cells, &mut stack, Draw::Needs(1)), Ok(()));
    assert_eq!(cells, [known, FeOption::Unknown, FeOption::Unknown]);
    assert_eq!(stack, [2, 1]);

    let (mut cells, mut stack) = start();
    assert_eq!(settle(&mut cells, &mut stack, Draw::Needs(2)), Err(SampleError::CyclicDependency));
    assert_eq!(settle(&mut cells, &mut stack, Draw::Needs(0)), Err(SampleError::UnresolvedAccess));
    assert_eq!(settle(&mut cells, &mut stack, Draw::Needs(3)), Err(SampleError::UnresolvedAccess));
    assert_eq!(
        settle(&mut cells, &mut stack, Draw::Failed(String::from("no"))),
        Err(SampleError::DistributionConstruction(String::from("no")))
    );
    assert_eq!(cells, [known, FeOption::Unknown, FeOption::Unknown]);
    assert_eq!(stack, [2]);
    // with no evaluation under way there is nothing to settle
    let mut idle: Vec<usize> = vec![];
    assert_eq!(
        settle(&mut cells, &mut idle, Draw::Value(Value::Count(1))),
        Err(SampleError::UnresolvedAccess)
    );
    assert_eq!(cells, [known, FeOption::Unknown, FeOption::Unknown]);
}

#[test]
fn a_session_needs_its_evidence_and_its_variables() {
    let script = || Script::new(vec![vec![Draw::Value(Value::Bool(true))]]);
    assert!(World::new(script(), 1, vec![0], vec![Value::Bool(true)], vec![0], 1).is_some());
    // evidence missing
    assert!(World::new(script(), 1, vec![0], vec![], vec![0], 1).is_none());
    // evidence for nothing
    assert!(World::new(script(), 1, vec![], vec![Value::Bool(true)], vec![0], 1).is_none());
    // an observed variable that does not exist
    assert!(World::new(script(), 1, vec![1], vec![Value::Bool(true)], vec![0], 1).is_none());
    // a queried variable that does not exist
    assert!(World::new(script(), 1, vec![0], vec![Value::Bool(true)], vec![0, 1], 1).is_none());
}

fn convert(stream: proc_macro2::TokenStream, next: &mut usize) -> Vec<Token> {
    let mut out = Vec::new();
    for tree in stream {
        *next += 1;
        let span = Span { line: 1, column: *next };
        out.push(match tree {
            proc_macro2::TokenTree::Ident(i) => Token::Ident { name: i.to_string(), span },
            proc_macro2::TokenTree::Punct(p) => Token::Punct {
                ch: p.as_char(),
                joint: p.spacing() == proc_macro2::Spacing::Joint,
                span,
            },
            proc_macro2::TokenTree::Literal(l) => Token::Literal { text: l.to_string(), span },
            proc_macro2::TokenTree::Group(g) => {
                let delimiter = match g.delimiter() {
                    proc_macro2::Delimiter::Parenthesis => Delimiter::Parenthesis,
                    proc_macro2::Delimiter::Brace => Delimiter::Brace,
                    proc_macro2::Delimiter::Bracket => Delimiter::Bracket,
                    proc_macro2::Delimiter::None => Delimiter::Invisible,
                };
                Token::Group { delimiter, stream: convert(g.stream(), next), span }
            }
        });
    }
    out
}

#[test]
fn a_session_for_a_model_follows_its_declarations() {
    let stream: proc_macro2::TokenStream =
        "mod m; let a : bool ~ A; let b : u64 ~ B; let c : bool ~ C; query c; observe b; query a;"
            .parse()
            .unwrap();
    let model = analyze(ModelAst::parse(&convert(stream, &mut 0)).unwrap()).unwrap();
    let script = || {
        Script::new(vec![
            vec![Draw::Value(Value::Bool(true))],
            vec![Draw::Value(Value::Count(2))],
            vec![Draw::Value(Value::Bool(false))],
        ])
    };
    // one value for the one observed variable
    assert!(World::for_model(script(), &model, vec![], 1).is_none());
    assert!(World::for_model(script(), &model, vec![Value::Count(2), Value::Count(2)], 1).is_none());
    let mut world = World::for_model(script(), &model, vec![Value::Count(2)], 1).unwrap();
    // the sample holds a, then c: the order of the declarations, not of the queries
    assert_eq!(world.sample(), Ok(Sample { values: vec![Value::Bool(true), Value::Bool(false)] }));
    let mut world = World::for_model(script(), &model, vec![Value::Count(3)], 4).unwrap();
    assert_eq!(world.sample(), Err(SampleError::EvidenceUnreachable));
}

// P( Rain | Grass Is Wet ) = .3577
#[test]
fn posterior_of_rain_given_wet_grass() {
    let mut world = grass_world(u64::MAX);
    let num_samples = 100000;
    let ans = 0.3577f64;
    let err = 5.0 * (ans * (1.0 - ans) / (num_samples as f64)).sqrt(); // 5 sigma error
    let mut rain = 0;
    for _ in 0..num_samples {
        if world.sample().unwrap().values[0] == Value::Bool(true) {
            rain += 1;
        }
    }
    let post_rain = (rain as f64) / (num_samples as f64);
    println!("post_rain is {}", post_rain);
    assert!(post_rain > (ans - err) && post_rain < (ans + err));
}
