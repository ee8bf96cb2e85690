//! Ferric compiles a declarative description of a Bayesian network into a
//! sampler that answers queries by rejection sampling.
//!
//! A description names a model, imports distributions, declares random
//! variables, each with the expression of the distribution it is drawn from,
//! and says which variables are observed and which are queried:
//!
//! ```text
//! mod grass;
//! use distributions::Bernoulli;
//! let rain : bool ~ Bernoulli::new(0.2);
//! let sprinkler : bool ~ if rain { Bernoulli::new(0.01) } else { Bernoulli::new(0.4) };
//! observe sprinkler;
//! query rain;
//! ```
//!
//! The compiler has three stages: [`parse`] turns the tokens of a description
//! into a syntax tree, [`analyze`] turns the tree into the table of the model's
//! variables, and [`codegen`] turns the table into the source of a module that
//! holds the sampler, by filling in a [`template`]. [`compile`] runs the three
//! in turn.
//!
//! [`world`] is the sampler itself, for models that are not compiled: memo
//! cells, lazy evaluation and rejection, over distributions that the caller
//! provides.

pub mod analyze;
pub mod codegen;
pub mod compile;
pub mod distributions;
pub mod feoption;
pub mod parse;
pub mod syntax;
pub mod template;
pub mod token;
pub mod world;

pub use compile::make_model;
pub use feoption::FeOption;
pub use feoption::FeOption::{Known, Null, Unknown};
pub use world::SampleError;
