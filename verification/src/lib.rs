//! A Lindenmayer-system library: a string-rewriting engine that expands a
//! seed string generation by generation according to prefix-match rules, and
//! a turtle-graphics state machine that turns a finished generation into an
//! ordered sequence of line segments for an external rasterizer.

pub mod action;
pub mod builder;
pub mod l_system;
pub mod render;
pub mod rule;

pub use action::{Action, ActionTable, Scalar};
pub use builder::{BuildError, Builder};
pub use l_system::{Error, LSystem};
pub use render::{Point, Segment, Turtle, TurtleOp, TurtleState};
pub use rule::{Match, Rule};
