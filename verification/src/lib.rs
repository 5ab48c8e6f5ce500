//! A generic SLD-resolution engine: the execution core of a logic-programming
//! interpreter, decoupled from any concrete term representation.
//!
//! The engine enumerates answer substitutions for a conjunction of goals
//! against an ordered clause database. Terms, heads, goal substitution,
//! unification and substitution environments are supplied by the user through
//! the capability traits in [`caps`]; the engine itself owns the choice-point
//! stack, the one-step clause resolver, the step dispatcher and the search
//! driver.

pub mod caps;
pub mod engine;
pub mod driver;

pub use caps::{EnvTrait, PrettyPrint, Primitive, Rename, Subst, Unify};
pub use engine::{resolve, resolve_one_step, CPoint, DBTrait, Soln};
pub use driver::{solve_goals, solve_goals_with, CPointIter, Strategy};
