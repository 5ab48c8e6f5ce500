//! Capability traits that a concrete logic language must implement for the
//! engine to run on its terms, clause heads and substitution environments.
//!
//! Each executable operation is pinned to a spec-level counterpart declared in
//! the same trait, so that the engine's own contracts can speak about the
//! results of the operations without knowing the concrete representation.

use vstd::prelude::*;

verus! {

/// Human-readable rendering of a term-layer value. The engine never calls it;
/// it is offered to implementations for diagnostics and tests.
pub trait PrettyPrint {
    fn pretty_print(&self) -> String;
}

/// Renaming of logic variables, plus value duplication.
///
/// `rename(index)` returns a copy of the value in which every logic variable
/// is stamped with `index`, the freshness index of the recursion depth that
/// consumes the value. The engine renames a clause head before unification and
/// the clause body only after unification succeeds, always on a fresh copy:
/// the clause database is never mutated.
pub trait Rename: Sized {
    /// What `rename` returns, as a function of the value and the index.
    spec fn rename_spec(self, index: usize) -> Self;

    fn rename(&self, index: usize) -> (r: Self)
        ensures
            r == self.rename_spec(index),
    ;

    /// An exact copy. The engine duplicates the goals that a fork must hand
    /// to both of its successor choice points.
    fn dup(&self) -> (r: Self)
        ensures
            r == *self,
    ;
}

/// Application of a substitution environment to a goal. Pure: the environment
/// is read, never changed.
pub trait Subst<Env> {
    /// The substituted form of the goal, ready to be unified against a head.
    type Res;

    /// What `subst` returns, as a function of the goal and the environment.
    spec fn subst_spec(self, env: Env) -> Self::Res;

    fn subst(&self, env: &Env) -> (r: Self::Res)
        ensures
            r == self.subst_spec(*env),
    ;
}

/// Unification of a substituted goal against a renamed clause head.
///
/// On success the most general unifier is written into `env`; an `Err` means
/// the two sides do not unify and is never fatal: the engine absorbs it and
/// moves to the next clause.
pub trait Unify<Head, Env>: Sized {
    type Err;

    /// Whether the value unifies with `other`, starting from the bindings
    /// already present in `env_in`.
    spec fn unifies(self, other: Head, env_in: Env) -> bool;

    /// The most general unifier written on success, as a function of the two
    /// sides and the incoming bindings.
    spec fn mgu_spec(self, other: Head, env_in: Env) -> Env;

    fn unify(&self, other: &Head, env: &mut Env) -> (r: Result<(), Self::Err>)
        ensures
            r is Ok <==> self.unifies(*other, *old(env)),
            r is Ok ==> *final(env) == self.mgu_spec(*other, *old(env)),
    ;
}

/// A substitution environment: the identity substitution and composition.
///
/// `a.compose(b)` is the substitution "apply `b`, then `a`". Composing with
/// the identity on either side must give back the same environment; the proof
/// obligation `lemma_compose_empty` holds every implementation to that law.
pub trait EnvTrait: Sized {
    /// The value `empty` returns.
    spec fn empty_spec() -> Self;

    /// The value `compose` returns, as a function of the two environments.
    spec fn compose_spec(self, other: Self) -> Self;

    fn empty() -> (r: Self)
        ensures
            r == Self::empty_spec(),
    ;

    fn compose(self, other: &Self) -> (r: Self)
        ensures
            r == self.compose_spec(*other),
    ;

    /// The identity substitution is a unit for composition.
    proof fn lemma_compose_empty(e: Self)
        ensures
            Self::empty_spec().compose_spec(e) == e,
            e.compose_spec(Self::empty_spec()) == e,
    ;
}

/// A user-supplied solver for primitive (non-database) goals.
///
/// Returning `Some(delta)` short-circuits clause resolution for the goal:
/// the engine composes `delta` onto the current environment and drops the
/// goal, consuming neither a clause nor a depth level. Returning `None`
/// defers the goal to the clause database.
pub trait Primitive<G, Env> {
    /// Whether the solver recognises the goal under the given bindings.
    spec fn prim_applies(&self, goal: G, env: Env) -> bool;

    /// The environment delta the solver returns when it applies.
    spec fn prim_delta(&self, goal: G, env: Env) -> Env;

    fn solve_primitive(&self, goal: &G, env: &Env) -> (r: Option<Env>)
        ensures
            r is Some <==> self.prim_applies(*goal, *env),
            r is Some ==> r->Some_0 == self.prim_delta(*goal, *env),
    ;
}

} // verus!
