//! The search driver: strategies, the choice-point stack and the lazy answer
//! stream.

use vstd::prelude::*;
use crate::caps::{EnvTrait, Primitive, Rename, Subst, Unify};
use crate::engine::{
    cp_model, dispatch_spec, first_match, lemma_first_match_bounds, resolve, soln_model, CPoint,
    CpModel, DBTrait, Soln, SolnM,
};

verus! {

/// The search policy over the choice-point tree.
#[derive(Clone, Copy)]
pub enum Strategy {
    /// Depth-first: pop the expansion before the retry.
    DFS,
    /// Pop the retry before the expansion. The stack stays a LIFO, so this
    /// explores alternatives for the current goal before descending; it is
    /// not a level-by-level breadth-first order.
    BFS,
    /// Depth-first, but a choice point deeper than the bound is never
    /// expanded: a sound, incomplete search. `DLS(0)` expands nothing, so it
    /// answers only goal sets that primitives alone can empty.
    DLS(usize),
}

/// The model of a whole choice-point stack, bottom first.
pub open spec fn stack_model<G, Env>(st: Seq<CPoint<G, Env>>) -> Seq<CpModel<G, Env>> {
    st.map_values(|c: CPoint<G, Env>| cp_model(c))
}

/// One driver step on a non-empty stack: pop the top choice point, dispatch
/// it, and push its successors as the strategy orders them. Returns the new
/// stack and the answer emitted, if any.
///
/// Under `DLS(n)` the expansion child of a fork is pushed only while its
/// depth stays within `n + 1`, that is, while its parent sat at depth at most
/// `n`: deeper expansion is refused and only the retry sibling survives.
pub open spec fn step_spec<G, H, Env, P>(
    db: Seq<(Seq<G>, H)>,
    p: P,
    strat: Strategy,
    st: Seq<CpModel<G, Env>>,
) -> (Seq<CpModel<G, Env>>, Option<Env>)
    where
        G: Subst<Env> + Rename,
        <G as Subst<Env>>::Res: Unify<H, Env>,
        H: Rename,
        Env: EnvTrait,
        P: Primitive<G, Env>,
    recommends
        st.len() > 0,
{
    let cp = st.last();
    let rest = st.drop_last();
    match dispatch_spec(db, cp, p) {
        SolnM::Res(env) => (rest, Some(env)),
        SolnM::Step(c) => (rest.push(c), None::<Env>),
        SolnM::Fork(c0, c1) => {
            let st2 = match strat {
                Strategy::DFS => rest.push(c1).push(c0),
                Strategy::BFS => rest.push(c0).push(c1),
                Strategy::DLS(n) => if c0.depth <= n + 1 {
                    rest.push(c1).push(c0)
                } else {
                    rest.push(c1)
                },
            };
            (st2, None::<Env>)
        }
        SolnM::NoRule => (rest, None::<Env>),
    }
}

/// Driver steps iterated until an answer is emitted, the stack empties, or
/// `fuel` steps have been taken; the answer sequence of a query is read off
/// by iterating this function. It is a function of the database's clause
/// order, the initial goals, the primitive solver and the strategy — which is
/// the clause-order determinism of the search.
pub open spec fn run_spec<G, H, Env, P>(
    db: Seq<(Seq<G>, H)>,
    p: P,
    strat: Strategy,
    st: Seq<CpModel<G, Env>>,
    fuel: nat,
) -> (Seq<CpModel<G, Env>>, Option<Env>)
    where
        G: Subst<Env> + Rename,
        <G as Subst<Env>>::Res: Unify<H, Env>,
        H: Rename,
        Env: EnvTrait,
        P: Primitive<G, Env>,
    decreases fuel,
{
    if st.len() == 0 || fuel == 0 {
        (st, None::<Env>)
    } else {
        let stepped = step_spec(db, p, strat, st);
        if stepped.1 is Some {
            stepped
        } else {
            run_spec(db, p, strat, stepped.0, (fuel - 1) as nat)
        }
    }
}

/// An answer is emitted only for a choice point whose goal set is empty, and
/// it is that choice point's accumulated environment; the rest of the stack
/// is untouched, so the search resumes exactly where it suspended.
pub proof fn lemma_answer_from_empty_goals<G, H, Env, P>(
    db: Seq<(Seq<G>, H)>,
    p: P,
    strat: Strategy,
    st: Seq<CpModel<G, Env>>,
)
    where
        G: Subst<Env> + Rename,
        <G as Subst<Env>>::Res: Unify<H, Env>,
        H: Rename,
        Env: EnvTrait,
        P: Primitive<G, Env>,
    requires
        st.len() > 0,
        step_spec(db, p, strat, st).1 is Some,
    ensures
        st.last().goals.len() == 0,
        step_spec(db, p, strat, st).1 == Some(st.last().env),
        step_spec(db, p, strat, st).0 == st.drop_last(),
{
}

/// One driver step under `DLS(n)` keeps every stacked depth within `n + 1`:
/// no answer out of a depth-limited search ever required an expansion beyond
/// the bound.
pub proof fn lemma_dls_depth_bound_step<G, H, Env, P>(
    db: Seq<(Seq<G>, H)>,
    p: P,
    n: usize,
    st: Seq<CpModel<G, Env>>,
)
    where
        G: Subst<Env> + Rename,
        <G as Subst<Env>>::Res: Unify<H, Env>,
        H: Rename,
        Env: EnvTrait,
        P: Primitive<G, Env>,
    requires
        st.len() > 0,
        forall|k: int| 0 <= k < st.len() ==> (#[trigger] st[k]).depth <= n + 1,
    ensures
        forall|k: int|
            0 <= k < step_spec(db, p, Strategy::DLS(n), st).0.len() ==> (#[trigger] step_spec(
                db,
                p,
                Strategy::DLS(n),
                st,
            ).0[k]).depth <= n + 1,
{
    let stepped = step_spec(db, p, Strategy::DLS(n), st);
    let cp = st.last();
    let rest = st.drop_last();
    assert forall|k: int| 0 <= k < rest.len() implies (#[trigger] rest[k]).depth <= n + 1 by {
        assert(rest[k] == st[k]);
    }
    match dispatch_spec(db, cp, p) {
        SolnM::Res(_) => {},
        SolnM::Step(c) => {
            assert(c.depth == cp.depth);
        },
        SolnM::Fork(c0, c1) => {
            assert(c1.depth == cp.depth);
        },
        SolnM::NoRule => {},
    }
}

/// A whole depth-limited run keeps every stacked depth within `n + 1`.
pub proof fn lemma_dls_depth_bound<G, H, Env, P>(
    db: Seq<(Seq<G>, H)>,
    p: P,
    n: usize,
    st: Seq<CpModel<G, Env>>,
    fuel: nat,
)
    where
        G: Subst<Env> + Rename,
        <G as Subst<Env>>::Res: Unify<H, Env>,
        H: Rename,
        Env: EnvTrait,
        P: Primitive<G, Env>,
    requires
        forall|k: int| 0 <= k < st.len() ==> (#[trigger] st[k]).depth <= n + 1,
    ensures
        forall|k: int|
            0 <= k < run_spec(db, p, Strategy::DLS(n), st, fuel).0.len() ==> (#[trigger] run_spec(
                db,
                p,
                Strategy::DLS(n),
                st,
                fuel,
            ).0[k]).depth <= n + 1,
    decreases fuel,
{
    if st.len() == 0 || fuel == 0 {
    } else {
        lemma_dls_depth_bound_step(db, p, n, st);
        let stepped = step_spec(db, p, Strategy::DLS(n), st);
        if stepped.1 is Some {
            assert(run_spec(db, p, Strategy::DLS(n), st, fuel).0 == stepped.0);
        } else {
            lemma_dls_depth_bound(db, p, n, stepped.0, (fuel - 1) as nat);
            assert(run_spec(db, p, Strategy::DLS(n), st, fuel).0 == run_spec(
                db,
                p,
                Strategy::DLS(n),
                stepped.0,
                (fuel - 1) as nat,
            ).0);
        }
    }
}

/// The lazy stream of answer environments: the choice-point stack together
/// with the database, the primitive solver and the strategy.
pub struct CPointIter<DB: DBTrait, Env, P> {
    pub clause_db: DB,
    pub cpoints: Vec<CPoint<DB::Goal, Env>>,
    pub solve_primitive: P,
    pub strategy: Strategy,
}

impl<DB: DBTrait, Env, P> CPointIter<DB, Env, P> {
    /// Every stacked cursor stays within the database.
    pub open spec fn wf(&self) -> bool {
        forall|k: int|
            0 <= k < self.cpoints@.len() ==> (#[trigger] self.cpoints@[k]).db
                <= self.clause_db.clauses().len()
    }

    /// The search is exhausted once the stack is empty: later calls to
    /// `next` can yield nothing more.
    pub fn is_exhausted(&self) -> (r: bool)
        ensures
            r == (self.cpoints@.len() == 0),
    {
        self.cpoints.len() == 0
    }
}

impl<DB, Env, P> CPointIter<DB, Env, P>
    where
        DB: DBTrait,
        DB::Goal: Subst<Env> + Rename,
        <DB::Goal as Subst<Env>>::Res: Unify<DB::Head, Env>,
        DB::Head: Rename,
        Env: EnvTrait,
        P: Primitive<DB::Goal, Env>,
{
    /// Pop, dispatch and push until an answer is found, the stack empties, or
    /// `fuel` choice points have been dispatched; suspension costs nothing
    /// beyond the stack itself. `None` with a non-empty stack means the fuel
    /// ran out; `None` with an empty stack means the search is exhausted.
    pub fn next(&mut self, fuel: usize) -> (r: Option<Env>)
        requires
            old(self).wf(),
        ensures
            final(self).wf(),
            final(self).clause_db == old(self).clause_db,
            final(self).solve_primitive == old(self).solve_primitive,
            final(self).strategy == old(self).strategy,
            ({
                let outcome = run_spec(
                    old(self).clause_db.clauses(),
                    old(self).solve_primitive,
                    old(self).strategy,
                    stack_model(old(self).cpoints@),
                    fuel as nat,
                );
                stack_model(final(self).cpoints@) == outcome.0 && r == outcome.1
            }),
    {
        let ghost db_s = self.clause_db.clauses();
        let ghost p_s = self.solve_primitive;
        let ghost strat_s = self.strategy;
        let ghost st0 = stack_model(self.cpoints@);
        let mut fuel_left: usize = fuel;
        loop
            invariant
                self.wf(),
                self.clause_db == old(self).clause_db,
                self.solve_primitive == old(self).solve_primitive,
                self.strategy == old(self).strategy,
                db_s == old(self).clause_db.clauses(),
                p_s == old(self).solve_primitive,
                strat_s == old(self).strategy,
                st0 == stack_model(old(self).cpoints@),
                fuel_left <= fuel,
                run_spec(db_s, p_s, strat_s, st0, fuel as nat) == run_spec(
                    db_s,
                    p_s,
                    strat_s,
                    stack_model(self.cpoints@),
                    fuel_left as nat,
                ),
            decreases fuel_left,
        {
            let ghost pre = stack_model(self.cpoints@);
            if self.cpoints.len() == 0 {
                return None;
            }
            if fuel_left == 0 {
                return None;
            }
            let cp = self.cpoints.pop().unwrap();
            proof {
                assert(cp_model(cp) == pre.last());
                assert(stack_model(self.cpoints@) =~= pre.drop_last());
            }
            let soln = resolve(&self.clause_db, cp, &self.solve_primitive);
            let ghost stepped = step_spec(db_s, p_s, strat_s, pre);
            fuel_left = fuel_left - 1;
            match soln {
                Soln::Res(env) => {
                    proof {
                        assert(stepped.0 == stack_model(self.cpoints@));
                        assert(stepped.1 == Some(env));
                    }
                    return Some(env);
                },
                Soln::CPoint(c) => {
                    proof {
                        assert(cp_model(c).db == pre.last().db);
                        assert(c.db <= db_s.len());
                    }
                    self.cpoints.push(c);
                    proof {
                        assert(stack_model(self.cpoints@) =~= stepped.0);
                    }
                },
                Soln::CPoints(c0, c1) => {
                    proof {
                        assert(soln_model(Soln::CPoints(c0, c1)) == dispatch_spec(
                            db_s,
                            pre.last(),
                            p_s,
                        ));
                        let cpm = pre.last();
                        let i = first_match(db_s, cpm.goals[0], cpm.env, cpm.depth, cpm.db as int);
                        lemma_first_match_bounds(db_s, cpm.goals[0], cpm.env, cpm.depth, cpm.db as int);
                        assert(0 <= i < db_s.len());
                        assert(cp_model(c1).db == (i + 1) as usize);
                        assert(c1.db <= db_s.len());
                        assert(c0.db == 0);
                    }
                    match self.strategy {
                        Strategy::DFS => {
                            self.cpoints.push(c1);
                            self.cpoints.push(c0);
                        },
                        Strategy::BFS => {
                            self.cpoints.push(c0);
                            self.cpoints.push(c1);
                        },
                        Strategy::DLS(n) => {
                            self.cpoints.push(c1);
                            if c0.depth - 1 <= n {
                                self.cpoints.push(c0);
                            }
                        },
                    }
                    proof {
                        assert(stack_model(self.cpoints@) =~= stepped.0);
                    }
                },
                Soln::NoRule => {
                    proof {
                        assert(stack_model(self.cpoints@) =~= stepped.0);
                    }
                },
            }
        }
    }
}

/// Build the answer stream for `goals` against `db`: one root choice point
/// holding the whole database, the given environment and depth 1.
pub fn solve_goals_with<DB: DBTrait, Env, P>(
    db: DB,
    goals: Vec<DB::Goal>,
    env: Env,
    solve_primitive: P,
    strategy: Strategy,
) -> (r: CPointIter<DB, Env, P>)
    ensures
        r.wf(),
        r.clause_db == db,
        r.solve_primitive == solve_primitive,
        r.strategy == strategy,
        stack_model(r.cpoints@) =~= seq![
            (CpModel { goals: goals@, env: env, db: 0, depth: 1 }),
        ],
{
    let root = CPoint::new(goals, env, 0);
    let mut cpoints: Vec<CPoint<DB::Goal, Env>> = Vec::new();
    cpoints.push(root);
    CPointIter { clause_db: db, cpoints, solve_primitive, strategy }
}

/// `solve_goals_with` with the identity environment and depth-first search.
pub fn solve_goals<DB: DBTrait, Env: EnvTrait, P>(
    db: DB,
    goals: Vec<DB::Goal>,
    solve_primitive: P,
) -> (r: CPointIter<DB, Env, P>)
    ensures
        r.wf(),
        r.clause_db == db,
        r.solve_primitive == solve_primitive,
        r.strategy == Strategy::DFS,
        stack_model(r.cpoints@) =~= seq![
            (CpModel { goals: goals@, env: Env::empty_spec(), db: 0, depth: 1 }),
        ],
{
    solve_goals_with(db, goals, Env::empty(), solve_primitive, Strategy::DFS)
}

} // verus!
