//! Choice points, the clause database interface, the one-step resolver and
//! the step dispatcher.

use vstd::prelude::*;
use crate::caps::{EnvTrait, Primitive, Rename, Subst, Unify};

verus! {

/// An immutable snapshot of a search state.
///
/// `db` is a cursor into the clause database: the clauses at indices
/// `db..` are the suffix still to be tried for the first goal of `goals`.
/// `depth` is the renaming index stamped onto any clause consumed at this
/// level; it is at least 1 and strictly increases along expansion chains.
pub struct CPoint<G, Env> {
    pub goals: Vec<G>,
    pub env: Env,
    pub db: usize,
    pub depth: usize,
}

impl<G, Env> CPoint<G, Env> {
    /// A fresh root choice point at depth 1.
    pub fn new(goals: Vec<G>, env: Env, db: usize) -> (r: Self)
        ensures
            r.goals == goals,
            r.env == env,
            r.db == db,
            r.depth == 1,
    {
        Self { goals, env, db, depth: 1 }
    }
}

/// What the step dispatcher says about one choice point: an answer, a single
/// successor, a fork into two successors, or a dead branch.
pub enum Soln<G, Env> {
    /// Fork: first the expansion into the matched clause, then the retry of
    /// later clauses for the same goal.
    CPoints(CPoint<G, Env>, CPoint<G, Env>),
    /// A single successor: a primitive solved the first goal.
    CPoint(CPoint<G, Env>),
    /// An answer: the goal set is exhausted.
    Res(Env),
    /// No clause matched; the branch dies.
    NoRule,
}

/// An ordered, indexable clause database. A clause is a `(body, head)` pair;
/// the engine never mutates the database, it only reads clauses and keeps
/// cursors into it.
pub trait DBTrait: Sized {
    type Goal;
    type Head;

    /// The database as a mathematical sequence of `(body, head)` clauses.
    spec fn clauses(&self) -> Seq<(Seq<Self::Goal>, Self::Head)>;

    fn num_clauses(&self) -> (r: usize)
        ensures
            r == self.clauses().len(),
    ;

    fn clause_at(&self, i: usize) -> (r: &(Vec<Self::Goal>, Self::Head))
        requires
            i < self.clauses().len(),
        ensures
            r.0@ == self.clauses()[i as int].0,
            r.1 == self.clauses()[i as int].1,
    ;
}

impl<G, H> DBTrait for Vec<(Vec<G>, H)> {
    type Goal = G;
    type Head = H;

    open spec fn clauses(&self) -> Seq<(Seq<G>, H)> {
        self@.map_values(|c: (Vec<G>, H)| (c.0@, c.1))
    }

    fn num_clauses(&self) -> (r: usize) {
        self.len()
    }

    fn clause_at(&self, i: usize) -> (r: &(Vec<G>, H)) {
        &self[i]
    }
}

/// The mathematical content of a choice point: the goal sequence, the
/// environment, the database cursor and the depth.
#[verifier::ext_equal]
pub struct CpModel<G, Env> {
    pub goals: Seq<G>,
    pub env: Env,
    pub db: usize,
    pub depth: usize,
}

pub open spec fn cp_model<G, Env>(cp: CPoint<G, Env>) -> CpModel<G, Env> {
    CpModel { goals: cp.goals@, env: cp.env, db: cp.db, depth: cp.depth }
}

/// The mathematical content of a dispatcher verdict.
#[verifier::ext_equal]
pub enum SolnM<G, Env> {
    Fork(CpModel<G, Env>, CpModel<G, Env>),
    Step(CpModel<G, Env>),
    Res(Env),
    NoRule,
}

pub open spec fn soln_model<G, Env>(s: Soln<G, Env>) -> SolnM<G, Env> {
    match s {
        Soln::CPoints(c0, c1) => SolnM::Fork(cp_model(c0), cp_model(c1)),
        Soln::CPoint(c) => SolnM::Step(cp_model(c)),
        Soln::Res(e) => SolnM::Res(e),
        Soln::NoRule => SolnM::NoRule,
    }
}

/// Whether `goal`, substituted under `env`, unifies with the head of
/// `clause` once that head is renamed with `depth`.
pub open spec fn goal_matches_clause<G, H, Env>(
    goal: G,
    env: Env,
    clause: (Seq<G>, H),
    depth: usize,
) -> bool
    where
        G: Subst<Env>,
        <G as Subst<Env>>::Res: Unify<H, Env>,
        H: Rename,
        Env: EnvTrait,
{
    goal.subst_spec(env).unifies(clause.1.rename_spec(depth), Env::empty_spec())
}

/// The environment a successful match returns: the most general unifier of
/// the substituted goal against the renamed head, composed onto `env`.
pub open spec fn match_env<G, H, Env>(goal: G, env: Env, clause: (Seq<G>, H), depth: usize) -> Env
    where
        G: Subst<Env>,
        <G as Subst<Env>>::Res: Unify<H, Env>,
        H: Rename,
        Env: EnvTrait,
{
    goal.subst_spec(env).mgu_spec(clause.1.rename_spec(depth), Env::empty_spec()).compose_spec(env)
}

/// The index of the first clause at or after `start` that matches `goal`, or
/// `db.len()` when none does.
pub open spec fn first_match<G, H, Env>(
    db: Seq<(Seq<G>, H)>,
    goal: G,
    env: Env,
    depth: usize,
    start: int,
) -> int
    where
        G: Subst<Env>,
        <G as Subst<Env>>::Res: Unify<H, Env>,
        H: Rename,
        Env: EnvTrait,
    decreases db.len() - start,
{
    if start < 0 || start >= db.len() {
        db.len() as int
    } else if goal_matches_clause(goal, env, db[start], depth) {
        start
    } else {
        first_match(db, goal, env, depth, start + 1)
    }
}

pub proof fn lemma_first_match_bounds<G, H, Env>(
    db: Seq<(Seq<G>, H)>,
    goal: G,
    env: Env,
    depth: usize,
    start: int,
)
    where
        G: Subst<Env>,
        <G as Subst<Env>>::Res: Unify<H, Env>,
        H: Rename,
        Env: EnvTrait,
    requires
        0 <= start <= db.len(),
    ensures
        start <= first_match(db, goal, env, depth, start) <= db.len(),
    decreases db.len() - start,
{
    if start < db.len() && !goal_matches_clause(goal, env, db[start], depth) {
        lemma_first_match_bounds(db, goal, env, depth, start + 1);
    }
}

proof fn lemma_first_match_found<G, H, Env>(
    db: Seq<(Seq<G>, H)>,
    goal: G,
    env: Env,
    depth: usize,
    start: int,
    i: int,
)
    where
        G: Subst<Env>,
        <G as Subst<Env>>::Res: Unify<H, Env>,
        H: Rename,
        Env: EnvTrait,
    requires
        0 <= start <= i < db.len(),
        forall|j: int| start <= j < i ==> !goal_matches_clause(goal, env, db[j], depth),
        goal_matches_clause(goal, env, db[i], depth),
    ensures
        first_match(db, goal, env, depth, start) == i,
    decreases i - start,
{
    if start < i {
        lemma_first_match_found(db, goal, env, depth, start + 1, i);
    }
}

proof fn lemma_first_match_none<G, H, Env>(
    db: Seq<(Seq<G>, H)>,
    goal: G,
    env: Env,
    depth: usize,
    start: int,
)
    where
        G: Subst<Env>,
        <G as Subst<Env>>::Res: Unify<H, Env>,
        H: Rename,
        Env: EnvTrait,
    requires
        0 <= start <= db.len(),
        forall|j: int| start <= j < db.len() ==> !goal_matches_clause(goal, env, db[j], depth),
    ensures
        first_match(db, goal, env, depth, start) == db.len(),
    decreases db.len() - start,
{
    if start < db.len() {
        lemma_first_match_none(db, goal, env, depth, start + 1);
    }
}

/// Rename every goal of a goal set with `index`, on a fresh copy.
pub fn rename_goals<G: Rename>(goals: &Vec<G>, index: usize) -> (r: Vec<G>)
    ensures
        r@ == goals@.map_values(|g: G| g.rename_spec(index)),
{
    let mut r: Vec<G> = Vec::new();
    let n = goals.len();
    let mut i: usize = 0;
    while i < n
        invariant
            i <= n == goals@.len(),
            r@.len() == i,
            forall|k: int| 0 <= k < i ==> r@[k] == goals@[k].rename_spec(index),
        decreases n - i,
    {
        r.push(goals[i].rename(index));
        i = i + 1;
    }
    proof {
        assert(r@ =~= goals@.map_values(|g: G| g.rename_spec(index)));
    }
    r
}

/// Scan the database from `start` for the first clause whose renamed head
/// unifies with `goal` under `env`; return the renamed clause body, the
/// composed environment and the cursor just past the matched clause.
///
/// The returned cursor is strictly past the match, so a retry at the same
/// depth can never select the same clause again. Unification failures are
/// absorbed: the scan simply moves to the next clause.
pub fn resolve_one_step<DB, Env>(
    db: &DB,
    goal: &DB::Goal,
    env: &Env,
    start: usize,
    renaming_index: usize,
) -> (r: Option<(Vec<DB::Goal>, Env, usize)>)
    where
        DB: DBTrait,
        DB::Goal: Subst<Env> + Rename,
        <DB::Goal as Subst<Env>>::Res: Unify<DB::Head, Env>,
        DB::Head: Rename,
        Env: EnvTrait,
    requires
        start <= db.clauses().len(),
    ensures
        ({
            let fm = first_match(db.clauses(), *goal, *env, renaming_index, start as int);
            match r {
                Some(t) => {
                    &&& fm < db.clauses().len()
                    &&& t.2 == fm + 1
                    &&& t.0@ == db.clauses()[fm].0.map_values(
                        |g: DB::Goal| g.rename_spec(renaming_index),
                    )
                    &&& t.1 == match_env(*goal, *env, db.clauses()[fm], renaming_index)
                }
                None => fm == db.clauses().len(),
            }
        }),
{
    let n = db.num_clauses();
    let mut i: usize = start;
    while i < n
        invariant
            start <= i <= n,
            n == db.clauses().len(),
            forall|j: int|
                start <= j < i ==> !goal_matches_clause(
                    *goal,
                    *env,
                    db.clauses()[j],
                    renaming_index,
                ),
        decreases n - i,
    {
        let clause = db.clause_at(i);
        let head = clause.1.rename(renaming_index);
        let sub_goal = goal.subst(env);
        let mut new_env = Env::empty();
        let res = sub_goal.unify(&head, &mut new_env);
        match res {
            Ok(_) => {
                proof {
                    assert(goal_matches_clause(*goal, *env, db.clauses()[i as int], renaming_index));
                    lemma_first_match_found(
                        db.clauses(),
                        *goal,
                        *env,
                        renaming_index,
                        start as int,
                        i as int,
                    );
                }
                let ret_env = new_env.compose(env);
                let new_body = rename_goals(&clause.0, renaming_index);
                return Some((new_body, ret_env, i + 1));
            }
            Err(_) => {
                i = i + 1;
            }
        }
    }
    proof {
        lemma_first_match_none(db.clauses(), *goal, *env, renaming_index, start as int);
    }
    None
}

/// What the step dispatcher decides for a choice point, at the level of the
/// mathematical model. The dispatcher's verdict is a function of the clause
/// database, the choice point and the primitive solver — nothing else — which
/// is what makes the answer order deterministic.
///
/// A choice point whose depth has reached the largest representable index can
/// no longer be expanded (a fresh renaming index would not exist) and is
/// treated as a dead branch.
pub open spec fn dispatch_spec<G, H, Env, P>(
    db: Seq<(Seq<G>, H)>,
    cp: CpModel<G, Env>,
    p: P,
) -> SolnM<G, Env>
    where
        G: Subst<Env> + Rename,
        <G as Subst<Env>>::Res: Unify<H, Env>,
        H: Rename,
        Env: EnvTrait,
        P: Primitive<G, Env>,
{
    if cp.goals.len() == 0 {
        SolnM::Res(cp.env)
    } else {
        let g = cp.goals[0];
        let rest = cp.goals.subrange(1, cp.goals.len() as int);
        if p.prim_applies(g, cp.env) {
            SolnM::Step(
                CpModel {
                    goals: rest,
                    env: p.prim_delta(g, cp.env).compose_spec(cp.env),
                    db: cp.db,
                    depth: cp.depth,
                },
            )
        } else if cp.depth == usize::MAX {
            SolnM::NoRule
        } else {
            let i = first_match(db, g, cp.env, cp.depth, cp.db as int);
            if i < db.len() {
                SolnM::Fork(
                    CpModel {
                        goals: db[i].0.map_values(|b: G| b.rename_spec(cp.depth)) + rest,
                        env: match_env(g, cp.env, db[i], cp.depth),
                        db: 0,
                        depth: (cp.depth + 1) as usize,
                    },
                    CpModel { goals: cp.goals, env: cp.env, db: (i + 1) as usize, depth: cp.depth },
                )
            } else {
                SolnM::NoRule
            }
        }
    }
}

/// Depth is monotone across a fork: the expansion child sits exactly one
/// level below its parent, and the retry sibling stays at the parent's depth.
/// Iterated along any chain of expansion children, the depth therefore
/// strictly increases.
pub proof fn lemma_depth_monotonic<G, H, Env, P>(
    db: Seq<(Seq<G>, H)>,
    cp: CpModel<G, Env>,
    p: P,
)
    where
        G: Subst<Env> + Rename,
        <G as Subst<Env>>::Res: Unify<H, Env>,
        H: Rename,
        Env: EnvTrait,
        P: Primitive<G, Env>,
    requires
        dispatch_spec(db, cp, p) is Fork,
    ensures
        dispatch_spec(db, cp, p)->Fork_0.depth == cp.depth + 1,
        dispatch_spec(db, cp, p)->Fork_0.depth > cp.depth,
        dispatch_spec(db, cp, p)->Fork_1.depth == cp.depth,
{
}

/// The retry sibling of a fork resumes strictly past the matched clause, and
/// the expansion child starts over on the whole database: a retry at the same
/// depth can never select the matched clause again.
pub proof fn lemma_retry_skips_matched_clause<G, H, Env, P>(
    db: Seq<(Seq<G>, H)>,
    cp: CpModel<G, Env>,
    p: P,
)
    where
        G: Subst<Env> + Rename,
        <G as Subst<Env>>::Res: Unify<H, Env>,
        H: Rename,
        Env: EnvTrait,
        P: Primitive<G, Env>,
    requires
        cp.db <= db.len() <= usize::MAX,
        dispatch_spec(db, cp, p) is Fork,
    ensures
        dispatch_spec(db, cp, p)->Fork_1.db > first_match(
            db,
            cp.goals[0],
            cp.env,
            cp.depth,
            cp.db as int,
        ),
        dispatch_spec(db, cp, p)->Fork_1.db <= db.len(),
        dispatch_spec(db, cp, p)->Fork_0.db == 0,
{
    lemma_first_match_bounds(db, cp.goals[0], cp.env, cp.depth, cp.db as int);
}

/// A primitive step consumes neither a clause nor a depth level: the single
/// successor keeps the parent's cursor and depth, and its goal set is the
/// parent's with the solved goal removed.
pub proof fn lemma_primitive_carries_state<G, H, Env, P>(
    db: Seq<(Seq<G>, H)>,
    cp: CpModel<G, Env>,
    p: P,
)
    where
        G: Subst<Env> + Rename,
        <G as Subst<Env>>::Res: Unify<H, Env>,
        H: Rename,
        Env: EnvTrait,
        P: Primitive<G, Env>,
    requires
        cp.goals.len() > 0,
        p.prim_applies(cp.goals[0], cp.env),
    ensures
        dispatch_spec(db, cp, p) is Step,
        dispatch_spec(db, cp, p)->Step_0.db == cp.db,
        dispatch_spec(db, cp, p)->Step_0.depth == cp.depth,
        dispatch_spec(db, cp, p)->Step_0.goals == cp.goals.subrange(1, cp.goals.len() as int),
        dispatch_spec(db, cp, p)->Step_0.env == p.prim_delta(cp.goals[0], cp.env).compose_spec(
            cp.env,
        ),
{
}

/// The step dispatcher: report an answer when the goal set is empty, let the
/// primitive solver short-circuit the first goal, and otherwise fork into the
/// expansion of the first matching clause and the retry of the later clauses.
///
/// Primitives consume neither a clause nor a depth level: the cursor and the
/// depth are carried through unchanged. The expansion child starts over on
/// the full database one level deeper; the retry sibling keeps the parent's
/// depth and resumes just past the matched clause.
pub fn resolve<DB, Env, P>(
    db: &DB,
    cpoint: CPoint<DB::Goal, Env>,
    solve_primitive: &P,
) -> (r: Soln<DB::Goal, Env>)
    where
        DB: DBTrait,
        DB::Goal: Subst<Env> + Rename,
        <DB::Goal as Subst<Env>>::Res: Unify<DB::Head, Env>,
        DB::Head: Rename,
        Env: EnvTrait,
        P: Primitive<DB::Goal, Env>,
    requires
        cpoint.db <= db.clauses().len(),
    ensures
        soln_model(r) == dispatch_spec(db.clauses(), cp_model(cpoint), *solve_primitive),
{
    let ghost cpm = cp_model(cpoint);
    let n_goals = cpoint.goals.len();
    if n_goals == 0 {
        return Soln::Res(cpoint.env);
    }
    let prim_res = solve_primitive.solve_primitive(&cpoint.goals[0], &cpoint.env);
    match prim_res {
        Some(delta) => {
            let mut rest_goals: Vec<DB::Goal> = Vec::new();
            let mut j: usize = 1;
            while j < n_goals
                invariant
                    1 <= j <= n_goals == cpoint.goals@.len(),
                    rest_goals@.len() == j - 1,
                    forall|k: int| 0 <= k < j - 1 ==> rest_goals@[k] == cpoint.goals@[k + 1],
                decreases n_goals - j,
            {
                rest_goals.push(cpoint.goals[j].dup());
                j = j + 1;
            }
            proof {
                assert(rest_goals@ =~= cpm.goals.subrange(1, cpm.goals.len() as int));
            }
            let ret_env = delta.compose(&cpoint.env);
            let cp = CPoint {
                goals: rest_goals,
                env: ret_env,
                db: cpoint.db,
                depth: cpoint.depth,
            };
            proof {
                assert(soln_model(Soln::<DB::Goal, Env>::CPoint(cp)) =~= dispatch_spec(
                    db.clauses(),
                    cpm,
                    *solve_primitive,
                ));
            }
            Soln::CPoint(cp)
        }
        None => {
            if cpoint.depth == usize::MAX {
                return Soln::NoRule;
            }
            let one_step = resolve_one_step(
                db,
                &cpoint.goals[0],
                &cpoint.env,
                cpoint.db,
                cpoint.depth,
            );
            match one_step {
                Some((mut new_goals, new_env, rest_db)) => {
                    let ghost base = new_goals@;
                    let mut j: usize = 1;
                    while j < n_goals
                        invariant
                            1 <= j <= n_goals == cpoint.goals@.len(),
                            new_goals@.len() == base.len() + j - 1,
                            new_goals@.subrange(0, base.len() as int) == base,
                            forall|k: int|
                                base.len() <= k < new_goals@.len() ==> new_goals@[k]
                                    == cpoint.goals@[k - base.len() + 1],
                        decreases n_goals - j,
                    {
                        new_goals.push(cpoint.goals[j].dup());
                        j = j + 1;
                    }
                    let cp0 = CPoint {
                        goals: new_goals,
                        env: new_env,
                        db: 0,
                        depth: cpoint.depth + 1,
                    };
                    let cp1 = CPoint {
                        goals: cpoint.goals,
                        env: cpoint.env,
                        db: rest_db,
                        depth: cpoint.depth,
                    };
                    let r = Soln::CPoints(cp0, cp1);
                    proof {
                        let fm = first_match(db.clauses(), cpm.goals[0], cpm.env, cpm.depth, cpm.db as int);
                        assert(cp_model(cp0).goals =~= db.clauses()[fm].0.map_values(
                            |b: DB::Goal| b.rename_spec(cpm.depth),
                        ) + cpm.goals.subrange(1, cpm.goals.len() as int));
                        assert(soln_model(r) =~= dispatch_spec(db.clauses(), cpm, *solve_primitive));
                    }
                    r
                }
                None => Soln::NoRule,
            }
        }
    }
}

} // verus!
