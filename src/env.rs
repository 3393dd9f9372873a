//! The environment: global variables, user functions and built-ins, and the
//! planning of each statement's arithmetic.
//!
//! The library decides everything that does not depend on a number's value:
//! which names resolve to what, which calls are made, which errors arise. The
//! result of an expression is a [`Plan`], a straight-line list of arithmetic
//! steps over IEEE doubles that the caller carries out.
use vstd::prelude::*;
use std::collections::HashMap;
use crate::ast::{Args, BinaryOp, Expr, MagicKind, Stmt, UnaryOp, Valuable};
use crate::lexer::{denotes_all, extends, lex, scan, Token};
use crate::parser::{p_stmt, parse, ParseError};
use crate::symbols::Namespace;

verus! {

broadcast use vstd::std_specs::hash::group_hash_axioms;

/// How deep user-defined functions may call one another.
pub const MAX_DEPTH: usize = 200;

/// The bits of the double nearest to pi.
pub const PI_BITS: u64 = 0x4009_21FB_5444_2D18;

/// The bits of the double nearest to e.
pub const E_BITS: u64 = 0x4005_BF0A_8B14_5769;

/// The built-in functions of one argument.
#[derive(Debug, Clone, Copy, PartialEq, Eq, Structural)]
pub enum Builtin {
    Ln,
    Lg,
    Sin,
    Cos,
    Tan,
    Asin,
    Acos,
    Atan,
    Sqrt,
    Abs,
    Sinh,
    Cosh,
    Floor,
    ToRad,
}

/// One arithmetic step; operands name earlier steps by position.
#[derive(Debug)]
pub enum Step {
    /// A number as written in the source.
    Number(String),
    /// The bits of a stored double.
    Stored(u64),
    /// A value handed in by the caller (the plot's x).
    Input(usize),
    Neg(usize),
    /// Truncate to `u32`, take the wrapping factorial, back to a double.
    Factorial(usize),
    Binary(BinaryOp, usize, usize),
    Builtin(Builtin, usize),
}

/// The arithmetic that a plan stands for, as a tree.
pub enum Term {
    Number(Seq<char>),
    Stored(u64),
    Input(nat),
    Neg(Box<Term>),
    Factorial(Box<Term>),
    Binary(BinaryOp, Box<Term>, Box<Term>),
    Builtin(Builtin, Box<Term>),
}

/// Steps to carry out in order; the value of step `result` is the value of the plan.
#[derive(Debug)]
pub struct Plan {
    pub steps: Vec<Step>,
    pub result: usize,
}

/// Why an expression has no value.
#[derive(Debug, Clone, Copy, PartialEq, Eq)]
pub enum EvalError {
    /// A parameter with no argument for it (or outside any function).
    InsufficientArgs,
    UndefinedVariable(usize),
    UndefinedFunction(usize),
    /// A built-in was called with this many arguments instead of one.
    ArgCount(usize),
    /// User functions called one another more than `MAX_DEPTH` deep.
    TooDeep,
}

/// Why a line produced nothing.
#[derive(Debug, Clone, Copy, PartialEq, Eq)]
pub enum CalcError {
    Parse(ParseError),
    Eval(EvalError),
    /// The plot command names a function that is not defined.
    UndefinedPlotFunction(usize),
}

/// The plans of a plot: range and step, and the function body with the x value as input 0.
#[derive(Debug)]
pub struct PlotPlan {
    pub function: usize,
    pub start: Plan,
    pub end: Plan,
    pub step: Plan,
    pub body: Result<Plan, EvalError>,
}

/// What running one line calls for.
#[derive(Debug)]
pub enum Outcome {
    /// The line was empty.
    Nothing,
    /// A function was defined under this key.
    Defined(usize),
    /// Compute and show this value.
    Value(Plan),
    /// Compute this value and store it under the key (see [`Env::store`]).
    Assign(usize, Plan),
    /// Sample the function and draw it.
    Plot(PlotPlan),
    Failed(CalcError),
}

/// The state that evaluation reads.
pub struct EnvModel {
    pub functions: Map<usize, Expr>,
    pub globals: Map<usize, u64>,
    pub builtins: Map<usize, Builtin>,
}

pub open spec fn step_refs_ok(s: Step, i: int) -> bool {
    match s {
        Step::Neg(j) => j < i,
        Step::Factorial(j) => j < i,
        Step::Binary(_, j, k) => j < i && k < i,
        Step::Builtin(_, j) => j < i,
        _ => true,
    }
}

/// Every step names only earlier steps.
pub open spec fn steps_wf(steps: Seq<Step>) -> bool {
    forall|i: int| 0 <= i < steps.len() ==> step_refs_ok(#[trigger] steps[i], i)
}

/// The term computed by step `i`.
pub open spec fn term_at(steps: Seq<Step>, i: int) -> Term
    decreases i,
{
    if i < 0 || i >= steps.len() {
        Term::Input(0)
    } else {
        match steps[i] {
            Step::Number(v) => Term::Number(v@),
            Step::Stored(b) => Term::Stored(b),
            Step::Input(k) => Term::Input(k as nat),
            Step::Neg(j) => if 0 <= j < i {
                Term::Neg(Box::new(term_at(steps, j as int)))
            } else {
                Term::Input(0)
            },
            Step::Factorial(j) => if 0 <= j < i {
                Term::Factorial(Box::new(term_at(steps, j as int)))
            } else {
                Term::Input(0)
            },
            Step::Binary(op, j, k) => if 0 <= j < i && 0 <= k < i {
                Term::Binary(op, Box::new(term_at(steps, j as int)), Box::new(term_at(steps, k as int)))
            } else {
                Term::Input(0)
            },
            Step::Builtin(b, j) => if 0 <= j < i {
                Term::Builtin(b, Box::new(term_at(steps, j as int)))
            } else {
                Term::Input(0)
            },
        }
    }
}

impl Plan {
    /// The plan computes `t`.
    pub open spec fn denotes(&self, t: Term) -> bool {
        &&& steps_wf(self.steps@)
        &&& self.result < self.steps@.len()
        &&& term_at(self.steps@, self.result as int) == t
    }
}

/// The terms of the argument slots `locals`.
pub open spec fn slot_terms(steps: Seq<Step>, locals: Seq<usize>) -> Seq<Term> {
    locals.map_values(|s: usize| term_at(steps, s as int))
}

/// The value of `e` with parameter values `locals`, inside `depth` user calls.
/// Operands are evaluated left to right and the first failure wins; a call
/// evaluates its arguments first, then looks for a user function, then a built-in.
pub open spec fn eval_expr(m: EnvModel, e: Expr, locals: Seq<Term>, depth: nat) -> Result<Term, EvalError>
    decreases MAX_DEPTH - depth, e,
{
    match e {
        Expr::Literal { value } => match value {
            Valuable::Value(v) => Ok(Term::Number(v@)),
            Valuable::Arg(i) => if i < locals.len() {
                Ok(locals[i as int])
            } else {
                Err(EvalError::InsufficientArgs)
            },
            Valuable::Var(k) => if m.globals.contains_key(k) {
                Ok(Term::Stored(m.globals[k]))
            } else {
                Err(EvalError::UndefinedVariable(k))
            },
        },
        Expr::Group { body } => eval_expr(m, *body, locals, depth),
        Expr::Unary { op, operand } => match eval_expr(m, *operand, locals, depth) {
            Err(x) => Err(x),
            Ok(t) => Ok(
                match op {
                    UnaryOp::Minus => Term::Neg(Box::new(t)),
                    UnaryOp::Ftl => Term::Factorial(Box::new(t)),
                },
            ),
        },
        Expr::Binary { left, op, right } => match eval_expr(m, *left, locals, depth) {
            Err(x) => Err(x),
            Ok(l) => match eval_expr(m, *right, locals, depth) {
                Err(x) => Err(x),
                Ok(r) => Ok(Term::Binary(op, Box::new(l), Box::new(r))),
            },
        },
        Expr::Call { idx, args } => match eval_args(m, args, locals, depth) {
            Err(x) => Err(x),
            Ok(ts) => if m.functions.contains_key(idx) {
                if depth < MAX_DEPTH {
                    eval_expr(m, m.functions[idx], ts, depth + 1)
                } else {
                    Err(EvalError::TooDeep)
                }
            } else if m.builtins.contains_key(idx) {
                if ts.len() == 1 {
                    Ok(Term::Builtin(m.builtins[idx], Box::new(ts[0])))
                } else {
                    Err(EvalError::ArgCount(ts.len() as usize))
                }
            } else {
                Err(EvalError::UndefinedFunction(idx))
            },
        },
    }
}

/// The values of a call's arguments, left to right.
pub open spec fn eval_args(m: EnvModel, args: Args, locals: Seq<Term>, depth: nat) -> Result<Seq<Term>, EvalError>
    decreases MAX_DEPTH - depth, args,
{
    match args {
        Args::Nil => Ok(seq![]),
        Args::Cons { head, tail } => match eval_expr(m, *head, locals, depth) {
            Err(x) => Err(x),
            Ok(t) => match eval_args(m, *tail, locals, depth) {
                Err(x) => Err(x),
                Ok(ts) => Ok(seq![t] + ts),
            },
        },
    }
}

/// The text under which each built-in is known.
pub open spec fn builtin_name(b: Builtin) -> Seq<char> {
    match b {
        Builtin::Ln => seq!['l', 'n'],
        Builtin::Lg => seq!['l', 'g'],
        Builtin::Sin => seq!['s', 'i', 'n'],
        Builtin::Cos => seq!['c', 'o', 's'],
        Builtin::Tan => seq!['t', 'a', 'n'],
        Builtin::Asin => seq!['a', 's', 'i', 'n'],
        Builtin::Acos => seq!['a', 'c', 'o', 's'],
        Builtin::Atan => seq!['a', 't', 'a', 'n'],
        Builtin::Sqrt => seq!['s', 'q', 'r', 't'],
        Builtin::Abs => seq!['a', 'b', 's'],
        Builtin::Sinh => seq!['s', 'i', 'n', 'h'],
        Builtin::Cosh => seq!['c', 'o', 's', 'h'],
        Builtin::Floor => seq!['f', 'l', 'o', 'o', 'r'],
        Builtin::ToRad => seq!['t', 'o', '_', 'r', 'a', 'd'],
    }
}

/// No two keys share a text.
pub open spec fn names_unique(names: Seq<Seq<char>>) -> bool {
    forall|i: int, j: int| 0 <= i < j < names.len() ==> names[i] != names[j]
}

/// `t` is the name of a built-in.
pub open spec fn is_builtin_name(t: Seq<char>) -> bool {
    exists|b: Builtin| builtin_name(b) == t
}

/// `m` maps some key to `b`.
pub open spec fn has_builtin(m: Map<usize, Builtin>, b: Builtin) -> bool {
    exists|k: usize| m.contains_key(k) && m[k] == b
}

pub proof fn lemma_builtin_name_injective(a: Builtin, b: Builtin)
    requires
        builtin_name(a) == builtin_name(b),
    ensures
        a == b,
{
    let (x, y) = (builtin_name(a), builtin_name(b));
    assert(x.len() == y.len());
    if x.len() >= 1 {
        assert(x[0] == y[0]);
    }
    if x.len() >= 2 {
        assert(x[1] == y[1]);
    }
    if x.len() >= 4 {
        assert(x[3] == y[3]);
    }
}

/// `a` is a prefix of `b`.
pub open spec fn is_prefix(a: Seq<Step>, b: Seq<Step>) -> bool {
    a.len() <= b.len() && b.subrange(0, a.len() as int) == a
}

/// An executable planning result against the evaluation it must match.
pub open spec fn plan_agrees(r: Result<usize, EvalError>, steps: Seq<Step>, s: Result<Term, EvalError>) -> bool {
    match r {
        Ok(i) => i < steps.len() && s == Ok::<Term, EvalError>(term_at(steps, i as int)),
        Err(x) => s == Err::<Term, EvalError>(x),
    }
}

pub proof fn lemma_term_at_prefix(a: Seq<Step>, b: Seq<Step>, i: int)
    requires
        is_prefix(a, b),
        0 <= i < a.len(),
    ensures
        term_at(b, i) == term_at(a, i),
    decreases i,
{
    assert(b[i] == b.subrange(0, a.len() as int)[i]);
    match a[i] {
        Step::Neg(j) => if 0 <= j < i {
            lemma_term_at_prefix(a, b, j as int);
        },
        Step::Factorial(j) => if 0 <= j < i {
            lemma_term_at_prefix(a, b, j as int);
        },
        Step::Binary(_, j, k) => if 0 <= j < i && 0 <= k < i {
            lemma_term_at_prefix(a, b, j as int);
            lemma_term_at_prefix(a, b, k as int);
        },
        Step::Builtin(_, j) => if 0 <= j < i {
            lemma_term_at_prefix(a, b, j as int);
        },
        _ => {},
    }
}

pub proof fn lemma_slots_prefix(a: Seq<Step>, b: Seq<Step>, locals: Seq<usize>)
    requires
        is_prefix(a, b),
        forall|i: int| 0 <= i < locals.len() ==> locals[i] < a.len(),
    ensures
        slot_terms(b, locals) == slot_terms(a, locals),
{
    assert forall|i: int| 0 <= i < locals.len() implies slot_terms(b, locals)[i] == slot_terms(a, locals)[i] by {
        lemma_term_at_prefix(a, b, locals[i] as int);
    }
    assert(slot_terms(b, locals) =~= slot_terms(a, locals));
}

pub proof fn lemma_prefix_trans(a: Seq<Step>, b: Seq<Step>, c: Seq<Step>)
    requires
        is_prefix(a, b),
        is_prefix(b, c),
    ensures
        is_prefix(a, c),
{
    assert(c.subrange(0, a.len() as int) =~= b.subrange(0, a.len() as int));
}

pub proof fn lemma_prefix_push(a: Seq<Step>, x: Step)
    ensures
        is_prefix(a, a.push(x)),
{
    assert(a.push(x).subrange(0, a.len() as int) =~= a);
}

pub proof fn lemma_prefix_refl(a: Seq<Step>)
    ensures
        is_prefix(a, a),
{
    assert(a.subrange(0, a.len() as int) =~= a);
}

/// Whether `out` and the new state are what running `parsed` against `m` calls for.
pub open spec fn executes(m: EnvModel, parsed: Result<Stmt, ParseError>, out: Outcome, after: EnvModel) -> bool {
    match parsed {
        Err(ParseError::EmptyInput) => out is Nothing && after == m,
        Err(e) => out == Outcome::Failed(CalcError::Parse(e)) && after == m,
        Ok(Stmt::Fun { idx, body }) => out == Outcome::Defined(idx) && after == EnvModel {
            functions: m.functions.insert(idx, *body),
            ..m
        },
        Ok(Stmt::Expr { expr }) => after == m && match eval_expr(m, *expr, seq![], 0) {
            Ok(t) => out matches Outcome::Value(p) && p.denotes(t),
            Err(x) => out == Outcome::Failed(CalcError::Eval(x)),
        },
        Ok(Stmt::Assign { idx, expr }) => after == m && match eval_expr(m, *expr, seq![], 0) {
            Ok(t) => out matches Outcome::Assign(k, p) && k == idx && p.denotes(t),
            Err(x) => out == Outcome::Failed(CalcError::Eval(x)),
        },
        Ok(Stmt::Magic { kind: MagicKind::Plot(f, e1, e2, e3) }) => after == m && if !m.functions.contains_key(f) {
            out == Outcome::Failed(CalcError::UndefinedPlotFunction(f))
        } else {
            match (eval_expr(m, *e1, seq![], 0), eval_expr(m, *e2, seq![], 0), eval_expr(m, *e3, seq![], 0)) {
                (Err(x), _, _) => out == Outcome::Failed(CalcError::Eval(x)),
                (Ok(_), Err(x), _) => out == Outcome::Failed(CalcError::Eval(x)),
                (Ok(_), Ok(_), Err(x)) => out == Outcome::Failed(CalcError::Eval(x)),
                (Ok(t1), Ok(t2), Ok(t3)) => out matches Outcome::Plot(pp) && pp.function == f
                    && pp.start.denotes(t1) && pp.end.denotes(t2) && pp.step.denotes(t3)
                    && match eval_expr(m, m.functions[f], seq![Term::Input(0)], 0) {
                        Ok(t) => pp.body matches Ok(p) && p.denotes(t),
                        Err(x) => pp.body == Err::<Plan, EvalError>(x),
                    },
            }
        },
    }
}

/// A calculator session: user functions, global variables, built-ins, and the
/// names seen so far (which only ever grow).
pub struct Env {
    ns: Namespace,
    functions: HashMap<usize, Expr>,
    builtin: HashMap<usize, Builtin>,
    global: HashMap<usize, u64>,
    plot: usize,
}

impl Env {
    /// What evaluation reads.
    pub closed spec fn model(&self) -> EnvModel {
        EnvModel { functions: self.functions@, globals: self.global@, builtins: self.builtin@ }
    }

    /// The text of each key.
    pub closed spec fn names(&self) -> Seq<Seq<char>> {
        self.ns@
    }

    /// The key of the plot command's name.
    pub closed spec fn plot_key(&self) -> usize {
        self.plot
    }

    /// The representation invariant behind [`Env::wf`].
    pub closed spec fn inv(&self) -> bool {
        &&& self.ns.wf()
        &&& self.plot < self.ns@.len()
        &&& self.ns@[self.plot as int] == seq!['p', 'l', 'o', 't', '2', 'd']
        &&& forall|k: usize| #[trigger] self.builtin@.contains_key(k) ==> k < self.ns@.len()
            && self.ns@[k as int] == builtin_name(self.builtin@[k])
    }

    proof fn lemma_inv(&self)
        requires
            self.inv(),
        ensures
            self.wf(),
    {
        assert forall|k: usize| #[trigger] self.model().builtins.contains_key(k) implies k < self.names().len()
            && self.names()[k as int] == builtin_name(self.model().builtins[k]) by {
            assert(self.builtin@.contains_key(k));
        }
    }

    /// Each text has one key, the plot command's name has its key, and each
    /// built-in's key carries that built-in's name.
    pub open spec fn wf(&self) -> bool {
        &&& self.inv()
        &&& names_unique(self.names())
        &&& self.plot_key() < self.names().len()
        &&& self.names()[self.plot_key() as int] == seq!['p', 'l', 'o', 't', '2', 'd']
        &&& forall|k: usize| #[trigger] self.model().builtins.contains_key(k) ==> k < self.names().len()
            && self.names()[k as int] == builtin_name(self.model().builtins[k])
    }

    /// A session as `new` makes it: no user functions, exactly the fourteen
    /// built-ins under their names, and `PI` and `E` holding their values.
    pub open spec fn fresh(&self) -> bool {
        &&& self.wf()
        &&& self.model().functions == Map::<usize, Expr>::empty()
        &&& forall|b: Builtin| #[trigger] has_builtin(self.model().builtins, b)
        &&& forall|k: usize| #[trigger] self.model().builtins.contains_key(k)
            <==> (k < self.names().len() && is_builtin_name(self.names()[k as int]))
        &&& exists|k: usize| k < self.names().len() && self.names()[k as int] == seq!['P', 'I']
            && #[trigger] self.model().globals.contains_key(k) && self.model().globals[k] == PI_BITS
        &&& exists|k: usize| k < self.names().len() && self.names()[k as int] == seq!['E']
            && #[trigger] self.model().globals.contains_key(k) && self.model().globals[k] == E_BITS
        &&& self.model().globals.dom().len() == 2
        &&& forall|k: usize| #[trigger] self.model().globals.contains_key(k) ==> k < self.names().len() && (
            (self.names()[k as int] == seq!['P', 'I'] && self.model().globals[k] == PI_BITS)
            || (self.names()[k as int] == seq!['E'] && self.model().globals[k] == E_BITS))
    }

    fn add_builtin(&mut self, name: &str, b: Builtin)
        requires
            old(self).wf(),
            name@ =~= builtin_name(b),
        ensures
            final(self).wf(),
            final(self).model().functions == old(self).model().functions,
            final(self).model().globals == old(self).model().globals,
            has_builtin(final(self).model().builtins, b),
            forall|c: Builtin| #[trigger] has_builtin(old(self).model().builtins, c) ==> has_builtin(final(self).model().builtins, c),
    {
        let k = self.ns.intern(name);
        self.builtin.insert(k, b);
        proof {
            assert(self.builtin@.contains_key(k) && self.builtin@[k] == b);
            assert forall|c: Builtin| #[trigger] has_builtin(old(self).builtin@, c) implies has_builtin(self.builtin@, c) by {
                let j = choose|j: usize| old(self).builtin@.contains_key(j) && old(self).builtin@[j] == c;
                if j == k {
                    lemma_builtin_name_injective(b, c);
                }
                assert(self.builtin@.contains_key(j) && self.builtin@[j] == c);
            }
            assert forall|j: usize| #[trigger] self.builtin@.contains_key(j) implies j < self.ns@.len()
                && self.ns@[j as int] == builtin_name(self.builtin@[j]) by {
                if j != k {
                    assert(old(self).builtin@.contains_key(j));
                }
            }
        }
    }

    /// A fresh session: the built-ins `ln lg sin cos tan asin acos atan sqrt abs
    /// sinh cosh floor to_rad`, the variables `PI` and `E`, and no user functions.
    pub fn new() -> (r: Env)
        ensures
            r.fresh(),
    {
        let mut ns = Namespace::new();
        proof {
            reveal_strlit("plot2d");
        }
        let plot = ns.intern("plot2d");
        assert(ns@[plot as int] =~= seq!['p', 'l', 'o', 't', '2', 'd']);
        let mut env = Env { ns, functions: HashMap::new(), builtin: HashMap::new(), global: HashMap::new(), plot };
        proof {
            reveal_strlit("ln");
        }
        env.add_builtin("ln", Builtin::Ln);
        proof {
            reveal_strlit("lg");
        }
        env.add_builtin("lg", Builtin::Lg);
        proof {
            reveal_strlit("sin");
        }
        env.add_builtin("sin", Builtin::Sin);
        proof {
            reveal_strlit("cos");
        }
        env.add_builtin("cos", Builtin::Cos);
        proof {
            reveal_strlit("tan");
        }
        env.add_builtin("tan", Builtin::Tan);
        proof {
            reveal_strlit("asin");
        }
        env.add_builtin("asin", Builtin::Asin);
        proof {
            reveal_strlit("acos");
        }
        env.add_builtin("acos", Builtin::Acos);
        proof {
            reveal_strlit("atan");
        }
        env.add_builtin("atan", Builtin::Atan);
        proof {
            reveal_strlit("sqrt");
        }
        env.add_builtin("sqrt", Builtin::Sqrt);
        proof {
            reveal_strlit("abs");
        }
        env.add_builtin("abs", Builtin::Abs);
        proof {
            reveal_strlit("sinh");
        }
        env.add_builtin("sinh", Builtin::Sinh);
        proof {
            reveal_strlit("cosh");
        }
        env.add_builtin("cosh", Builtin::Cosh);
        proof {
            reveal_strlit("floor");
        }
        env.add_builtin("floor", Builtin::Floor);
        proof {
            reveal_strlit("to_rad");
        }
        env.add_builtin("to_rad", Builtin::ToRad);
        proof {
            reveal_strlit("PI");
            reveal_strlit("E");
        }
        let pi = env.ns.intern("PI");
        let e = env.ns.intern("E");
        assert(env.ns@[pi as int] =~= seq!['P', 'I']);
        assert(env.ns@[e as int] =~= seq!['E']);
        assert(pi != e) by {
            assert(env.ns@[pi as int].len() != env.ns@[e as int].len());
        }
        env.global.insert(pi, PI_BITS);
        env.global.insert(e, E_BITS);
        proof {
            assert(env.global@.dom() =~= set![pi, e]);
            env.lemma_inv();
            assert(env.names()[pi as int] == seq!['P', 'I'] && env.model().globals.contains_key(pi));
            assert(env.names()[e as int] == seq!['E'] && env.model().globals.contains_key(e));
            assert forall|k: usize| #[trigger] env.model().builtins.contains_key(k)
                <== (k < env.names().len() && is_builtin_name(env.names()[k as int])) by {
                if k < env.names().len() && is_builtin_name(env.names()[k as int]) {
                    let b = choose|b: Builtin| builtin_name(b) == env.names()[k as int];
                    assert(has_builtin(env.model().builtins, b));
                    let j = choose|j: usize| env.model().builtins.contains_key(j) && env.model().builtins[j] == b;
                    assert(env.names()[j as int] == env.names()[k as int]);
                    if j < k {
                        assert(env.names()[j as int] != env.names()[k as int]);
                    } else if k < j {
                        assert(env.names()[k as int] != env.names()[j as int]);
                    }
                }
            }
            assert forall|k: usize| #[trigger] env.model().builtins.contains_key(k)
                implies (k < env.names().len() && is_builtin_name(env.names()[k as int])) by {
                assert(builtin_name(env.model().builtins[k]) == env.names()[k as int]);
            }
        }
        env
    }

    fn push_step(steps: &mut Vec<Step>, x: Step) -> (r: usize)
        requires
            steps_wf(old(steps)@),
            step_refs_ok(x, old(steps)@.len() as int),
        ensures
            final(steps)@ == old(steps)@.push(x),
            r == old(steps)@.len(),
            steps_wf(final(steps)@),
            is_prefix(old(steps)@, final(steps)@),
    {
        let r = steps.len();
        steps.push(x);
        proof {
            lemma_prefix_push(old(steps)@, x);
            assert forall|i: int| 0 <= i < steps@.len() implies step_refs_ok(#[trigger] steps@[i], i) by {
                if i < r {
                    assert(steps@[i] == old(steps)@[i]);
                }
            }
        }
        r
    }

    /// Appends the steps of `e` (with parameters in slots `locals`) and returns its slot.
    fn plan_expr(&self, e: &Expr, locals: &Vec<usize>, steps: &mut Vec<Step>, depth: usize) -> (r: Result<usize, EvalError>)
        requires
            depth <= MAX_DEPTH,
            steps_wf(old(steps)@),
            forall|i: int| 0 <= i < locals@.len() ==> locals@[i] < old(steps)@.len(),
        ensures
            steps_wf(final(steps)@),
            is_prefix(old(steps)@, final(steps)@),
            plan_agrees(r, final(steps)@, eval_expr(self.model(), *e, slot_terms(old(steps)@, locals@), depth as nat)),
        decreases MAX_DEPTH - depth, *e,
    {
        let ghost s0 = steps@;
        let ghost lt = slot_terms(steps@, locals@);
        proof {
            lemma_prefix_refl(steps@);
        }
        match e {
            Expr::Literal { value } => match value {
                Valuable::Value(v) => {
                    let i = Self::push_step(steps, Step::Number(v.clone()));
                    Ok(i)
                },
                Valuable::Arg(i) => {
                    if *i < locals.len() {
                        Ok(locals[*i])
                    } else {
                        Err(EvalError::InsufficientArgs)
                    }
                },
                Valuable::Var(k) => match self.global.get(k) {
                    Some(b) => {
                        let i = Self::push_step(steps, Step::Stored(*b));
                        Ok(i)
                    },
                    None => Err(EvalError::UndefinedVariable(*k)),
                },
            },
            Expr::Group { body } => self.plan_expr(body, locals, steps, depth),
            Expr::Unary { op, operand } => {
                let j = match self.plan_expr(operand, locals, steps, depth) {
                    Err(x) => return Err(x),
                    Ok(j) => j,
                };
                let ghost s1 = steps@;
                let i = match op {
                    UnaryOp::Minus => Self::push_step(steps, Step::Neg(j)),
                    UnaryOp::Ftl => Self::push_step(steps, Step::Factorial(j)),
                };
                proof {
                    lemma_prefix_trans(s0, s1, steps@);
                    lemma_term_at_prefix(s1, steps@, j as int);
                }
                Ok(i)
            },
            Expr::Binary { left, op, right } => {
                let l = match self.plan_expr(left, locals, steps, depth) {
                    Err(x) => return Err(x),
                    Ok(l) => l,
                };
                let ghost s1 = steps@;
                proof {
                    lemma_slots_prefix(s0, s1, locals@);
                }
                let r = match self.plan_expr(right, locals, steps, depth) {
                    Err(x) => {
                        proof {
                            lemma_prefix_trans(s0, s1, steps@);
                        }
                        return Err(x);
                    },
                    Ok(r) => r,
                };
                let ghost s2 = steps@;
                let i = Self::push_step(steps, Step::Binary(*op, l, r));
                proof {
                    lemma_prefix_trans(s0, s1, s2);
                    lemma_prefix_trans(s0, s2, steps@);
                    lemma_prefix_trans(s1, s2, steps@);
                    lemma_term_at_prefix(s1, steps@, l as int);
                    lemma_term_at_prefix(s2, steps@, r as int);
                }
                Ok(i)
            },
            Expr::Call { idx, args } => {
                let mut slots: Vec<usize> = Vec::new();
                match self.plan_args(args, locals, steps, depth, &mut slots) {
                    Err(x) => return Err(x),
                    Ok(()) => {},
                }
                let ghost s1 = steps@;
                proof {
                    assert(slot_terms(s0, seq![]) =~= seq![]);
                    assert(seq![] + slot_terms(s1, slots@) =~= slot_terms(s1, slots@));
                }
                match self.functions.get(idx) {
                    Some(body) => {
                        if depth < MAX_DEPTH {
                            let r = self.plan_expr(body, &slots, steps, depth + 1);
                            proof {
                                lemma_prefix_trans(s0, s1, steps@);
                            }
                            r
                        } else {
                            Err(EvalError::TooDeep)
                        }
                    },
                    None => match self.builtin.get(idx) {
                        Some(b) => {
                            if slots.len() == 1 {
                                let i = Self::push_step(steps, Step::Builtin(*b, slots[0]));
                                proof {
                                    lemma_prefix_trans(s0, s1, steps@);
                                    lemma_term_at_prefix(s1, steps@, slots@[0] as int);
                                }
                                Ok(i)
                            } else {
                                Err(EvalError::ArgCount(slots.len()))
                            }
                        },
                        None => Err(EvalError::UndefinedFunction(*idx)),
                    },
                }
            },
        }
    }

    /// Appends the steps of each argument in turn, and their slots to `out`.
    fn plan_args(&self, args: &Args, locals: &Vec<usize>, steps: &mut Vec<Step>, depth: usize, out: &mut Vec<usize>) -> (r: Result<(), EvalError>)
        requires
            depth <= MAX_DEPTH,
            steps_wf(old(steps)@),
            forall|i: int| 0 <= i < locals@.len() ==> locals@[i] < old(steps)@.len(),
            forall|i: int| 0 <= i < old(out)@.len() ==> old(out)@[i] < old(steps)@.len(),
        ensures
            steps_wf(final(steps)@),
            is_prefix(old(steps)@, final(steps)@),
            match eval_args(self.model(), *args, slot_terms(old(steps)@, locals@), depth as nat) {
                Ok(ts) => r is Ok
                    && (forall|i: int| 0 <= i < final(out)@.len() ==> final(out)@[i] < final(steps)@.len())
                    && slot_terms(final(steps)@, final(out)@) == slot_terms(old(steps)@, old(out)@) + ts,
                Err(x) => r == Err::<(), EvalError>(x),
            },
        decreases MAX_DEPTH - depth, *args,
    {
        let ghost s0 = steps@;
        let ghost o0 = out@;
        proof {
            lemma_prefix_refl(steps@);
        }
        match args {
            Args::Nil => {
                proof {
                    assert(slot_terms(s0, o0) + seq![] =~= slot_terms(s0, o0));
                }
                Ok(())
            },
            Args::Cons { head, tail } => {
                let i = match self.plan_expr(head, locals, steps, depth) {
                    Err(x) => return Err(x),
                    Ok(i) => i,
                };
                let ghost s1 = steps@;
                proof {
                    lemma_slots_prefix(s0, s1, locals@);
                    lemma_slots_prefix(s0, s1, o0);
                }
                out.push(i);
                let ghost o1 = out@;
                proof {
                    assert(slot_terms(s1, o1) =~= slot_terms(s1, o0).push(term_at(s1, i as int)));
                }
                let r = self.plan_args(tail, locals, steps, depth, out);
                proof {
                    lemma_prefix_trans(s0, s1, steps@);
                    if r is Ok {
                        let t = term_at(s1, i as int);
                        let ts = eval_args(self.model(), **tail, slot_terms(s0, locals@), depth as nat)->Ok_0;
                        assert(slot_terms(s0, o0).push(t) + ts =~= slot_terms(s0, o0) + (seq![t] + ts));
                    }
                }
                r
            },
        }
    }

    /// The plan of `e` at top level: no parameters.
    fn plan_top(&self, e: &Expr) -> (r: Result<Plan, EvalError>)
        ensures
            match eval_expr(self.model(), *e, seq![], 0) {
                Ok(t) => r matches Ok(p) && p.denotes(t),
                Err(x) => r == Err::<Plan, EvalError>(x),
            },
    {
        let mut steps: Vec<Step> = Vec::new();
        let locals: Vec<usize> = Vec::new();
        proof {
            assert(slot_terms(steps@, locals@) =~= seq![]);
        }
        match self.plan_expr(e, &locals, &mut steps, 0) {
            Ok(result) => Ok(Plan { steps, result }),
            Err(x) => Err(x),
        }
    }

    /// The plan of a function body with the x value as input 0.
    fn plan_sampled(&self, body: &Expr) -> (r: Result<Plan, EvalError>)
        ensures
            match eval_expr(self.model(), *body, seq![Term::Input(0)], 0) {
                Ok(t) => r matches Ok(p) && p.denotes(t),
                Err(x) => r == Err::<Plan, EvalError>(x),
            },
    {
        let mut steps: Vec<Step> = Vec::new();
        steps.push(Step::Input(0));
        let mut locals: Vec<usize> = Vec::new();
        locals.push(0);
        proof {
            assert(slot_terms(steps@, locals@) =~= seq![Term::Input(0)]);
        }
        match self.plan_expr(body, &locals, &mut steps, 0) {
            Ok(result) => Ok(Plan { steps, result }),
            Err(x) => Err(x),
        }
    }

    /// Carries out one parsed line: stores a definition, or plans the arithmetic it calls for.
    pub fn execute(&mut self, toks: &Vec<Token>) -> (out: Outcome)
        requires
            old(self).wf(),
        ensures
            final(self).wf(),
            final(self).names() == old(self).names(),
            final(self).plot_key() == old(self).plot_key(),
            executes(old(self).model(), p_stmt(toks@, old(self).plot_key()), out, final(self).model()),
    {
        match parse(toks, self.plot) {
            Err(ParseError::EmptyInput) => Outcome::Nothing,
            Err(e) => Outcome::Failed(CalcError::Parse(e)),
            Ok(Stmt::Fun { idx, body }) => {
                self.functions.insert(idx, *body);
                Outcome::Defined(idx)
            },
            Ok(Stmt::Expr { expr }) => match self.plan_top(&expr) {
                Ok(p) => Outcome::Value(p),
                Err(x) => Outcome::Failed(CalcError::Eval(x)),
            },
            Ok(Stmt::Assign { idx, expr }) => match self.plan_top(&expr) {
                Ok(p) => Outcome::Assign(idx, p),
                Err(x) => Outcome::Failed(CalcError::Eval(x)),
            },
            Ok(Stmt::Magic { kind: MagicKind::Plot(f, e1, e2, e3) }) => {
                match self.functions.get(&f) {
                    None => Outcome::Failed(CalcError::UndefinedPlotFunction(f)),
                    Some(body) => {
                        let start = match self.plan_top(&e1) {
                            Ok(p) => p,
                            Err(x) => return Outcome::Failed(CalcError::Eval(x)),
                        };
                        let end = match self.plan_top(&e2) {
                            Ok(p) => p,
                            Err(x) => return Outcome::Failed(CalcError::Eval(x)),
                        };
                        let step = match self.plan_top(&e3) {
                            Ok(p) => p,
                            Err(x) => return Outcome::Failed(CalcError::Eval(x)),
                        };
                        let body = self.plan_sampled(body);
                        Outcome::Plot(PlotPlan { function: f, start, end, step, body })
                    },
                }
            },
        }
    }

    /// Runs one line of input: lexes it (adding its names to the session), parses
    /// it, and carries it out as [`Env::execute`] does.
    pub fn run(&mut self, line: &str) -> (out: Outcome)
        requires
            old(self).wf(),
        ensures
            final(self).wf(),
            extends(old(self).names(), final(self).names()),
            final(self).plot_key() == old(self).plot_key(),
            exists|toks: Seq<Token>| #[trigger] denotes_all(toks, lex(line@), final(self).names())
                && executes(old(self).model(), p_stmt(toks, old(self).plot_key()), out, final(self).model()),
    {
        let tokens = scan(line, &mut self.ns);
        proof {
            assert forall|k: usize| #[trigger] self.builtin@.contains_key(k) implies k < self.ns@.len()
                && self.ns@[k as int] == builtin_name(self.builtin@[k]) by {
                assert(self.ns@[k as int] == self.ns@.subrange(0, old(self).ns@.len() as int)[k as int]);
            }
            assert(self.ns@[self.plot as int] == self.ns@.subrange(0, old(self).ns@.len() as int)[self.plot as int]);
        }
        let out = self.execute(&tokens);
        assert(denotes_all(tokens@, lex(line@), self.names()));
        out
    }

    /// Stores `bits` (the bits of a double) as the value of the variable `key`.
    pub fn store(&mut self, key: usize, bits: u64)
        requires
            old(self).wf(),
        ensures
            final(self).wf(),
            final(self).names() == old(self).names(),
            final(self).plot_key() == old(self).plot_key(),
            final(self).model() == (EnvModel { globals: old(self).model().globals.insert(key, bits), ..old(self).model() }),
    {
        self.global.insert(key, bits);
    }

    /// The text of `key`, for messages; `None` for a key never interned.
    pub fn name_of(&self, key: usize) -> (r: Option<&str>)
        ensures
            key < self.names().len() ==> (r matches Some(s) && s@ == self.names()[key as int]),
            key >= self.names().len() ==> r is None,
    {
        self.ns.name_of(key)
    }
}

impl Default for Env {
    /// The same as [`Env::new`].
    fn default() -> (r: Env)
        ensures
            r.fresh(),
    {
        Env::new()
    }
}

/// In a well-formed session the key whose text is a built-in's name runs that
/// built-in (`sqrt` runs `Builtin::Sqrt`), as long as the built-in is present.
pub proof fn law_builtin_by_name(env: &Env, k: usize, b: Builtin)
    requires
        env.wf(),
        has_builtin(env.model().builtins, b),
        k < env.names().len(),
        env.names()[k as int] == builtin_name(b),
    ensures
        env.model().builtins.contains_key(k),
        env.model().builtins[k] == b,
{
    let j = choose|j: usize| env.model().builtins.contains_key(j) && env.model().builtins[j] == b;
    assert(env.names()[j as int] == builtin_name(b));
    if j < k {
        assert(env.names()[j as int] != env.names()[k as int]);
    } else if k < j {
        assert(env.names()[k as int] != env.names()[j as int]);
    }
}

/// Arithmetic on two written numbers always plans, whatever the session:
/// the plan is the operation on the two numbers (the double arithmetic itself
/// is left to the caller).
pub proof fn law_literal_arithmetic(m: EnvModel, a: String, op: BinaryOp, b: String, locals: Seq<Term>, depth: nat)
    ensures
        eval_expr(m, Expr::Binary {
            left: Box::new(Expr::Literal { value: Valuable::Value(a) }),
            op,
            right: Box::new(Expr::Literal { value: Valuable::Value(b) }),
        }, locals, depth) == Ok::<Term, EvalError>(Term::Binary(op, Box::new(Term::Number(a@)), Box::new(Term::Number(b@)))),
{
    reveal_with_fuel(eval_expr, 2);
}

/// After `fun k(...) = body`, a call of `k` evaluates its arguments and then
/// `body` with them; no earlier definition of `k` takes part.
pub proof fn law_call_uses_latest_definition(m: EnvModel, k: usize, body: Expr, args: Args, locals: Seq<Term>, depth: nat)
    requires
        depth <= MAX_DEPTH,
    ensures
        ({
            let m2 = EnvModel { functions: m.functions.insert(k, body), ..m };
            eval_expr(m2, Expr::Call { idx: k, args }, locals, depth) == match eval_args(m2, args, locals, depth) {
                Err(x) => Err(x),
                Ok(ts) => if depth < MAX_DEPTH {
                    eval_expr(m2, body, ts, depth + 1)
                } else {
                    Err(EvalError::TooDeep)
                },
            }
        }),
{
}

/// One name may be a variable and a function at once: a bare reference reads
/// the variable and never the function, and a call runs the function on its
/// argument values and never reads the variable.
pub proof fn law_names_are_separate(m: EnvModel, k: usize, args: Args, locals: Seq<Term>, depth: nat)
    requires
        depth < MAX_DEPTH,
        m.globals.contains_key(k),
        m.functions.contains_key(k),
    ensures
        eval_expr(m, Expr::Literal { value: Valuable::Var(k) }, locals, depth) == Ok::<Term, EvalError>(Term::Stored(m.globals[k])),
        eval_expr(m, Expr::Call { idx: k, args }, locals, depth) == match eval_args(m, args, locals, depth) {
            Err(x) => Err(x),
            Ok(ts) => eval_expr(m, m.functions[k], ts, depth + 1),
        },
{
}

/// Storing a variable leaves the functions alone, and defining a function leaves the variables alone.
pub proof fn law_stores_are_disjoint(m: EnvModel, k: usize, bits: u64, body: Expr)
    ensures
        (EnvModel { globals: m.globals.insert(k, bits), ..m }).functions == m.functions,
        (EnvModel { functions: m.functions.insert(k, body), ..m }).globals == m.globals,
{
}

/// A name that was never assigned has no value: its reference fails, it does not read as 0.
pub proof fn law_undefined_variable(m: EnvModel, k: usize, locals: Seq<Term>, depth: nat)
    requires
        !m.globals.contains_key(k),
    ensures
        eval_expr(m, Expr::Literal { value: Valuable::Var(k) }, locals, depth) == Err::<Term, EvalError>(EvalError::UndefinedVariable(k)),
{
}

/// A line that is just a never-assigned name yields no value and changes nothing.
pub proof fn law_undefined_name_line(m: EnvModel, k: usize, out: Outcome, after: EnvModel)
    requires
        !m.globals.contains_key(k),
        executes(m, Ok(Stmt::Expr { expr: Box::new(Expr::Literal { value: Valuable::Var(k) }) }), out, after),
    ensures
        out == Outcome::Failed(CalcError::Eval(EvalError::UndefinedVariable(k))),
        after == m,
{
}

/// A built-in (not shadowed by a user function) called with other than one
/// argument has no value.
pub proof fn law_builtin_arity(m: EnvModel, k: usize, args: Args, locals: Seq<Term>, depth: nat)
    requires
        !m.functions.contains_key(k),
        m.builtins.contains_key(k),
        eval_args(m, args, locals, depth) matches Ok(ts) && ts.len() != 1,
    ensures
        eval_expr(m, Expr::Call { idx: k, args }, locals, depth) == Err::<Term, EvalError>(
            EvalError::ArgCount(eval_args(m, args, locals, depth)->Ok_0.len() as usize),
        ),
{
}

} // verus!
