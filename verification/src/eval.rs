//! Folding a syntax tree, given the current moment, into an instant or
//! a duration.
//!
//! Evaluation threads a state through the children of a sequence: the
//! first child must establish it (a duration, an instant, or `now`),
//! and every later child is a signed term combined with it by the
//! operator table.  Signed terms, bracketed groups and function
//! arguments are folded from the empty state, which is why brackets
//! reset context.

use vstd::prelude::*;
use crate::ast::{Node, NodeV, Oper, nodes_view};
use crate::builtin_funcs::{full_day, full_hour, spec_full_day, spec_full_hour};
use crate::time::{Instant, TimeDelta};

verus! {

/// The running accumulator while folding a sequence.
#[derive(Clone, Copy, Debug)]
pub enum State {
    TimeDelta(TimeDelta),
    DateTime(Instant),
    Empty,
}

/// What an expression evaluates to.
#[derive(Debug, PartialEq, Eq, Structural)]
pub enum EvaluationResult {
    TimeDelta(TimeDelta),
    DateTime(Instant),
}

/// The operator table: which state a sign combines with which sub-state
/// into, `None` for invalid pairings or values outside an `i64`.
pub open spec fn spec_combine(left: State, oper: Oper, right: State) -> Option<State> {
    match (left, oper, right) {
        (State::DateTime(l), Oper::Minus, State::DateTime(r)) => {
            if i64::MIN <= l.epoch_nanos - r.epoch_nanos <= i64::MAX {
                Some(
                    State::TimeDelta(TimeDelta { nanos: (l.epoch_nanos - r.epoch_nanos) as i64 }),
                )
            } else {
                None
            }
        },
        (State::DateTime(l), Oper::Minus, State::TimeDelta(r)) => {
            if i64::MIN <= l.epoch_nanos - r.nanos <= i64::MAX {
                Some(
                    State::DateTime(
                        Instant {
                            epoch_nanos: (l.epoch_nanos - r.nanos) as i64,
                            offset_secs: l.offset_secs,
                        },
                    ),
                )
            } else {
                None
            }
        },
        (State::DateTime(l), Oper::Plus, State::TimeDelta(r)) => {
            if i64::MIN <= l.epoch_nanos + r.nanos <= i64::MAX {
                Some(
                    State::DateTime(
                        Instant {
                            epoch_nanos: (l.epoch_nanos + r.nanos) as i64,
                            offset_secs: l.offset_secs,
                        },
                    ),
                )
            } else {
                None
            }
        },
        (State::TimeDelta(l), Oper::Plus, State::DateTime(r)) => {
            if i64::MIN <= r.epoch_nanos + l.nanos <= i64::MAX {
                Some(
                    State::DateTime(
                        Instant {
                            epoch_nanos: (r.epoch_nanos + l.nanos) as i64,
                            offset_secs: r.offset_secs,
                        },
                    ),
                )
            } else {
                None
            }
        },
        (State::TimeDelta(l), Oper::Minus, State::TimeDelta(r)) => {
            if i64::MIN <= l.nanos - r.nanos <= i64::MAX {
                Some(State::TimeDelta(TimeDelta { nanos: (l.nanos - r.nanos) as i64 }))
            } else {
                None
            }
        },
        (State::TimeDelta(l), Oper::Plus, State::TimeDelta(r)) => {
            if i64::MIN <= l.nanos + r.nanos <= i64::MAX {
                Some(State::TimeDelta(TimeDelta { nanos: (l.nanos + r.nanos) as i64 }))
            } else {
                None
            }
        },
        _ => None,
    }
}

/// Folding one node into the running state; `None` is an evaluation
/// error.
pub open spec fn spec_eval(state: State, node: NodeV, now: Instant) -> Option<State>
    decreases node, 0int,
{
    match node {
        NodeV::Expr(children) => spec_eval_fold(state, children, now),
        NodeV::OperNode(oper, sub) => {
            match spec_eval(State::Empty, *sub, now) {
                None => None,
                Some(sub_state) => spec_combine(state, oper, sub_state),
            }
        },
        NodeV::Literal(_, _) => Some(state),
        NodeV::Duration(n) => {
            if state is Empty && i64::MIN <= n <= i64::MAX {
                Some(State::TimeDelta(TimeDelta { nanos: n as i64 }))
            } else {
                None
            }
        },
        NodeV::DateTime(n, off) => {
            if state is Empty && i64::MIN <= n <= i64::MAX && i32::MIN <= off <= i32::MAX {
                Some(State::DateTime(Instant { epoch_nanos: n as i64, offset_secs: off as i32 }))
            } else {
                None
            }
        },
        NodeV::Now => {
            if state is Empty {
                Some(State::DateTime(now))
            } else {
                None
            }
        },
        NodeV::FuncAry1(name, arg) => {
            if !(state is Empty) {
                None
            } else {
                match spec_eval(State::Empty, *arg, now) {
                    None => None,
                    Some(a) => {
                        if name == "full_day"@ {
                            spec_full_day(a)
                        } else if name == "full_hour"@ {
                            spec_full_hour(a)
                        } else {
                            None
                        }
                    },
                }
            }
        },
    }
}

/// Left fold of a sequence's children through the state.
pub open spec fn spec_eval_fold(state: State, children: Seq<NodeV>, now: Instant) -> Option<State>
    decreases children, 1int,
{
    if children.len() == 0 {
        Some(state)
    } else {
        match spec_eval(state, children[0], now) {
            None => None,
            Some(next) => spec_eval_fold(next, children.drop_first(), now),
        }
    }
}

/// Folds one node into the running state, or reports why it cannot be.
pub fn eval(state: &State, node: &Node, now: Instant) -> (r: Result<State, String>)
    ensures
        match spec_eval(*state, node@, now) {
            Some(s) => r == Ok::<State, String>(s),
            None => r is Err,
        },
    decreases node, 0int,
{
    match node {
        Node::Expr(children) => eval_expr(state, children, now),
        Node::OperNode { oper, node: sub } => {
            match eval(&State::Empty, sub, now) {
                Err(m) => Err(m),
                Ok(sub_state) => combine(state, oper, &sub_state),
            }
        },
        Node::Literal { literal: _, skip: _ } => Ok(*state),
        Node::Duration(duration) => {
            if let State::Empty = state {
                Ok(State::TimeDelta(*duration))
            } else {
                Err(String::from_str("cannot evaluate duration with existing state"))
            }
        },
        Node::DateTime(datetime) => {
            if let State::Empty = state {
                Ok(State::DateTime(*datetime))
            } else {
                Err(String::from_str("cannot evaluate datetime with existing state"))
            }
        },
        Node::Now => {
            if let State::Empty = state {
                Ok(State::DateTime(now))
            } else {
                Err(String::from_str("cannot evaluate now with existing state"))
            }
        },
        Node::FuncAry1 { name, arg1 } => {
            if let State::Empty = state {
                match eval(&State::Empty, arg1, now) {
                    Err(m) => Err(m),
                    Ok(a) => eval_func_ary1(name, &a),
                }
            } else {
                Err(String::from_str("cannot evaluate function call with existing state"))
            }
        },
    }
}

/// Folds each child of a sequence in turn, threading the state.
fn eval_expr(state: &State, nodes: &Vec<Node>, now: Instant) -> (r: Result<State, String>)
    ensures
        match spec_eval_fold(*state, nodes_view(nodes@), now) {
            Some(s) => r == Ok::<State, String>(s),
            None => r is Err,
        },
    decreases nodes@, 1int,
{
    let ghost views = nodes_view(nodes@);
    proof {
        crate::ast::lemma_nodes_view_index(nodes@);
    }
    let n = nodes.len();
    proof {
        assert(views.subrange(0, n as int) =~= views);
    }
    let mut st = *state;
    let mut i: usize = 0;
    while i < n
        invariant
            i <= n,
            n == nodes@.len(),
            views == nodes_view(nodes@),
            views.len() == n,
            forall|j: int| 0 <= j < n ==> views[j] == nodes@[j]@,
            spec_eval_fold(*state, views, now) == spec_eval_fold(
                st,
                views.subrange(i as int, n as int),
                now,
            ),
        decreases n - i,
    {
        let ghost tail = views.subrange(i as int, n as int);
        proof {
            assert(tail[0] == nodes@[i as int]@);
            assert(tail.drop_first() =~= views.subrange(i + 1, n as int));
        }
        match eval(&st, &nodes[i], now) {
            Err(m) => {
                return Err(m);
            },
            Ok(next) => {
                st = next;
            },
        }
        i = i + 1;
    }
    proof {
        assert(views.subrange(n as int, n as int) =~= Seq::<NodeV>::empty());
    }
    Ok(st)
}

/// Combines the running state with an evaluated signed term.
fn combine(state: &State, oper: &Oper, sub_state: &State) -> (r: Result<State, String>)
    ensures
        match spec_combine(*state, *oper, *sub_state) {
            Some(s) => r == Ok::<State, String>(s),
            None => r is Err,
        },
{
    let overflow = String::from_str("arithmetic overflow");
    match (state, oper, sub_state) {
        (State::DateTime(l), Oper::Minus, State::DateTime(rr)) => {
            match l.checked_sub_instant(rr) {
                Some(d) => Ok(State::TimeDelta(d)),
                None => Err(overflow),
            }
        },
        (State::DateTime(l), Oper::Minus, State::TimeDelta(rr)) => {
            match l.checked_sub_delta(rr) {
                Some(d) => Ok(State::DateTime(d)),
                None => Err(overflow),
            }
        },
        (State::DateTime(l), Oper::Plus, State::TimeDelta(rr)) => {
            match l.checked_add_delta(rr) {
                Some(d) => Ok(State::DateTime(d)),
                None => Err(overflow),
            }
        },
        (State::TimeDelta(l), Oper::Plus, State::DateTime(rr)) => {
            match rr.checked_add_delta(l) {
                Some(d) => Ok(State::DateTime(d)),
                None => Err(overflow),
            }
        },
        (State::TimeDelta(l), Oper::Minus, State::TimeDelta(rr)) => {
            match l.checked_sub(rr) {
                Some(d) => Ok(State::TimeDelta(d)),
                None => Err(overflow),
            }
        },
        (State::TimeDelta(l), Oper::Plus, State::TimeDelta(rr)) => {
            match l.checked_add(rr) {
                Some(d) => Ok(State::TimeDelta(d)),
                None => Err(overflow),
            }
        },
        _ => Err(String::from_str("cannot evaluate operation")),
    }
}

/// Looks a function name up in the fixed registry and applies it.
fn eval_func_ary1(name: &String, arg1: &State) -> (r: Result<State, String>)
    ensures
        ({
            let o = if name@ == "full_day"@ {
                spec_full_day(*arg1)
            } else if name@ == "full_hour"@ {
                spec_full_hour(*arg1)
            } else {
                None
            };
            match o {
                Some(s) => r == Ok::<State, String>(s),
                None => r is Err,
            }
        }),
{
    if *name == String::from_str("full_day") {
        full_day(arg1)
    } else if *name == String::from_str("full_hour") {
        full_hour(arg1)
    } else {
        proof {
            assert(name@ != "full_day"@);
            assert(name@ != "full_hour"@);
        }
        Err(String::from_str("no such function"))
    }
}

/// Evaluates a parsed expression against the given current moment.
/// The result mirrors the fold of the tree from the empty state: an
/// instant or a duration on success, an error for invalid state
/// combinations — and for a fold that ends empty, which no tree the
/// parser builds can produce.
pub fn evaluate(node: Node, now: Instant) -> (r: Result<EvaluationResult, String>)
    ensures
        match spec_eval(State::Empty, node@, now) {
            Some(State::DateTime(i)) => r == Ok::<EvaluationResult, String>(
                EvaluationResult::DateTime(i),
            ),
            Some(State::TimeDelta(d)) => r == Ok::<EvaluationResult, String>(
                EvaluationResult::TimeDelta(d),
            ),
            Some(State::Empty) => r is Err,
            None => r is Err,
        },
{
    match eval(&State::Empty, &node, now) {
        Ok(state) => match state {
            State::DateTime(datetime) => Ok(EvaluationResult::DateTime(datetime)),
            State::TimeDelta(delta) => Ok(EvaluationResult::TimeDelta(delta)),
            State::Empty => Err(String::from_str("the result of evaluation was empty")),
        },
        Err(m) => Err(m),
    }
}

} // verus!
