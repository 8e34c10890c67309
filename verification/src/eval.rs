//! The stack evaluator. The token sequence is consumed from its right end:
//! a token that parses as a decimal pushes its value, any other token is an
//! operator that pops two operands — `left` first, then `right` — and pushes
//! one result. An operator with fewer than two operands fails naming the
//! token; an unrecognised operator, a failed piece of arithmetic or an input
//! that leaves nothing on the stack fail as invalid input. The sole surviving
//! stack value, optionally rounded, is rendered as decimal text.

use vstd::prelude::*;
use vstd::string::StrSliceExecFns;

use crate::decimal::Dec;
use crate::decimal::add_of;
use crate::decimal::div_of;
use crate::decimal::mul_of;
use crate::decimal::parse_of;
use crate::decimal::pow_of;
use crate::decimal::rem_of;
use crate::decimal::render_of;
use crate::decimal::round_of;
use crate::decimal::sub_of;
use crate::decimal::dec_add;
use crate::decimal::dec_div;
use crate::decimal::dec_mul;
use crate::decimal::dec_parse;
use crate::decimal::dec_pow;
use crate::decimal::dec_rem;
use crate::decimal::dec_render;
use crate::decimal::dec_round;
use crate::decimal::dec_sub;
use crate::tokenize::token_views;
use crate::tokenize::tokenize;
use crate::tokenize::tokens_of;
use crate::tokenize::strip_ws;

verus! {

/// Why an evaluation failed: the input could not be interpreted, or an
/// operator token found fewer than two operands and is named in the error.
#[derive(Debug)]
pub enum OxideErr {
    InvalidString,
    UnmatchedToken(String),
}

/// The failure cases of the mathematical evaluation.
pub enum SpecErr {
    Invalid,
    Unmatched(Seq<char>),
}

/// The machine's condition after consuming some tokens: still going with an
/// operand stack, or failed one of the two ways.
pub enum EvalState {
    Going(Seq<Dec>),
    Invalid,
    Unmatched(Seq<char>),
}

/// What an operator token computes from its two popped operands: `None` for
/// an unrecognised name, `Some(None)` when the arithmetic itself fails.
pub open spec fn op_result(name: Seq<char>, l: Dec, r: Dec) -> Option<Option<Dec>> {
    if name == "add"@ {
        Some(add_of(l, r))
    } else if name == "sub"@ {
        Some(sub_of(l, r))
    } else if name == "mult"@ {
        Some(mul_of(l, r))
    } else if name == "div"@ {
        Some(div_of(l, r))
    } else if name == "mod"@ {
        Some(rem_of(l, r))
    } else if name == "pow"@ {
        Some(pow_of(l, r))
    } else {
        None
    }
}

/// One machine step: a numeric token pushes, an operator token pops `left`
/// then `right` and pushes its result; failures are absorbing.
pub open spec fn step(st: EvalState, token: Seq<char>) -> EvalState {
    match st {
        EvalState::Going(stack) => match parse_of(token) {
            Some(d) => EvalState::Going(stack.push(d)),
            None => {
                if stack.len() < 2 {
                    EvalState::Unmatched(token)
                } else {
                    let left = stack[stack.len() - 1];
                    let right = stack[stack.len() - 2];
                    let rest = stack.take(stack.len() - 2);
                    match op_result(token, left, right) {
                        Some(Some(d)) => EvalState::Going(rest.push(d)),
                        Some(None) => EvalState::Invalid,
                        None => EvalState::Invalid,
                    }
                }
            },
        },
        _ => st,
    }
}

/// The machine run over a token sequence, consuming it from the right end:
/// the last token is stepped first, the first one last.
pub open spec fn run(tokens: Seq<Seq<char>>) -> EvalState
    decreases tokens.len(),
{
    if tokens.len() == 0 {
        EvalState::Going(Seq::empty())
    } else {
        step(run(tokens.drop_first()), tokens.first())
    }
}

/// What evaluating an input yields: the bottom stack value after the run,
/// rounded when a precision is given and rendered as text, or the error the
/// run produced; a run that leaves the stack empty is invalid input.
pub open spec fn spec_evaluate(input: Seq<char>, precision: Option<u32>) -> Result<
    Seq<char>,
    SpecErr,
> {
    match run(tokens_of(input)) {
        EvalState::Going(stack) => {
            if stack.len() == 0 {
                Err(SpecErr::Invalid)
            } else {
                let d = match precision {
                    Some(p) => round_of(stack[0], p),
                    None => stack[0],
                };
                Ok(render_of(d))
            }
        },
        EvalState::Invalid => Err(SpecErr::Invalid),
        EvalState::Unmatched(t) => Err(SpecErr::Unmatched(t)),
    }
}

/// Element-wise evaluation of a batch, in order, stopping at the first error.
pub open spec fn spec_evaluate_many(inputs: Seq<Seq<char>>, precision: Option<u32>) -> Result<
    Seq<Seq<char>>,
    SpecErr,
>
    decreases inputs.len(),
{
    if inputs.len() == 0 {
        Ok(Seq::empty())
    } else {
        match spec_evaluate(inputs.first(), precision) {
            Ok(text) => match spec_evaluate_many(inputs.drop_first(), precision) {
                Ok(rest) => Ok(seq![text] + rest),
                Err(e) => Err(e),
            },
            Err(e) => Err(e),
        }
    }
}

/// Whether an evaluation outcome is the specified one, text for text and
/// error for error, the offending token included.
pub open spec fn result_matches(r: Result<String, OxideErr>, s: Result<Seq<char>, SpecErr>) -> bool {
    match (r, s) {
        (Ok(out), Ok(text)) => out@ == text,
        (Err(OxideErr::InvalidString), Err(SpecErr::Invalid)) => true,
        (Err(OxideErr::UnmatchedToken(t)), Err(SpecErr::Unmatched(text))) => t@ == text,
        _ => false,
    }
}

/// Whether a batch outcome is the specified one.
pub open spec fn many_matches(r: Result<Vec<String>, OxideErr>, s: Result<
    Seq<Seq<char>>,
    SpecErr,
>) -> bool {
    match (r, s) {
        (Ok(outs), Ok(texts)) => token_views(outs@) == texts,
        (Err(OxideErr::InvalidString), Err(SpecErr::Invalid)) => true,
        (Err(OxideErr::UnmatchedToken(t)), Err(SpecErr::Unmatched(text))) => t@ == text,
        _ => false,
    }
}

/// A failed run stays failed however many further tokens the machine steps:
/// the run over the whole sequence equals the run over the failed suffix.
proof fn lemma_run_absorbs(toks: Seq<Seq<char>>, i: int)
    requires
        0 <= i <= toks.len(),
        !(run(toks.subrange(i, toks.len() as int)) is Going),
    ensures
        run(toks) == run(toks.subrange(i, toks.len() as int)),
    decreases i,
{
    if i == 0 {
        assert(toks.subrange(0, toks.len() as int) =~= toks);
    } else {
        let sub_i = toks.subrange(i, toks.len() as int);
        let sub_prev = toks.subrange(i - 1, toks.len() as int);
        assert(sub_prev.drop_first() =~= sub_i);
        assert(run(sub_prev) == step(run(sub_i), sub_prev.first()));
        lemma_run_absorbs(toks, i - 1);
    }
}

/// Whether two strings hold the same characters.
fn eq_str(a: &str, b: &str) -> (r: bool)
    ensures
        r == (a@ == b@),
{
    let n = a.unicode_len();
    let m = b.unicode_len();
    if n != m {
        return false;
    }
    let mut i: usize = 0;
    while i < n
        invariant
            n == a@.len(),
            n == b@.len(),
            i <= n,
            forall|k: int| 0 <= k < i ==> a@[k] == b@[k],
        decreases n - i,
    {
        let ca = a.get_char(i);
        let cb = b.get_char(i);
        if ca != cb {
            return false;
        }
        i = i + 1;
    }
    proof {
        assert(a@ =~= b@);
    }
    true
}

/// Evaluate one expression in prefix function-call notation, rounding the
/// result to `precision` fractional digits when one is given.
pub fn evaluate(input: String, precision: Option<u32>) -> (r: Result<String, OxideErr>)
    ensures
        result_matches(r, spec_evaluate(input@, precision)),
{
    let tokens = tokenize(input.as_str());
    let ghost toks = token_views(tokens@);
    let mut stack: Vec<Dec> = Vec::new();
    let mut i: usize = tokens.len();
    proof {
        assert(toks.subrange(i as int, toks.len() as int) =~= Seq::<Seq<char>>::empty());
    }
    while i > 0
        invariant
            i <= tokens.len(),
            toks == token_views(tokens@),
            toks == tokens_of(input@),
            toks.len() == tokens@.len(),
            run(toks.subrange(i as int, toks.len() as int)) == EvalState::Going(stack@),
            forall|k: int| 0 <= k < stack@.len() ==> (#[trigger] stack@[k]).wf(),
        decreases i,
    {
        i = i - 1;
        let token: &String = &tokens[i];
        let ghost prev_stack = stack@;
        let ghost suffix = toks.subrange(i as int, toks.len() as int);
        proof {
            assert(suffix.drop_first() =~= toks.subrange(i as int + 1, toks.len() as int));
            assert(suffix.first() == token@);
            assert(run(suffix) == step(EvalState::Going(prev_stack), token@));
        }
        match dec_parse(token.as_str()) {
            Some(d) => {
                stack.push(d);
            },
            None => {
                if stack.len() < 2 {
                    proof {
                        lemma_run_absorbs(toks, i as int);
                    }
                    return Err(OxideErr::UnmatchedToken(token.clone()));
                }
                let left = stack.pop().unwrap();
                let right = stack.pop().unwrap();
                proof {
                    assert(stack@ =~= prev_stack.take(prev_stack.len() - 2));
                }
                let res: Option<Dec> = if eq_str(token.as_str(), "add") {
                    dec_add(&left, &right)
                } else if eq_str(token.as_str(), "sub") {
                    dec_sub(&left, &right)
                } else if eq_str(token.as_str(), "mult") {
                    dec_mul(&left, &right)
                } else if eq_str(token.as_str(), "div") {
                    dec_div(&left, &right)
                } else if eq_str(token.as_str(), "mod") {
                    dec_rem(&left, &right)
                } else if eq_str(token.as_str(), "pow") {
                    dec_pow(&left, &right)
                } else {
                    proof {
                        lemma_run_absorbs(toks, i as int);
                    }
                    return Err(OxideErr::InvalidString);
                };
                match res {
                    Some(d) => {
                        stack.push(d);
                    },
                    None => {
                        proof {
                            lemma_run_absorbs(toks, i as int);
                        }
                        return Err(OxideErr::InvalidString);
                    },
                }
            },
        }
    }
    proof {
        assert(toks.subrange(0, toks.len() as int) =~= toks);
    }
    if stack.len() == 0 {
        return Err(OxideErr::InvalidString);
    }
    let bottom = stack[0];
    let out = match precision {
        Some(p) => dec_round(&bottom, p),
        None => bottom,
    };
    Ok(dec_render(&out))
}

/// Evaluate a batch of expressions, in order, with one precision for all:
/// all the result texts, or the first element error with nothing else.
pub fn evaluate_many(inputs: Vec<String>, precision: Option<u32>) -> (r: Result<
    Vec<String>,
    OxideErr,
>)
    ensures
        many_matches(r, spec_evaluate_many(token_views(inputs@), precision)),
{
    let ghost views = token_views(inputs@);
    let mut outs: Vec<String> = Vec::new();
    let mut i: usize = 0;
    while i < inputs.len()
        invariant
            i <= inputs.len(),
            views == token_views(inputs@),
            views.len() == inputs@.len(),
            outs@.len() == i,
            forall|k: int|
                0 <= k < i ==> spec_evaluate(views[k], precision) == Ok::<Seq<char>, SpecErr>(
                    token_views(outs@)[k],
                ),
        decreases inputs.len() - i,
    {
        let one = inputs[i].clone();
        match evaluate(one, precision) {
            Ok(text) => {
                outs.push(text);
            },
            Err(e) => {
                proof {
                    lemma_spec_many_first_err(views, precision, i as int);
                }
                return Err(e);
            },
        }
        i = i + 1;
    }
    proof {
        lemma_spec_many_all_ok(views, precision, token_views(outs@));
    }
    Ok(outs)
}

/// The batch law, element side: when each input evaluates to a text, the
/// batch succeeds with exactly those texts, in input order.
pub proof fn lemma_spec_many_all_ok(inputs: Seq<Seq<char>>, precision: Option<u32>, outs: Seq<
    Seq<char>,
>)
    requires
        outs.len() == inputs.len(),
        forall|k: int|
            0 <= k < inputs.len() ==> spec_evaluate(inputs[k], precision) == Ok::<
                Seq<char>,
                SpecErr,
            >(outs[k]),
    ensures
        spec_evaluate_many(inputs, precision) == Ok::<Seq<Seq<char>>, SpecErr>(outs),
    decreases inputs.len(),
{
    if inputs.len() == 0 {
        assert(outs =~= Seq::<Seq<char>>::empty());
    } else {
        assert(spec_evaluate(inputs[0], precision) == Ok::<Seq<char>, SpecErr>(outs[0]));
        lemma_spec_many_all_ok(inputs.drop_first(), precision, outs.drop_first());
        assert(outs =~= seq![outs.first()] + outs.drop_first());
    }
}

/// The batch law, error side: when every input before position `i` evaluates
/// to a text and the one at `i` fails, the batch fails with exactly that
/// error — the first one — and returns no partial results.
pub proof fn lemma_spec_many_first_err(inputs: Seq<Seq<char>>, precision: Option<u32>, i: int)
    requires
        0 <= i < inputs.len(),
        forall|k: int| 0 <= k < i ==> (#[trigger] spec_evaluate(inputs[k], precision)) is Ok,
        spec_evaluate(inputs[i], precision) is Err,
    ensures
        spec_evaluate_many(inputs, precision) == Err::<Seq<Seq<char>>, SpecErr>(
            spec_evaluate(inputs[i], precision)->Err_0,
        ),
    decreases i,
{
    if i == 0 {
        assert(spec_evaluate(inputs.first(), precision) is Err);
    } else {
        assert(spec_evaluate(inputs[0], precision) is Ok);
        assert(inputs.drop_first()[i - 1] == inputs[i]);
        assert(forall|k: int|
            0 <= k < i - 1 ==> (#[trigger] spec_evaluate(inputs.drop_first()[k], precision))
                == spec_evaluate(inputs[k + 1], precision));
        lemma_spec_many_first_err(inputs.drop_first(), precision, i - 1);
    }
}

/// The batch law, converse side: a batch that succeeds did so element-wise,
/// in input order.
pub proof fn lemma_batch_elementwise(inputs: Seq<Seq<char>>, precision: Option<u32>)
    ensures
        spec_evaluate_many(inputs, precision) matches Ok(outs) ==> outs.len() == inputs.len()
            && forall|k: int|
            0 <= k < inputs.len() ==> #[trigger] spec_evaluate(inputs[k], precision) == Ok::<
                Seq<char>,
                SpecErr,
            >(outs[k]),
    decreases inputs.len(),
{
    if inputs.len() > 0 {
        lemma_batch_elementwise(inputs.drop_first(), precision);
        if spec_evaluate_many(inputs, precision) is Ok {
            let outs = spec_evaluate_many(inputs, precision)->Ok_0;
            let rest = spec_evaluate_many(inputs.drop_first(), precision)->Ok_0;
            assert(forall|k: int|
                0 <= k < inputs.drop_first().len() ==> #[trigger] spec_evaluate(
                    inputs.drop_first()[k],
                    precision,
                ) == Ok::<Seq<char>, SpecErr>(rest[k]));
            assert(forall|k: int|
                1 <= k < inputs.len() ==> inputs.drop_first()[k - 1] == inputs[k] && outs[k]
                    == rest[k - 1]);
        }
    }
}

/// Argument order is respected: evaluating one application `name(first,second)`
/// hands the operator `first` as its left operand and `second` as its right
/// one, and fails as invalid input exactly when the operator is unknown or
/// its arithmetic fails.
pub proof fn lemma_application_argument_order(
    name: Seq<char>,
    a1: Seq<char>,
    a2: Seq<char>,
    d1: Dec,
    d2: Dec,
    precision: Option<u32>,
)
    requires
        name.len() > 0,
        a1.len() > 0,
        a2.len() > 0,
        forall|k: int|
            0 <= k < name.len() ==> !crate::tokenize::is_ws_char(name[k])
                && !crate::tokenize::is_delim_char(name[k]),
        forall|k: int|
            0 <= k < a1.len() ==> !crate::tokenize::is_ws_char(a1[k])
                && !crate::tokenize::is_delim_char(a1[k]),
        forall|k: int|
            0 <= k < a2.len() ==> !crate::tokenize::is_ws_char(a2[k])
                && !crate::tokenize::is_delim_char(a2[k]),
        parse_of(name) is None,
        parse_of(a1) == Some(d1),
        parse_of(a2) == Some(d2),
    ensures
        ({
            let out = spec_evaluate(name + seq!['('] + a1 + seq![','] + a2 + seq![')'], precision);
            match op_result(name, d1, d2) {
                Some(Some(d)) => out == Ok::<Seq<char>, SpecErr>(
                    render_of(
                        match precision {
                            Some(p) => round_of(d, p),
                            None => d,
                        },
                    ),
                ),
                _ => out == Err::<Seq<char>, SpecErr>(SpecErr::Invalid),
            }
        }),
{
    crate::tokenize::lemma_tokens_of_application(name, a1, a2);
    let toks = seq![name, a1, a2];
    assert(toks.drop_first() =~= seq![a1, a2]);
    assert(seq![a1, a2].drop_first() =~= seq![a2]);
    assert(seq![a2].drop_first() =~= Seq::<Seq<char>>::empty());
    assert(run(Seq::<Seq<char>>::empty()) == EvalState::Going(Seq::<Dec>::empty()));
    assert(run(seq![a2]) == EvalState::Going(Seq::<Dec>::empty().push(d2)));
    let stack = Seq::<Dec>::empty().push(d2).push(d1);
    assert(run(seq![a1, a2]) == EvalState::Going(stack));
    assert(stack.len() == 2);
    assert(stack[1] == d1 && stack[0] == d2);
    assert(stack.take(0) =~= Seq::<Dec>::empty());
    match op_result(name, d1, d2) {
        Some(Some(d)) => {
            let one = Seq::<Dec>::empty().push(d);
            assert(run(toks) == EvalState::Going(one));
            assert(one.len() == 1 && one[0] == d);
        },
        _ => {
            assert(run(toks) == EvalState::Invalid);
        },
    }
}

/// Evaluation has no hidden state: the contract of `evaluate` pins its
/// outcome to a function of the input text and the precision alone, so any
/// two outcomes of the same call agree, text for text and error for error.
pub proof fn lemma_evaluation_deterministic(
    r1: Result<String, OxideErr>,
    r2: Result<String, OxideErr>,
    input: Seq<char>,
    precision: Option<u32>,
)
    requires
        result_matches(r1, spec_evaluate(input, precision)),
        result_matches(r2, spec_evaluate(input, precision)),
    ensures
        match (r1, r2) {
            (Ok(a), Ok(b)) => a@ == b@,
            (Err(OxideErr::InvalidString), Err(OxideErr::InvalidString)) => true,
            (Err(OxideErr::UnmatchedToken(t1)), Err(OxideErr::UnmatchedToken(t2))) => t1@ == t2@,
            _ => false,
        },
{
}

/// An under-supplied operator fails naming itself: evaluating `name(x)`,
/// where `name` is no literal and `x` is one, yields the unmatched-token
/// error carrying exactly `name`, whatever the operator and the precision.
pub proof fn lemma_under_supplied_operator(
    name: Seq<char>,
    x: Seq<char>,
    dx: Dec,
    precision: Option<u32>,
)
    requires
        name.len() > 0,
        x.len() > 0,
        forall|k: int|
            0 <= k < name.len() ==> !crate::tokenize::is_ws_char(name[k])
                && !crate::tokenize::is_delim_char(name[k]),
        forall|k: int|
            0 <= k < x.len() ==> !crate::tokenize::is_ws_char(x[k])
                && !crate::tokenize::is_delim_char(x[k]),
        parse_of(name) is None,
        parse_of(x) == Some(dx),
    ensures
        spec_evaluate(name + seq!['('] + x + seq![')'], precision) == Err::<Seq<char>, SpecErr>(
            SpecErr::Unmatched(name),
        ),
{
    crate::tokenize::lemma_tokens_of_unary_application(name, x);
    let toks = seq![name, x];
    assert(toks.drop_first() =~= seq![x]);
    assert(seq![x].drop_first() =~= Seq::<Seq<char>>::empty());
    assert(run(Seq::<Seq<char>>::empty()) == EvalState::Going(Seq::<Dec>::empty()));
    assert(run(seq![x]) == EvalState::Going(Seq::<Dec>::empty().push(dx)));
    assert(Seq::<Dec>::empty().push(dx).len() == 1);
    assert(run(toks) == EvalState::Unmatched(name));
}

/// Nesting in the second argument associates correctly: evaluating
/// `op1(x,op2(y,z))` hands `op1` the literal `x` as its left operand and the
/// value of the inner application as its right one.
pub proof fn lemma_nesting_right(
    op1: Seq<char>,
    x: Seq<char>,
    op2: Seq<char>,
    y: Seq<char>,
    z: Seq<char>,
    dx: Dec,
    dy: Dec,
    dz: Dec,
    v2: Dec,
    precision: Option<u32>,
)
    requires
        op1.len() > 0,
        x.len() > 0,
        op2.len() > 0,
        y.len() > 0,
        z.len() > 0,
        forall|k: int|
            0 <= k < op1.len() ==> !crate::tokenize::is_ws_char(op1[k])
                && !crate::tokenize::is_delim_char(op1[k]),
        forall|k: int|
            0 <= k < x.len() ==> !crate::tokenize::is_ws_char(x[k])
                && !crate::tokenize::is_delim_char(x[k]),
        forall|k: int|
            0 <= k < op2.len() ==> !crate::tokenize::is_ws_char(op2[k])
                && !crate::tokenize::is_delim_char(op2[k]),
        forall|k: int|
            0 <= k < y.len() ==> !crate::tokenize::is_ws_char(y[k])
                && !crate::tokenize::is_delim_char(y[k]),
        forall|k: int|
            0 <= k < z.len() ==> !crate::tokenize::is_ws_char(z[k])
                && !crate::tokenize::is_delim_char(z[k]),
        parse_of(op1) is None,
        parse_of(op2) is None,
        parse_of(x) == Some(dx),
        parse_of(y) == Some(dy),
        parse_of(z) == Some(dz),
        op_result(op2, dy, dz) == Some(Some(v2)),
    ensures
        ({
            let out = spec_evaluate(
                op1 + seq!['('] + x + seq![','] + op2 + seq!['('] + y + seq![','] + z + seq![')']
                    + seq![')'],
                precision,
            );
            match op_result(op1, dx, v2) {
                Some(Some(d)) => out == Ok::<Seq<char>, SpecErr>(
                    render_of(
                        match precision {
                            Some(p) => round_of(d, p),
                            None => d,
                        },
                    ),
                ),
                _ => out == Err::<Seq<char>, SpecErr>(SpecErr::Invalid),
            }
        }),
{
    crate::tokenize::lemma_tokens_of_nested_right(op1, x, op2, y, z);
    let toks = seq![op1, x, op2, y, z];
    assert(toks.drop_first() =~= seq![x, op2, y, z]);
    assert(seq![x, op2, y, z].drop_first() =~= seq![op2, y, z]);
    assert(seq![op2, y, z].drop_first() =~= seq![y, z]);
    assert(seq![y, z].drop_first() =~= seq![z]);
    assert(seq![z].drop_first() =~= Seq::<Seq<char>>::empty());
    assert(run(Seq::<Seq<char>>::empty()) == EvalState::Going(Seq::<Dec>::empty()));
    assert(run(seq![z]) == EvalState::Going(Seq::<Dec>::empty().push(dz)));
    let two = Seq::<Dec>::empty().push(dz).push(dy);
    assert(run(seq![y, z]) == EvalState::Going(two));
    assert(two.len() == 2 && two[1] == dy && two[0] == dz);
    assert(two.take(0) =~= Seq::<Dec>::empty());
    assert(run(seq![op2, y, z]) == EvalState::Going(Seq::<Dec>::empty().push(v2)));
    let mid = Seq::<Dec>::empty().push(v2).push(dx);
    assert(run(seq![x, op2, y, z]) == EvalState::Going(mid));
    assert(mid.len() == 2 && mid[1] == dx && mid[0] == v2);
    assert(mid.take(0) =~= Seq::<Dec>::empty());
    match op_result(op1, dx, v2) {
        Some(Some(d)) => {
            let one = Seq::<Dec>::empty().push(d);
            assert(run(toks) == EvalState::Going(one));
            assert(one.len() == 1 && one[0] == d);
        },
        _ => {
            assert(run(toks) == EvalState::Invalid);
        },
    }
}

/// Nesting in the first argument associates correctly: evaluating
/// `op1(op2(y,z),x)` hands `op1` the value of the inner application as its
/// left operand and the literal `x` as its right one.
pub proof fn lemma_nesting_left(
    op1: Seq<char>,
    op2: Seq<char>,
    y: Seq<char>,
    z: Seq<char>,
    x: Seq<char>,
    dy: Dec,
    dz: Dec,
    dx: Dec,
    v2: Dec,
    precision: Option<u32>,
)
    requires
        op1.len() > 0,
        op2.len() > 0,
        y.len() > 0,
        z.len() > 0,
        x.len() > 0,
        forall|k: int|
            0 <= k < op1.len() ==> !crate::tokenize::is_ws_char(op1[k])
                && !crate::tokenize::is_delim_char(op1[k]),
        forall|k: int|
            0 <= k < op2.len() ==> !crate::tokenize::is_ws_char(op2[k])
                && !crate::tokenize::is_delim_char(op2[k]),
        forall|k: int|
            0 <= k < y.len() ==> !crate::tokenize::is_ws_char(y[k])
                && !crate::tokenize::is_delim_char(y[k]),
        forall|k: int|
            0 <= k < z.len() ==> !crate::tokenize::is_ws_char(z[k])
                && !crate::tokenize::is_delim_char(z[k]),
        forall|k: int|
            0 <= k < x.len() ==> !crate::tokenize::is_ws_char(x[k])
                && !crate::tokenize::is_delim_char(x[k]),
        parse_of(op1) is None,
        parse_of(op2) is None,
        parse_of(y) == Some(dy),
        parse_of(z) == Some(dz),
        parse_of(x) == Some(dx),
        op_result(op2, dy, dz) == Some(Some(v2)),
    ensures
        ({
            let out = spec_evaluate(
                op1 + seq!['('] + op2 + seq!['('] + y + seq![','] + z + seq![')'] + seq![','] + x
                    + seq![')'],
                precision,
            );
            match op_result(op1, v2, dx) {
                Some(Some(d)) => out == Ok::<Seq<char>, SpecErr>(
                    render_of(
                        match precision {
                            Some(p) => round_of(d, p),
                            None => d,
                        },
                    ),
                ),
                _ => out == Err::<Seq<char>, SpecErr>(SpecErr::Invalid),
            }
        }),
{
    crate::tokenize::lemma_tokens_of_nested_left(op1, op2, y, z, x);
    let toks = seq![op1, op2, y, z, x];
    assert(toks.drop_first() =~= seq![op2, y, z, x]);
    assert(seq![op2, y, z, x].drop_first() =~= seq![y, z, x]);
    assert(seq![y, z, x].drop_first() =~= seq![z, x]);
    assert(seq![z, x].drop_first() =~= seq![x]);
    assert(seq![x].drop_first() =~= Seq::<Seq<char>>::empty());
    assert(run(Seq::<Seq<char>>::empty()) == EvalState::Going(Seq::<Dec>::empty()));
    assert(run(seq![x]) == EvalState::Going(Seq::<Dec>::empty().push(dx)));
    assert(run(seq![z, x]) == EvalState::Going(Seq::<Dec>::empty().push(dx).push(dz)));
    let three = Seq::<Dec>::empty().push(dx).push(dz).push(dy);
    assert(run(seq![y, z, x]) == EvalState::Going(three));
    assert(three.len() == 3 && three[2] == dy && three[1] == dz);
    assert(three.take(1) =~= Seq::<Dec>::empty().push(dx));
    let mid = Seq::<Dec>::empty().push(dx).push(v2);
    assert(run(seq![op2, y, z, x]) == EvalState::Going(mid));
    assert(mid.len() == 2 && mid[1] == v2 && mid[0] == dx);
    assert(mid.take(0) =~= Seq::<Dec>::empty());
    match op_result(op1, v2, dx) {
        Some(Some(d)) => {
            let one = Seq::<Dec>::empty().push(d);
            assert(run(toks) == EvalState::Going(one));
            assert(one.len() == 1 && one[0] == d);
        },
        _ => {
            assert(run(toks) == EvalState::Invalid);
        },
    }
}

/// Whitespace anywhere in the input is insignificant: two inputs that agree
/// once whitespace is removed evaluate alike, for every precision.
pub proof fn lemma_whitespace_insignificant(a: Seq<char>, b: Seq<char>, precision: Option<u32>)
    requires
        strip_ws(a) == strip_ws(b),
    ensures
        spec_evaluate(a, precision) == spec_evaluate(b, precision),
{
    assert(tokens_of(a) == tokens_of(b));
}

/// A corollary: an input evaluates exactly as its whitespace-free form does.
pub proof fn lemma_stripped_evaluates_alike(s: Seq<char>, precision: Option<u32>)
    ensures
        spec_evaluate(strip_ws(s), precision) == spec_evaluate(s, precision),
{
    crate::tokenize::lemma_strip_ws_idempotent(s);
    lemma_whitespace_insignificant(strip_ws(s), s, precision);
}

} // verus!
