//! The rewrite behind the pipeline operator `->`: the values on its left
//! become arguments of the function call on its right.

use crate::error::CompileError;
use crate::lexer::tokens::Token;
use crate::parser::ast::{expr_models, lemma_expr_children, Expr, ExprModel};
use vstd::prelude::*;

verus! {

/// The position of the first placeholder of `args` at or behind `from`, or
/// the length of `args` if there is none.
pub open spec fn placeholder_index(args: Seq<ExprModel>, from: int) -> int
    decreases args.len() - from,
{
    if 0 <= from < args.len() && !(args[from] is Placeholder) {
        placeholder_index(args, from + 1)
    } else {
        from
    }
}

/// Passing one value into an argument list: it takes the place of the first
/// placeholder, or goes to the end if there is no placeholder.
pub open spec fn splice_one(args: Seq<ExprModel>, x: ExprModel) -> Seq<ExprModel> {
    let i = placeholder_index(args, 0);
    if i < args.len() {
        args.update(i, x)
    } else {
        args.push(x)
    }
}

/// Passing the values `xs` into an argument list, one after another from
/// first to last.
pub open spec fn splice_all(args: Seq<ExprModel>, xs: Seq<ExprModel>) -> Seq<ExprModel>
    decreases xs.len(),
{
    if xs.len() == 0 {
        args
    } else {
        splice_one(splice_all(args, xs.drop_last()), xs.last())
    }
}

/// Whether `op` is one of the two operators through which a pipeline looks
/// for its call: `.` and `::`.
pub open spec fn is_path_op(op: Token) -> bool {
    op == Token::Dot || op == Token::DoubleColon
}

/// Passing `xs` into the call at the end of `rhs`. The call is `rhs` itself
/// or is reached from it by going to the right operand of `.` and `::`
/// nodes; everything above the call stays as it is. Any other node on the
/// way is an error.
pub open spec fn splice_target(rhs: ExprModel, xs: Seq<ExprModel>) -> Result<
    ExprModel,
    CompileError,
>
    decreases rhs,
{
    match rhs {
        ExprModel::FnCall { fn_name, args } => Ok(
            ExprModel::FnCall { fn_name, args: splice_all(args, xs) },
        ),
        ExprModel::InfixOp { op, lhs, rhs: inner } => if is_path_op(op) {
            match splice_target(*inner, xs) {
                Ok(e) => Ok(ExprModel::InfixOp { op, lhs, rhs: Box::new(e) }),
                Err(e) => Err(e),
            }
        } else {
            Err(CompileError::ArrowTargetNotCall)
        },
        _ => Err(CompileError::ArrowTargetNotCall),
    }
}

/// The values that a left-hand side passes on: the items of a tuple, or the
/// expression itself.
pub open spec fn passed_values(lhs: ExprModel) -> Seq<ExprModel> {
    match lhs {
        ExprModel::Tuple(items) => items,
        _ => seq![lhs],
    }
}

/// What `lhs -> rhs` becomes. Into a bare name it stays an application of
/// `->`; otherwise the values of `lhs` are passed into the call at the end
/// of `rhs`.
pub open spec fn pipeline(lhs: ExprModel, rhs: ExprModel) -> Result<ExprModel, CompileError> {
    if rhs is Ident {
        Ok(ExprModel::InfixOp { op: Token::RightArrow, lhs: Box::new(lhs), rhs: Box::new(rhs) })
    } else {
        splice_target(rhs, passed_values(lhs))
    }
}

/// The position of the first placeholder is within the list or at its end,
/// holds a placeholder if it is within, and has none before it.
pub proof fn lemma_placeholder_index(args: Seq<ExprModel>, from: int)
    requires
        0 <= from <= args.len(),
    ensures
        from <= placeholder_index(args, from) <= args.len(),
        placeholder_index(args, from) < args.len() ==> args[placeholder_index(
            args,
            from,
        )] is Placeholder,
        forall|j: int| from <= j < placeholder_index(args, from) ==> !(
        #[trigger] args[j] is Placeholder),
    decreases args.len() - from,
{
    if from < args.len() && !(args[from] is Placeholder) {
        lemma_placeholder_index(args, from + 1);
    }
}

/// The number of placeholders among the first `n` of `args`.
pub open spec fn placeholders_before(args: Seq<ExprModel>, n: int) -> nat
    decreases n,
{
    if n <= 0 || n > args.len() {
        0
    } else if args[n - 1] is Placeholder {
        placeholders_before(args, n - 1) + 1
    } else {
        placeholders_before(args, n - 1)
    }
}

/// The number of placeholders of `args`.
pub open spec fn placeholder_count(args: Seq<ExprModel>) -> nat {
    placeholders_before(args, args.len() as int)
}

/// What `args` holds once the values `xs` have filled its placeholders
/// from left to right: the placeholder with `i` placeholders before it
/// holds `xs[i]`, if there is such a value; the values for which no
/// placeholder is left follow behind the arguments, in order; everything
/// else is as it was.
pub open spec fn filled(args: Seq<ExprModel>, xs: Seq<ExprModel>) -> Seq<ExprModel> {
    let k = placeholder_count(args);
    let extra = if xs.len() > k {
        xs.len() - k
    } else {
        0
    };
    Seq::new(
        (args.len() + extra) as nat,
        |j: int|
            if j < args.len() {
                if args[j] is Placeholder && placeholders_before(args, j) < xs.len() {
                    xs[placeholders_before(args, j) as int]
                } else {
                    args[j]
                }
            } else {
                xs[k + j - args.len()]
            },
    )
}

/// Placeholders are counted from left to right: a longer run of arguments
/// holds at least as many, and more if it goes past another placeholder.
proof fn lemma_placeholders_monotone(args: Seq<ExprModel>, a: int, b: int)
    requires
        0 <= a <= b <= args.len(),
    ensures
        placeholders_before(args, a) <= placeholders_before(args, b),
        a < b && args[a] is Placeholder ==> placeholders_before(args, a) < placeholders_before(
            args,
            b,
        ),
    decreases b - a,
{
    if a < b {
        lemma_placeholders_monotone(args, a, b - 1);
    }
}

/// If more than `r` placeholders stand among the first `n` arguments, one
/// of them has exactly `r` placeholders before it.
proof fn lemma_placeholder_of_rank(args: Seq<ExprModel>, n: int, r: nat) -> (j: int)
    requires
        0 <= n <= args.len(),
        r < placeholders_before(args, n),
    ensures
        0 <= j < n,
        args[j] is Placeholder,
        placeholders_before(args, j) == r,
    decreases n,
{
    if args[n - 1] is Placeholder && placeholders_before(args, n - 1) == r {
        n - 1
    } else {
        lemma_placeholder_of_rank(args, n - 1, r)
    }
}

/// Passing values into an argument list fills its placeholders from left
/// to right and puts behind the arguments what is left over.
///
/// None of the values but the last may itself be a placeholder: a
/// placeholder that was passed in would be the first to be filled by the
/// value behind it.
pub proof fn lemma_splice_all_fills(args: Seq<ExprModel>, xs: Seq<ExprModel>)
    requires
        forall|i: int| 0 <= i < xs.len() - 1 ==> !(#[trigger] xs[i] is Placeholder),
    ensures
        splice_all(args, xs) == filled(args, xs),
    decreases xs.len(),
{
    let k = placeholder_count(args);
    if xs.len() == 0 {
        assert(splice_all(args, xs) =~= filled(args, xs));
    } else {
        let front = xs.drop_last();
        let x = xs.last();
        let m = front.len();
        lemma_splice_all_fills(args, front);
        let before = filled(args, front);
        assert(splice_all(args, front) == before);
        lemma_placeholder_index(before, 0);
        let at = placeholder_index(before, 0);
        if m < k {
            let j = lemma_placeholder_of_rank(args, args.len() as int, m);
            assert(before[j] is Placeholder);
            assert forall|i: int| 0 <= i < j implies !(#[trigger] before[i] is Placeholder) by {
                if args[i] is Placeholder {
                    lemma_placeholders_monotone(args, i, j);
                    assert(before[i] == front[placeholders_before(args, i) as int]);
                }
            }
            assert(at == j) by {
                if at < j {
                    assert(!(before[at] is Placeholder));
                }
            }
            assert forall|i: int| 0 <= i < args.len() && i != j && args[i] is Placeholder
                implies placeholders_before(args, i) != m by {
                if i < j {
                    lemma_placeholders_monotone(args, i, j);
                } else {
                    lemma_placeholders_monotone(args, j, i);
                }
            }
            assert(before.update(at, x) =~= filled(args, xs));
        } else {
            assert forall|i: int| 0 <= i < before.len() implies !(
            #[trigger] before[i] is Placeholder) by {
                if i < args.len() {
                    if args[i] is Placeholder {
                        lemma_placeholders_monotone(args, i, args.len() as int);
                        assert(before[i] == front[placeholders_before(args, i) as int]);
                    }
                } else {
                    assert(before[i] == front[k + i - args.len()]);
                }
            }
            assert(at == before.len()) by {
                if at < before.len() {
                    assert(!(before[at] is Placeholder));
                }
            }
            assert forall|i: int| 0 <= i < args.len() && args[i] is Placeholder implies
                placeholders_before(args, i) < m by {
                lemma_placeholders_monotone(args, i, args.len() as int);
            }
            assert(before.push(x) =~= filled(args, xs));
        }
    }
}

/// A single value that is piped into a call without placeholders becomes
/// the last argument of the call: `lhs -> f(a, b)` is `f(a, b, lhs)`.
pub proof fn law_pipeline_appends(lhs: ExprModel, fn_name: Seq<char>, args: Seq<ExprModel>)
    requires
        !(lhs is Tuple),
        forall|i: int| 0 <= i < args.len() ==> !(#[trigger] args[i] is Placeholder),
    ensures
        pipeline(lhs, ExprModel::FnCall { fn_name, args }) == Ok::<ExprModel, CompileError>(
            ExprModel::FnCall { fn_name, args: args.push(lhs) },
        ),
{
    let xs = passed_values(lhs);
    assert(xs =~= seq![lhs]);
    assert(xs.drop_last() =~= Seq::<ExprModel>::empty());
    assert(splice_all(args, xs.drop_last()) == args);
    lemma_placeholder_index(args, 0);
    if placeholder_index(args, 0) < args.len() {
        assert(!(args[placeholder_index(args, 0)] is Placeholder));
    }
    assert(splice_all(args, xs) == args.push(lhs));
}

/// A tuple that is piped into a call fills the placeholders of the call
/// from left to right: with `k` placeholders in the call and `m` items in
/// the tuple, the first `min(k, m)` items take the places of the first
/// placeholders, in order, and the other items follow behind the
/// arguments, in order.
///
/// None of the items but the last may itself be a placeholder: a
/// placeholder that was passed in would be the first to be filled by the
/// item behind it.
pub proof fn law_placeholder_fill(
    items: Seq<ExprModel>,
    fn_name: Seq<char>,
    args: Seq<ExprModel>,
)
    requires
        forall|i: int| 0 <= i < items.len() - 1 ==> !(#[trigger] items[i] is Placeholder),
    ensures
        pipeline(ExprModel::Tuple(items), ExprModel::FnCall { fn_name, args }) == Ok::<
            ExprModel,
            CompileError,
        >(ExprModel::FnCall { fn_name, args: filled(args, items) }),
{
    lemma_splice_all_fills(args, items);
}

/// Passes `x` into `args`.
fn splice_value(args: &mut Vec<Expr>, x: Expr)
    ensures
        expr_models(final(args)@) == splice_one(expr_models(old(args)@), x@),
{
    let ghost before = expr_models(args@);
    let mut i: usize = 0;
    while i < args.len() && !matches!(args[i], Expr::Placeholder)
        invariant
            i <= args@.len(),
            args@ == old(args)@,
            placeholder_index(before, i as int) == placeholder_index(before, 0),
            before == expr_models(args@),
        decreases args@.len() - i,
    {
        i = i + 1;
    }
    if i < args.len() {
        args.set(i, x);
        assert(expr_models(args@) =~= before.update(i as int, x@));
    } else {
        args.push(x);
        assert(expr_models(args@) =~= before.push(x@));
    }
}

/// Passes the values `xs` into `args`, from first to last.
fn splice_values(args: &mut Vec<Expr>, xs: Vec<Expr>)
    ensures
        expr_models(final(args)@) == splice_all(expr_models(old(args)@), expr_models(xs@)),
{
    let ghost before = expr_models(args@);
    for x in it: xs
        invariant
            it.seq() == xs@,
            expr_models(args@) == splice_all(before, expr_models(xs@.take(it.index() as int))),
    {
        let ghost n = it.index() as int;
        assert(expr_models(xs@.take(n + 1)).drop_last() =~= expr_models(xs@.take(n)));
        assert(expr_models(xs@.take(n + 1)).last() == x@);
        splice_value(args, x);
    }
    assert(xs@.take(xs@.len() as int) =~= xs@);
}

/// Passes `xs` into the call at the end of `rhs`.
fn splice_into(rhs: Expr, xs: Vec<Expr>) -> (r: Result<Expr, CompileError>)
    ensures
        match r {
            Ok(e) => splice_target(rhs@, expr_models(xs@)) == Ok::<ExprModel, CompileError>(e@),
            Err(err) => splice_target(rhs@, expr_models(xs@)) == Err::<ExprModel, CompileError>(
                err,
            ),
        },
    decreases rhs,
{
    proof {
        lemma_expr_children(rhs);
    }
    match rhs {
        Expr::FnCall { fn_name, args } => {
            let mut args = args;
            splice_values(&mut args, xs);
            let e = Expr::FnCall { fn_name, args };
            proof {
                lemma_expr_children(e);
            }
            Ok(e)
        },
        Expr::InfixOp { op, lhs, rhs: inner } => {
            if op == Token::Dot || op == Token::DoubleColon {
                match splice_into(*inner, xs) {
                    Ok(e) => Ok(Expr::InfixOp { op, lhs, rhs: Box::new(e) }),
                    Err(err) => Err(err),
                }
            } else {
                Err(CompileError::ArrowTargetNotCall)
            }
        },
        _ => Err(CompileError::ArrowTargetNotCall),
    }
}

/// Builds what `lhs -> rhs` stands for.
///
/// Into a bare name the pipeline stays an application of `->`. Otherwise
/// `rhs` must end in a function call, reached through the right operands of
/// `.` and `::`; the values of `lhs` (the items of a tuple, or `lhs` itself)
/// are passed into that call in order, each taking the place of the first
/// placeholder left or going to the end of the arguments.
pub fn pipeline_expr(lhs: Expr, rhs: Expr) -> (r: Result<Expr, CompileError>)
    ensures
        match r {
            Ok(e) => pipeline(lhs@, rhs@) == Ok::<ExprModel, CompileError>(e@),
            Err(err) => pipeline(lhs@, rhs@) == Err::<ExprModel, CompileError>(err),
        },
{
    proof {
        lemma_expr_children(lhs);
    }
    if matches!(rhs, Expr::Ident(_)) {
        Ok(Expr::InfixOp { op: Token::RightArrow, lhs: Box::new(lhs), rhs: Box::new(rhs) })
    } else {
        match lhs {
            Expr::Tuple(items) => splice_into(rhs, items),
            other => {
                let mut xs: Vec<Expr> = Vec::new();
                xs.push(other);
                assert(expr_models(xs@) =~= seq![other@]);
                splice_into(rhs, xs)
            },
        }
    }
}

} // verus!
