//! What holds of every sequence that is traversed through the fold.
//!
//! The laws are stated over the spec functions that the contracts of
//! [`TryFold`](crate::fold::TryFold) use, so each of them holds of every
//! implementor that meets the contract of `try_fold`.
use crate::fold::after_next;
use crate::fold::combine_allowed;
use crate::fold::combines_to;
use crate::fold::is_exact_hint;
use crate::fold::next_item;
use crate::fold::steps_allowed;
use crate::fold::steps_to;
use crate::outcome::Outcome;
use std::ops::ControlFlow;
use vstd::prelude::*;

verus! {

/// What is left of `s` after `k` pulls.
pub open spec fn after_nexts<T>(s: Seq<T>, k: nat) -> Seq<T>
    decreases k,
{
    if k == 0 {
        s
    } else {
        after_next(after_nexts(s, (k - 1) as nat))
    }
}

/// Pulling the elements of `s` one by one until a pull yields nothing, and
/// combining each into `acc` as it comes, may give `out`.
pub open spec fn drains_to<B, T>(
    post: spec_fn(B, T, B) -> bool,
    s: Seq<T>,
    acc: B,
    out: B,
) -> bool
    decreases s.len(),
{
    match next_item(s) {
        None => out == acc,
        Some(item) => exists|next: B| #[trigger]
            post(acc, item, next) && drains_to(post, after_next(s), next, out),
    }
}

/// What a short-circuiting fold over `s` from `acc` returns and what it
/// leaves unconsumed, where each step is computed by `step`.
pub open spec fn short_circuit<B, T, R: Outcome<Output = B>>(
    step: spec_fn(B, T) -> R,
    s: Seq<T>,
    acc: B,
) -> (R, Seq<T>)
    decreases s.len(),
{
    if s.len() == 0 {
        (R::from_output_spec(acc), s)
    } else {
        match step(acc, s[0]).branch_spec() {
            ControlFlow::Continue(next) => short_circuit(step, s.skip(1), next),
            ControlFlow::Break(residual) => (R::from_residual_spec(residual), s.skip(1)),
        }
    }
}

/// `k` pulls consume the first `k` elements, or all of them where there are
/// fewer.
pub proof fn lemma_after_nexts_skips<T>(s: Seq<T>, k: nat)
    ensures
        k <= s.len() ==> after_nexts(s, k) == s.skip(k as int),
        k >= s.len() ==> after_nexts(s, k).len() == 0,
    decreases k,
{
    if k > 0 {
        lemma_after_nexts_skips(s, (k - 1) as nat);
        if k <= s.len() {
            assert(s.skip(k - 1).skip(1) == s.skip(k as int));
        }
    }
}

/// Pulling from a sequence of `n` elements yields them first to last: pull
/// number `k`, counted from zero, yields the element at index `k`, and every
/// pull from number `n` on yields nothing.
pub proof fn lemma_nexts_yield_in_order<T>(s: Seq<T>, k: nat)
    ensures
        k < s.len() ==> next_item(after_nexts(s, k)) == Some(s[k as int]),
        k >= s.len() ==> next_item(after_nexts(s, k)) is None,
{
    lemma_after_nexts_skips(s, k);
}

/// An exact size estimate counts down with the pulls: taken after `k` pulls
/// from a sequence that held at least `k` elements, it is the estimate taken
/// before them minus `k`.
pub proof fn lemma_exact_hint_counts_down<T>(
    s: Seq<T>,
    k: nat,
    before: (usize, Option<usize>),
    after: (usize, Option<usize>),
)
    requires
        k <= s.len(),
        is_exact_hint(before, s),
        is_exact_hint(after, after_nexts(s, k)),
    ensures
        after.0 == before.0 - k,
        after.1 == Some(after.0),
{
    lemma_after_nexts_skips(s, k);
}

/// Folding a sequence gives what pulling its elements one by one and
/// combining them by hand gives: the two traversals have the same possible
/// results.
pub proof fn lemma_fold_is_repeated_next<B, T>(
    post: spec_fn(B, T, B) -> bool,
    s: Seq<T>,
    acc: B,
    out: B,
)
    ensures
        combines_to(post, s, acc, out) <==> drains_to(post, s, acc, out),
    decreases s.len(),
{
    if s.len() > 0 {
        let item = next_item(s)->Some_0;
        assert(item == s[0] && after_next(s) == s.skip(1));
        if combines_to(post, s, acc, out) {
            let next = choose|next: B| #[trigger]
                post(acc, s[0], next) && combines_to(post, s.skip(1), next, out);
            lemma_fold_is_repeated_next(post, s.skip(1), next, out);
            assert(post(acc, item, next) && drains_to(post, after_next(s), next, out));
        }
        if drains_to(post, s, acc, out) {
            let next = choose|next: B| #[trigger]
                post(acc, item, next) && drains_to(post, after_next(s), next, out);
            lemma_fold_is_repeated_next(post, s.skip(1), next, out);
            assert(post(acc, s[0], next) && combines_to(post, s.skip(1), next, out));
        }
    }
}

/// Folding with a combining function that computes `g` gives the left fold
/// of the sequence by `g`.
pub proof fn lemma_fold_of_function<B, T>(
    post: spec_fn(B, T, B) -> bool,
    g: spec_fn(B, T) -> B,
    s: Seq<T>,
    acc: B,
    out: B,
)
    requires
        forall|a: B, item: T, next: B| #[trigger] post(a, item, next) ==> next == g(a, item),
        combines_to(post, s, acc, out),
    ensures
        out == s.fold_left(acc, g),
    decreases s.len(),
{
    s.lemma_fold_left_alt(acc, g);
    if s.len() > 0 {
        let next = choose|next: B| #[trigger]
            post(acc, s[0], next) && combines_to(post, s.skip(1), next, out);
        lemma_fold_of_function(post, g, s.skip(1), next, out);
        s.skip(1).lemma_fold_left_alt(next, g);
    }
}

/// A short-circuiting fold whose step function computes `step` returns and
/// leaves what [`short_circuit`] says.
pub proof fn lemma_try_fold_of_function<B, T, R: Outcome<Output = B>>(
    post: spec_fn(B, T, R) -> bool,
    step: spec_fn(B, T) -> R,
    s: Seq<T>,
    acc: B,
    rest: Seq<T>,
    out: R,
)
    requires
        forall|a: B, item: T, made: R| #[trigger] post(a, item, made) ==> made == step(a, item),
        steps_to(post, s, acc, rest, out),
    ensures
        (out, rest) == short_circuit(step, s, acc),
    decreases s.len(),
{
    if s.len() > 0 {
        let made = choose|made: R| #[trigger]
            post(acc, s[0], made) && match made.branch_spec() {
                ControlFlow::Continue(next) => steps_to(post, s.skip(1), next, rest, out),
                ControlFlow::Break(residual) => out == R::from_residual_spec(residual) && rest
                    == s.skip(1),
            };
        if let ControlFlow::Continue(next) = made.branch_spec() {
            lemma_try_fold_of_function(post, step, s.skip(1), next, rest, out);
        }
    }
}

/// Once a step has stopped the fold, no further element is consumed: what
/// the fold leaves is the sequence without the elements it made a step on,
/// which are the first ones.
pub proof fn lemma_fold_leaves_a_suffix<B, T, R: Outcome<Output = B>>(
    post: spec_fn(B, T, R) -> bool,
    s: Seq<T>,
    acc: B,
    rest: Seq<T>,
    out: R,
)
    requires
        steps_to(post, s, acc, rest, out),
    ensures
        rest.len() <= s.len(),
        rest == s.skip(s.len() - rest.len()),
    decreases s.len(),
{
    if s.len() > 0 {
        let made = choose|made: R| #[trigger]
            post(acc, s[0], made) && match made.branch_spec() {
                ControlFlow::Continue(next) => steps_to(post, s.skip(1), next, rest, out),
                ControlFlow::Break(residual) => out == R::from_residual_spec(residual) && rest
                    == s.skip(1),
            };
        if let ControlFlow::Continue(next) = made.branch_spec() {
            lemma_fold_leaves_a_suffix(post, s.skip(1), next, rest, out);
            assert(s.skip(1).skip(s.len() - 1 - rest.len()) == s.skip(s.len() - rest.len()));
        }
    } else {
        assert(s.skip(0) == s);
    }
}

/// A step function that may be called on every accumulator and element may
/// be handed to a fold over any sequence, from any accumulator.
pub proof fn lemma_total_step_is_allowed<B, T, R: Outcome<Output = B>>(
    pre: spec_fn(B, T) -> bool,
    post: spec_fn(B, T, R) -> bool,
    s: Seq<T>,
    acc: B,
)
    requires
        forall|a: B, item: T| #[trigger] pre(a, item),
    ensures
        steps_allowed(pre, post, s, acc),
    decreases s.len(),
{
    if s.len() > 0 {
        assert forall|step: R| #[trigger] post(acc, s[0], step) implies match step.branch_spec() {
            ControlFlow::Continue(next) => steps_allowed(pre, post, s.skip(1), next),
            ControlFlow::Break(_) => true,
        } by {
            if let ControlFlow::Continue(next) = step.branch_spec() {
                lemma_total_step_is_allowed(pre, post, s.skip(1), next);
            }
        }
    }
}

/// A combining function that may be called on every accumulator and element
/// may be handed to a fold over any sequence, from any accumulator.
pub proof fn lemma_total_combine_is_allowed<B, T>(
    pre: spec_fn(B, T) -> bool,
    post: spec_fn(B, T, B) -> bool,
    s: Seq<T>,
    acc: B,
)
    requires
        forall|a: B, item: T| #[trigger] pre(a, item),
    ensures
        combine_allowed(pre, post, s, acc),
    decreases s.len(),
{
    if s.len() > 0 {
        assert forall|next: B| #[trigger] post(acc, s[0], next) implies combine_allowed(
            pre,
            post,
            s.skip(1),
            next,
        ) by {
            lemma_total_combine_is_allowed(pre, post, s.skip(1), next);
        }
    }
}

/// A step that always stops ends the fold on the first element: the fold
/// needs the step to be allowed on that element only, consumes it and no
/// other, and returns the residual of that one step.
pub proof fn lemma_stopping_step_consumes_one<B, T, R: Outcome<Output = B>>(
    pre: spec_fn(B, T) -> bool,
    post: spec_fn(B, T, R) -> bool,
    s: Seq<T>,
    acc: B,
    rest: Seq<T>,
    out: R,
)
    requires
        forall|a: B, item: T, step: R| #[trigger] post(a, item, step) ==> step.branch_spec() is Break,
        s.len() > 0,
    ensures
        steps_allowed(pre, post, s, acc) <==> pre(acc, s[0]),
        steps_to(post, s, acc, rest, out) <==> rest == s.skip(1) && exists|step: R| #[trigger]
            post(acc, s[0], step) && match step.branch_spec() {
                ControlFlow::Continue(_) => false,
                ControlFlow::Break(residual) => out == R::from_residual_spec(residual),
            },
{
}

} // verus!
