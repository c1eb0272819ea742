//! The short-circuiting fold and the two traversals derived from it.
//!
//! A step function is read here through two relations: on which accumulator
//! and element it may be called, and which value it may hand back for them.
//! The fold is defined over these relations and a `Seq` of elements, first as
//! mathematics ([`steps_to`], [`combines_to`]), then for executable step
//! functions ([`try_folds_to`], [`folds_to`]). [`TryFold`] ties a sequence
//! type to that definition.
use crate::outcome::Break;
use crate::outcome::Continue;
use crate::outcome::Outcome;
use std::ops::ControlFlow;
use vstd::prelude::*;

verus! {

/// Every call that a short-circuiting fold over `s` from `acc` makes to its
/// step function is allowed.
///
/// `pre` says on which accumulator and element the step function may be
/// called, `post` which value it may return for them. The fold calls it on
/// `acc` and the first element; whenever the value returned says to go on,
/// the same must hold of the elements that follow, from the accumulator
/// handed over.
pub open spec fn steps_allowed<B, T, R: Outcome<Output = B>>(
    pre: spec_fn(B, T) -> bool,
    post: spec_fn(B, T, R) -> bool,
    s: Seq<T>,
    acc: B,
) -> bool
    decreases s.len(),
{
    s.len() > 0 ==> {
        &&& pre(acc, s[0])
        &&& forall|step: R| #[trigger]
            post(acc, s[0], step) ==> match step.branch_spec() {
                ControlFlow::Continue(next) => steps_allowed(pre, post, s.skip(1), next),
                ControlFlow::Break(_) => true,
            }
    }
}

/// A short-circuiting fold over `s` from `acc` may return `out` and leave
/// `rest` unconsumed.
///
/// With no element left, the fold returns the accumulator as an output and
/// consumes nothing. Otherwise it consumes the first element and makes a
/// step on it: a step that stops ends the fold with its residual, and the
/// elements after it stay in `rest`; a step that goes on hands over the
/// accumulator for the fold over the elements that follow.
pub open spec fn steps_to<B, T, R: Outcome<Output = B>>(
    post: spec_fn(B, T, R) -> bool,
    s: Seq<T>,
    acc: B,
    rest: Seq<T>,
    out: R,
) -> bool
    decreases s.len(),
{
    if s.len() == 0 {
        out == R::from_output_spec(acc) && rest == s
    } else {
        exists|step: R| #[trigger]
            post(acc, s[0], step) && match step.branch_spec() {
                ControlFlow::Continue(next) => steps_to(post, s.skip(1), next, rest, out),
                ControlFlow::Break(residual) => out == R::from_residual_spec(residual) && rest
                    == s.skip(1),
            }
    }
}

/// Every call that a fold over all of `s` from `acc` makes to its combining
/// function is allowed.
pub open spec fn combine_allowed<B, T>(
    pre: spec_fn(B, T) -> bool,
    post: spec_fn(B, T, B) -> bool,
    s: Seq<T>,
    acc: B,
) -> bool
    decreases s.len(),
{
    s.len() > 0 ==> {
        &&& pre(acc, s[0])
        &&& forall|next: B| #[trigger]
            post(acc, s[0], next) ==> combine_allowed(pre, post, s.skip(1), next)
    }
}

/// Combining the elements of `s` into `acc`, first to last, may give `out`.
pub open spec fn combines_to<B, T>(
    post: spec_fn(B, T, B) -> bool,
    s: Seq<T>,
    acc: B,
    out: B,
) -> bool
    decreases s.len(),
{
    if s.len() == 0 {
        out == acc
    } else {
        exists|next: B| #[trigger] post(acc, s[0], next) && combines_to(post, s.skip(1), next, out)
    }
}

/// The step function `f` may be handed to a short-circuiting fold over `s`
/// that starts from `acc`.
pub open spec fn may_try_fold<B, T, R: Outcome<Output = B>, F: FnMut(B, T) -> R>(
    f: F,
    s: Seq<T>,
    acc: B,
) -> bool {
    steps_allowed(
        |a: B, item: T| f.requires((a, item)),
        |a: B, item: T, step: R| f.ensures((a, item), step),
        s,
        acc,
    )
}

/// A short-circuiting fold over `s` from `acc` with the step function `f`
/// may return `out` and leave `rest` unconsumed.
pub open spec fn try_folds_to<B, T, R: Outcome<Output = B>, F: FnMut(B, T) -> R>(
    f: F,
    s: Seq<T>,
    acc: B,
    rest: Seq<T>,
    out: R,
) -> bool {
    steps_to(|a: B, item: T, step: R| f.ensures((a, item), step), s, acc, rest, out)
}

/// The combining function `f` may be handed to a fold over all of `s` that
/// starts from `acc`.
pub open spec fn may_fold<B, T, F: FnMut(B, T) -> B>(f: F, s: Seq<T>, acc: B) -> bool {
    combine_allowed(
        |a: B, item: T| f.requires((a, item)),
        |a: B, item: T, next: B| f.ensures((a, item), next),
        s,
        acc,
    )
}

/// Combining the elements of `s` into `acc` with `f`, first to last, may
/// give `out`.
pub open spec fn folds_to<B, T, F: FnMut(B, T) -> B>(f: F, s: Seq<T>, acc: B, out: B) -> bool {
    combines_to(|a: B, item: T, next: B| f.ensures((a, item), next), s, acc, out)
}

/// The element that one pull from `s` yields, if there is one.
pub open spec fn next_item<T>(s: Seq<T>) -> Option<T> {
    if s.len() > 0 {
        Some(s[0])
    } else {
        None
    }
}

/// What is left of `s` after one pull.
pub open spec fn after_next<T>(s: Seq<T>) -> Seq<T> {
    if s.len() > 0 {
        s.skip(1)
    } else {
        s
    }
}

/// A size estimate that is exact for `s`: both bounds are its length.
pub open spec fn is_exact_hint<T>(hint: (usize, Option<usize>), s: Seq<T>) -> bool {
    hint.0 == s.len() && hint.1 == Some(hint.0)
}

/// A sequence that is traversed through one primitive, the short-circuiting
/// fold, from which pulling one element and folding all of them are derived.
///
/// An implementor states in `remaining` which elements its `try_fold` has
/// still to visit and writes `try_fold`; `next` and `fold` come with the
/// trait.
pub trait TryFold: Sized {
    /// The type of the elements.
    type Item;

    /// The elements not yet consumed, in the order in which they come.
    ///
    /// Where an implementor does not say otherwise, nothing remains.
    open spec fn remaining(&self) -> Seq<Self::Item> {
        Seq::empty()
    }

    /// Threads `init` through the remaining elements with `f`, in order,
    /// and stops at the first step that says so.
    ///
    /// Returns the residual of the step that stopped, or the last
    /// accumulator as an output; the elements after the one that stopped
    /// the fold remain.
    fn try_fold<B, F, R>(&mut self, init: B, f: F) -> (out: R) where
        F: FnMut(B, Self::Item) -> R,
        R: Outcome<Output = B>,

        requires
            may_try_fold(f, old(self).remaining(), init),
        ensures
            try_folds_to(f, old(self).remaining(), init, final(self).remaining(), out),
    ;

    /// Bounds the number of remaining elements from below and, where the
    /// second component is `Some`, from above.
    fn size_hint(&self) -> (hint: (usize, Option<usize>))
        ensures
            hint.0 <= self.remaining().len(),
            hint.1 matches Some(upper) ==> self.remaining().len() <= upper,
        default_ensures
            hint == (0usize, None::<usize>),
    {
        (0, None)
    }

    /// Pulls the first remaining element, or `None` when nothing remains.
    ///
    /// Runs `try_fold` with a step that stops at once with the element it
    /// was given.
    fn next(&mut self) -> (item: Option<Self::Item>)
        ensures
            item == next_item(old(self).remaining()),
            final(self).remaining() == after_next(old(self).remaining()),
    {
        let stop = |_acc: Option<Self::Item>, item: Self::Item| -> (step: Break<Option<Self::Item>>)
            ensures
                step == Break(Some(item)),
            { Break(Some(item)) };
        let out = self.try_fold(None, stop);
        out.0
    }

    /// Combines all remaining elements into `init` with `f`, first to last.
    ///
    /// Runs `try_fold` with a step that always goes on with what `f`
    /// returned; `f` itself travels with the accumulator from step to step.
    fn fold<B, F>(self, init: B, f: F) -> (out: B) where F: FnMut(B, Self::Item) -> B
        requires
            may_fold(f, self.remaining(), init),
        ensures
            folds_to(f, self.remaining(), init, out),
    {
        let mut this = self;
        let go = |state: (B, F), item: Self::Item| -> (step: Continue<(B, F)>)
            requires
                call_requires(state.1, (state.0, item)),
            ensures
                call_ensures(state.1, (state.0, item), step.0.0),
                step.0.1 == state.1,
            {
                let (acc, mut combine) = state;
                let next = combine(acc, item);
                Continue((next, combine))
            };
        proof {
            lemma_going_on_is_allowed(
                |a: B, item: Self::Item| f.requires((a, item)),
                |a: B, item: Self::Item, next: B| f.ensures((a, item), next),
                |state: (B, F), item: Self::Item| go.requires((state, item)),
                |state: (B, F), item: Self::Item, step: Continue<(B, F)>|
                    go.ensures((state, item), step),
                self.remaining(),
                init,
                f,
            );
        }
        let out = this.try_fold((init, f), go);
        proof {
            lemma_going_on_combines(
                |a: B, item: Self::Item, next: B| f.ensures((a, item), next),
                |state: (B, F), item: Self::Item, step: Continue<(B, F)>|
                    go.ensures((state, item), step),
                self.remaining(),
                init,
                f,
                this.remaining(),
                out,
            );
        }
        out.0.0
    }
}

/// A step that carries a combining function `f` along and always goes on
/// with what it returned may be run wherever `f` may be.
proof fn lemma_going_on_is_allowed<B, T, F>(
    pre: spec_fn(B, T) -> bool,
    post: spec_fn(B, T, B) -> bool,
    step_pre: spec_fn((B, F), T) -> bool,
    step_post: spec_fn((B, F), T, Continue<(B, F)>) -> bool,
    s: Seq<T>,
    acc: B,
    f: F,
)
    requires
        forall|a: B, item: T| #[trigger] pre(a, item) ==> step_pre((a, f), item),
        forall|a: B, item: T, step: Continue<(B, F)>| #[trigger]
            step_post((a, f), item, step) ==> post(a, item, step.0.0) && step.0.1 == f,
        combine_allowed(pre, post, s, acc),
    ensures
        steps_allowed(step_pre, step_post, s, (acc, f)),
    decreases s.len(),
{
    if s.len() > 0 {
        assert forall|step: Continue<(B, F)>| #[trigger]
            step_post((acc, f), s[0], step) implies steps_allowed(
            step_pre,
            step_post,
            s.skip(1),
            step.0,
        ) by {
            assert(post(acc, s[0], step.0.0));
            assert(step.0 == (step.0.0, f));
            lemma_going_on_is_allowed(pre, post, step_pre, step_post, s.skip(1), step.0.0, f);
        }
    }
}

/// A fold whose step carries a combining function `f` along and always goes
/// on with what it returned consumes every element and ends with what `f`
/// gives.
proof fn lemma_going_on_combines<B, T, F>(
    post: spec_fn(B, T, B) -> bool,
    step_post: spec_fn((B, F), T, Continue<(B, F)>) -> bool,
    s: Seq<T>,
    acc: B,
    f: F,
    rest: Seq<T>,
    out: Continue<(B, F)>,
)
    requires
        forall|a: B, item: T, step: Continue<(B, F)>| #[trigger]
            step_post((a, f), item, step) ==> post(a, item, step.0.0) && step.0.1 == f,
        steps_to(step_post, s, (acc, f), rest, out),
    ensures
        combines_to(post, s, acc, out.0.0),
        rest.len() == 0,
    decreases s.len(),
{
    if s.len() > 0 {
        let step = choose|step: Continue<(B, F)>| #[trigger]
            step_post((acc, f), s[0], step) && steps_to(step_post, s.skip(1), step.0, rest, out);
        assert(step.0 == (step.0.0, f));
        lemma_going_on_combines(post, step_post, s.skip(1), step.0.0, f, rest, out);
        assert(post(acc, s[0], step.0.0));
    }
}

} // verus!
