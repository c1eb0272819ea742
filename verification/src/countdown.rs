//! A small sequence that implements the fold by hand.
use crate::fold::is_exact_hint;
use crate::fold::steps_allowed;
use crate::fold::steps_to;
use crate::fold::TryFold;
use crate::outcome::Outcome;
use std::ops::ControlFlow;
use vstd::prelude::*;
use vstd::wrapping::u8_specs::wrapping_mul;

verus! {

/// What each count is multiplied by, wrapping around at eight bits.
pub const FACTOR: u8 = 173;

/// Counts down from the number it holds to one and yields each count times
/// [`FACTOR`], wrapped to eight bits.
pub struct Countdown(pub u8);

impl View for Countdown {
    type V = Seq<u8>;

    /// The elements still to come: with `n` left, the element at index `i` is
    /// `(n - i) * FACTOR` modulo 256.
    open spec fn view(&self) -> Seq<u8> {
        Seq::new(self.0 as nat, |i: int| wrapping_mul((self.0 - i) as u8, FACTOR))
    }
}

impl TryFold for Countdown {
    type Item = u8;

    open spec fn remaining(&self) -> Seq<u8> {
        self@
    }

    fn try_fold<B, F, R>(&mut self, init: B, f: F) -> (out: R) where
        F: FnMut(B, u8) -> R,
        R: Outcome<Output = B>,
    {
        let ghost start = self@;
        let ghost pre = |a: B, item: u8| f.requires((a, item));
        let ghost post = |a: B, item: u8, step: R| f.ensures((a, item), step);
        let mut step_fn = f;
        let mut acc = init;
        // Whatever the fold over what is left may return from here, the fold
        // over `start` from `init` may return too.
        while self.0 > 0
            invariant
                step_fn == f,
                start == old(self)@,
                pre == (|a: B, item: u8| f.requires((a, item))),
                post == (|a: B, item: u8, step: R| f.ensures((a, item), step)),
                steps_allowed(pre, post, self@, acc),
                forall|rest: Seq<u8>, out: R| #[trigger]
                    steps_to(post, self@, acc, rest, out) ==> steps_to(post, start, init, rest, out),
            decreases self.0,
        {
            let ghost before = self@;
            let ghost prev = acc;
            assert(pre(prev, before[0]));
            let step = step_fn(acc, self.0.wrapping_mul(FACTOR));
            assert(post(prev, before[0], step));
            self.0 -= 1;
            assert(self@ == before.skip(1));
            match step.branch() {
                ControlFlow::Continue(next) => {
                    acc = next;
                    assert forall|rest: Seq<u8>, out: R| #[trigger]
                        steps_to(post, self@, acc, rest, out) implies steps_to(
                        post,
                        start,
                        init,
                        rest,
                        out,
                    ) by {
                        assert(steps_to(post, before, prev, rest, out));
                    }
                },
                ControlFlow::Break(residual) => {
                    let out = R::from_residual(residual);
                    assert(steps_to(post, before, prev, self@, out));
                    return out;
                },
            }
        }
        assert(steps_to(post, self@, acc, self@, R::from_output_spec(acc)));
        R::from_output(acc)
    }

    /// The count left is exact: both bounds are the number of remaining
    /// elements.
    fn size_hint(&self) -> (hint: (usize, Option<usize>))
        ensures
            is_exact_hint(hint, self@),
    {
        let left = self.0 as usize;
        (left, Some(left))
    }
}

} // verus!
