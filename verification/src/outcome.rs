//! What a step of a short-circuiting fold hands back.
//!
//! A step either carries the accumulator forward or ends the fold with a
//! residual. [`Outcome`] is the interface a fold reads that decision through;
//! [`Break`] and [`Continue`] are the two carriers whose decision is fixed by
//! their type, whatever they were built from.
use std::ops::ControlFlow;
use vstd::prelude::*;

verus! {

/// A value that decides whether a fold goes on or stops.
///
/// `branch` is the decision: `ControlFlow::Continue` hands over the next
/// accumulator, `ControlFlow::Break` hands over the residual that ends the
/// fold. `from_output` builds the value a fold returns when it ran out of
/// elements; `from_residual` builds the value it returns when a step stopped
/// it. Each executable method returns exactly what its `_spec` twin says.
pub trait Outcome: Sized {
    /// The accumulator that is carried forward.
    type Output;

    /// What leaves the fold when it stops early.
    type Residual;

    /// The value built from an accumulator.
    spec fn from_output_spec(output: Self::Output) -> Self;

    /// The value built from a residual.
    spec fn from_residual_spec(residual: Self::Residual) -> Self;

    /// The decision this value stands for.
    spec fn branch_spec(self) -> ControlFlow<Self::Residual, Self::Output>;

    /// Wraps the final accumulator of a fold that consumed every element.
    fn from_output(output: Self::Output) -> (out: Self)
        ensures
            out == Self::from_output_spec(output),
    ;

    /// Wraps the residual of the step that stopped the fold.
    fn from_residual(residual: Self::Residual) -> (out: Self)
        ensures
            out == Self::from_residual_spec(residual),
    ;

    /// Tells the fold whether to go on, and with what.
    fn branch(self) -> (flow: ControlFlow<Self::Residual, Self::Output>)
        ensures
            flow == self.branch_spec(),
    ;
}

/// Carries a value and always stops the fold with it.
///
/// However it was built, `branch` answers `ControlFlow::Break` with the value
/// inside: a step that returns a `Break` ends the fold at once.
pub struct Break<T>(pub T);

impl<T> Outcome for Break<T> {
    type Output = T;

    type Residual = T;

    open spec fn from_output_spec(output: T) -> Self {
        Break(output)
    }

    open spec fn from_residual_spec(residual: T) -> Self {
        Break(residual)
    }

    open spec fn branch_spec(self) -> ControlFlow<T, T> {
        ControlFlow::Break(self.0)
    }

    fn from_output(output: T) -> (out: Self)
        ensures
            out == Break(output),
    {
        Break(output)
    }

    fn from_residual(residual: T) -> (out: Self)
        ensures
            out == Break(residual),
    {
        Break(residual)
    }

    fn branch(self) -> (flow: ControlFlow<T, T>)
        ensures
            flow == ControlFlow::<T, T>::Break(self.0),
    {
        ControlFlow::Break(self.0)
    }
}

/// Carries a value and never stops the fold.
///
/// However it was built, `branch` answers `ControlFlow::Continue` with the
/// value inside: a step that returns a `Continue` hands the fold its next
/// accumulator.
pub struct Continue<T>(pub T);

impl<T> Outcome for Continue<T> {
    type Output = T;

    type Residual = T;

    open spec fn from_output_spec(output: T) -> Self {
        Continue(output)
    }

    open spec fn from_residual_spec(residual: T) -> Self {
        Continue(residual)
    }

    open spec fn branch_spec(self) -> ControlFlow<T, T> {
        ControlFlow::Continue(self.0)
    }

    fn from_output(output: T) -> (out: Self)
        ensures
            out == Continue(output),
    {
        Continue(output)
    }

    fn from_residual(residual: T) -> (out: Self)
        ensures
            out == Continue(residual),
    {
        Continue(residual)
    }

    fn branch(self) -> (flow: ControlFlow<T, T>)
        ensures
            flow == ControlFlow::<T, T>::Continue(self.0),
    {
        ControlFlow::Continue(self.0)
    }
}

/// `Some` goes on with its value; `None` stops the fold.
impl<T> Outcome for Option<T> {
    type Output = T;

    type Residual = ();

    open spec fn from_output_spec(output: T) -> Self {
        Some(output)
    }

    open spec fn from_residual_spec(residual: ()) -> Self {
        None
    }

    open spec fn branch_spec(self) -> ControlFlow<(), T> {
        match self {
            Some(output) => ControlFlow::Continue(output),
            None => ControlFlow::Break(()),
        }
    }

    fn from_output(output: T) -> (out: Self) {
        Some(output)
    }

    fn from_residual(residual: ()) -> (out: Self) {
        None
    }

    fn branch(self) -> (flow: ControlFlow<(), T>) {
        match self {
            Some(output) => ControlFlow::Continue(output),
            None => ControlFlow::Break(()),
        }
    }
}

/// `Ok` goes on with its value; `Err` stops the fold with the error.
impl<T, E> Outcome for Result<T, E> {
    type Output = T;

    type Residual = E;

    open spec fn from_output_spec(output: T) -> Self {
        Ok(output)
    }

    open spec fn from_residual_spec(residual: E) -> Self {
        Err(residual)
    }

    open spec fn branch_spec(self) -> ControlFlow<E, T> {
        match self {
            Ok(output) => ControlFlow::Continue(output),
            Err(residual) => ControlFlow::Break(residual),
        }
    }

    fn from_output(output: T) -> (out: Self) {
        Ok(output)
    }

    fn from_residual(residual: E) -> (out: Self) {
        Err(residual)
    }

    fn branch(self) -> (flow: ControlFlow<E, T>) {
        match self {
            Ok(output) => ControlFlow::Continue(output),
            Err(residual) => ControlFlow::Break(residual),
        }
    }
}

/// A `ControlFlow` is its own decision.
impl<B, C> Outcome for ControlFlow<B, C> {
    type Output = C;

    type Residual = B;

    open spec fn from_output_spec(output: C) -> Self {
        ControlFlow::Continue(output)
    }

    open spec fn from_residual_spec(residual: B) -> Self {
        ControlFlow::Break(residual)
    }

    open spec fn branch_spec(self) -> ControlFlow<B, C> {
        self
    }

    fn from_output(output: C) -> (out: Self) {
        ControlFlow::Continue(output)
    }

    fn from_residual(residual: B) -> (out: Self) {
        ControlFlow::Break(residual)
    }

    fn branch(self) -> (flow: ControlFlow<B, C>) {
        self
    }
}

} // verus!
