//! Work that goes back and forth with the world outside.
//!
//! A procedure is a value that says what to do next, and turns what came of it
//! into either a further state or a result.

use crate::error;
use crate::error::{Result, ResultView};
use vstd::prelude::*;

verus! {

/// A procedure, after a reply: either it goes on from a further state, or it is
/// over.
pub enum Step<S, T> {
    More(S),
    Done(Result<T>),
}

#[verifier::ext_equal]
pub enum StepView<S, T> {
    More(S),
    Done(ResultView<T>),
}

impl<S: DeepView, T: DeepView> View for Step<S, T> {
    type V = StepView<S::V, T::V>;

    open spec fn view(&self) -> StepView<S::V, T::V> {
        match *self {
            Step::More(state) => StepView::More(state.deep_view()),
            Step::Done(result) => StepView::Done(error::seen(result)),
        }
    }
}

} // verus!
