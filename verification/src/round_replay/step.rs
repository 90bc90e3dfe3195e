//! A dialogue with the outside: what it does next, after each reply.

use crate::error::{BitFunResult, ErrorView};
use vstd::prelude::*;

verus! {

/// Either the next request or the outcome.
#[derive(Debug, PartialEq, Eq)]
pub enum Step<R, T> {
    Ask(R),
    Finish(BitFunResult<T>),
}

pub enum StepView<R, T> {
    Ask(R),
    Finish(Result<T, ErrorView>),
}

impl<R: View, T: View> View for Step<R, T> {
    type V = StepView<R::V, T::V>;

    open spec fn view(&self) -> StepView<R::V, T::V> {
        match self {
            Step::Ask(request) => StepView::Ask(request@),
            Step::Finish(Ok(value)) => StepView::Finish(Ok(value@)),
            Step::Finish(Err(error)) => StepView::Finish(Err(error@)),
        }
    }
}

} // verus!
