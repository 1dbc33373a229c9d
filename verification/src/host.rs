//! Work that is left to the host: asked for, and answered from outside.
use vstd::prelude::*;

use crate::error::{ErrorView, ProxyError};

verus! {

/// Why a function stops before it is done.
#[derive(Debug, PartialEq, Eq)]
pub enum Halt<R> {
    /// It cannot go on at all.
    Failed(ProxyError),
    /// It needs the answer to a request.
    Ask(R),
}

/// What a `Halt` says.
#[verifier::ext_equal]
pub enum HaltView<R> {
    Failed(ErrorView),
    Ask(R),
}

impl<R: DeepView> DeepView for Halt<R> {
    type V = HaltView<R::V>;

    open spec fn deep_view(&self) -> HaltView<R::V> {
        match self {
            Halt::Failed(error) => HaltView::Failed(error.deep_view()),
            Halt::Ask(request) => HaltView::Ask(request.deep_view()),
        }
    }
}

/// What a result says, its halt taken for what it says.
pub open spec fn told<T, R: DeepView>(result: Result<T, Halt<R>>) -> Result<T, HaltView<R::V>> {
    match result {
        Ok(value) => Ok(value),
        Err(halt) => Err(halt.deep_view()),
    }
}

/// What a result says, its value and its halt both taken for what they say.
pub open spec fn told_deep<T: DeepView, R: DeepView>(result: Result<T, Halt<R>>) -> Result<
    T::V,
    HaltView<R::V>,
> {
    match result {
        Ok(value) => Ok(value.deep_view()),
        Err(halt) => Err(halt.deep_view()),
    }
}

/// What an answer comes to: without one `request` is asked for.
pub open spec fn answered<T, R>(
    answer: Option<Result<T, ProxyError>>,
    request: R,
) -> Result<T, HaltView<R>> {
    match answer {
        None => Err(HaltView::Ask(request)),
        Some(Ok(value)) => Ok(value),
        Some(Err(error)) => Err(HaltView::Failed(error.deep_view())),
    }
}

/// Takes an answer, or asks for it.
pub fn take_answer<T, R: DeepView>(
    answer: Option<Result<T, ProxyError>>,
    request: R,
) -> (value: Result<T, Halt<R>>)
    ensures
        told(value) == answered(answer, request.deep_view()),
{
    match answer {
        None => Err(Halt::Ask(request)),
        Some(Ok(value)) => Ok(value),
        Some(Err(error)) => Err(Halt::Failed(error)),
    }
}

/// A request is asked for exactly where it has no answer; a refusal ends everything with the
/// host's own error, and nothing else does; else there is the value that was answered.
pub proof fn lemma_answers_are_taken_as_given<T, R>(
    answer: Option<Result<T, ProxyError>>,
    request: R,
)
    ensures
        answered(answer, request) == Err::<T, HaltView<R>>(HaltView::Ask(request)) <==> answer
            is None,
        answer matches Some(Ok(value)) ==> answered(answer, request) == Ok::<T, HaltView<R>>(
            value,
        ),
        answer matches Some(Err(error)) ==> answered(answer, request) == Err::<T, HaltView<R>>(
            HaltView::Failed(error.deep_view()),
        ),
{
}

/// Telling a result keeps its value or its halt, and of a halt its error or its request.
pub proof fn lemma_telling_keeps_everything<T: DeepView, R: DeepView>(
    result: Result<T, Halt<R>>,
)
    ensures
        result matches Ok(value) ==> told(result) == Ok::<T, HaltView<R::V>>(value) && told_deep(
            result,
        ) == Ok::<T::V, HaltView<R::V>>(value.deep_view()),
        result matches Err(Halt::Failed(error)) ==> told(result) == Err::<T, HaltView<R::V>>(
            HaltView::Failed(error.deep_view()),
        ) && told_deep(result) == Err::<T::V, HaltView<R::V>>(HaltView::Failed(error.deep_view())),
        result matches Err(Halt::Ask(request)) ==> told(result) == Err::<T, HaltView<R::V>>(
            HaltView::Ask(request.deep_view()),
        ) && told_deep(result) == Err::<T::V, HaltView<R::V>>(HaltView::Ask(request.deep_view())),
{
}

} // verus!
