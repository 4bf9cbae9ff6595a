//! The errors that a pipeline reports.
use vstd::prelude::*;

verus! {

/// An error of one source or one output of a pipeline.
#[derive(Debug, Clone)]
pub enum RustyPipesError {
    /// A source could not be loaded.
    LoaderError(String),
    /// An operation could not be compiled or applied.
    TransformationError(String),
}

/// An error as a mathematical value.
pub enum ErrorView {
    Loader(Seq<char>),
    Transformation(Seq<char>),
}

impl View for RustyPipesError {
    type V = ErrorView;

    open spec fn view(&self) -> ErrorView {
        match self {
            RustyPipesError::LoaderError(s) => ErrorView::Loader(s@),
            RustyPipesError::TransformationError(s) => ErrorView::Transformation(s@),
        }
    }
}

pub open spec fn message_of(e: ErrorView) -> Seq<char> {
    match e {
        ErrorView::Loader(s) => s,
        ErrorView::Transformation(s) => s,
    }
}

impl RustyPipesError {
    /// The text of the error.
    pub fn message(&self) -> (r: String)
        ensures
            r@ == message_of(self@),
    {
        match self {
            RustyPipesError::LoaderError(s) => s.clone(),
            RustyPipesError::TransformationError(s) => s.clone(),
        }
    }

    /// A copy of this error.
    pub fn duplicate(&self) -> (r: RustyPipesError)
        ensures
            r@ == self@,
    {
        match self {
            RustyPipesError::LoaderError(s) => RustyPipesError::LoaderError(s.clone()),
            RustyPipesError::TransformationError(s) => RustyPipesError::TransformationError(
                s.clone(),
            ),
        }
    }
}

/// An error whose text is `prefix` followed by `detail`.
pub fn transformation_error(prefix: &str, detail: &str) -> (r: RustyPipesError)
    ensures
        r@ == ErrorView::Transformation(prefix@ + detail@),
{
    RustyPipesError::TransformationError(String::from_str(prefix).concat(detail))
}

} // verus!
