use vstd::prelude::*;

verus! {

/// One step of a navigation path inside a source document.
#[derive(Debug, PartialEq, Eq)]
pub enum PathStep {
    /// A field of an object, by name.
    Key(String),
    /// An element of an array, by position.
    Index(usize),
}

/// Mathematical model of a [`PathStep`].
pub enum PathStepView {
    Key(Seq<char>),
    Index(nat),
}

impl View for PathStep {
    type V = PathStepView;

    open spec fn view(&self) -> PathStepView {
        match self {
            PathStep::Key(k) => PathStepView::Key(k@),
            PathStep::Index(i) => PathStepView::Index(*i as nat),
        }
    }
}

/// The failures of the pipeline.
#[derive(Debug, PartialEq, Eq)]
pub enum FetchError {
    /// The payload is neither a gzip stream of text nor text itself.
    Encoding,
    /// The document lacks the structure at `path`, the offending place.
    Schema { path: Vec<PathStep> },
    /// The sink could not write.
    Io,
    /// A table has no column of this name.
    KeyColumn { column: String },
}

/// Mathematical model of a [`FetchError`].
pub enum FetchErrorView {
    Encoding,
    Schema { path: Seq<PathStepView> },
    Io,
    KeyColumn { column: Seq<char> },
}

/// The models of the steps of a path, in order.
pub open spec fn path_view(path: Seq<PathStep>) -> Seq<PathStepView> {
    Seq::new(path.len(), |i: int| path[i]@)
}

impl View for FetchError {
    type V = FetchErrorView;

    open spec fn view(&self) -> FetchErrorView {
        match self {
            FetchError::Encoding => FetchErrorView::Encoding,
            FetchError::Schema { path } => FetchErrorView::Schema { path: path_view(path@) },
            FetchError::Io => FetchErrorView::Io,
            FetchError::KeyColumn { column } => FetchErrorView::KeyColumn { column: column@ },
        }
    }
}

} // verus!
