//! The plain values that go into a statement or a JSON record: nothing, an integer
//! or a text.

use crate::text;
use vstd::prelude::*;

verus! {

/// A plain value.
#[derive(Debug, PartialEq, Eq)]
pub enum Scalar {
    Null,
    Int(i64),
    Text(String),
}

/// What a plain value says.
pub enum ScalarView {
    Null,
    Int(i64),
    Text(Seq<char>),
}

impl View for Scalar {
    type V = ScalarView;

    open spec fn view(&self) -> ScalarView {
        match self {
            Scalar::Null => ScalarView::Null,
            Scalar::Int(n) => ScalarView::Int(*n),
            Scalar::Text(t) => ScalarView::Text(t@),
        }
    }
}

/// What the values of `s` say.
pub open spec fn views(s: Seq<Scalar>) -> Seq<ScalarView> {
    s.map_values(|v: Scalar| v@)
}

/// What an optional text says as a plain value.
pub open spec fn text_or_null(t: Option<Seq<char>>) -> ScalarView {
    match t {
        Some(t) => ScalarView::Text(t),
        None => ScalarView::Null,
    }
}

/// What an optional integer says as a plain value.
pub open spec fn int_or_null(n: Option<i64>) -> ScalarView {
    match n {
        Some(n) => ScalarView::Int(n),
        None => ScalarView::Null,
    }
}

impl Scalar {
    /// The value of an optional text.
    pub fn of_text(t: &Option<String>) -> (v: Scalar)
        ensures
            v@ == text_or_null(text::opt_text(*t)),
    {
        match t {
            Some(t) => Scalar::Text(t.clone()),
            None => Scalar::Null,
        }
    }

    /// The value of an optional integer.
    pub fn of_int(n: Option<i64>) -> (v: Scalar)
        ensures
            v@ == int_or_null(n),
    {
        match n {
            Some(n) => Scalar::Int(n),
            None => Scalar::Null,
        }
    }
}

} // verus!
