//! JSON values that the library carries without reading them.
use vstd::prelude::*;

verus! {

/// A JSON value: a string, or any other value kept as its JSON text.
#[derive(Clone, Debug, PartialEq, Eq)]
pub enum JsonValue {
    Text(String),
    Other(String),
}

pub enum JsonView {
    Text(Seq<char>),
    Other(Seq<char>),
}

impl View for JsonValue {
    type V = JsonView;

    open spec fn view(&self) -> JsonView {
        match self {
            JsonValue::Text(s) => JsonView::Text(s@),
            JsonValue::Other(s) => JsonView::Other(s@),
        }
    }
}

} // verus!
