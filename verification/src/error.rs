//! The library's error type.
use vstd::prelude::*;
use crate::text::{decimal, decimal_text, join2, with_number};

verus! {

/// Errors of the routing library.
#[derive(Debug)]
pub enum DldsrError {
    /// Every label in `1..=255` is held by an active neighbor.
    LabelSpaceExhausted,
    /// No route to the destination node is known.
    RouteNotFound(u32),
    /// The label does not name a known neighbor.
    UnknownLabel(u8),
    /// A packet could not be encoded or decoded.
    Codec(String),
}

/// The human-readable text of an error.
pub open spec fn error_text(e: DldsrError) -> Seq<char> {
    match e {
        DldsrError::LabelSpaceExhausted => "no labels are available for active neighbor table"@,
        DldsrError::RouteNotFound(dst) => "route not found for destination "@ + decimal(dst as nat),
        DldsrError::UnknownLabel(label) => "label "@ + decimal(label as nat)
            + " does not map to a known neighbor"@,
        DldsrError::Codec(msg) => "packet codec failed: "@ + msg@,
    }
}

impl DldsrError {
    /// The human-readable text of this error.
    pub fn message(&self) -> (s: String)
        ensures
            s@ == error_text(*self),
    {
        match self {
            DldsrError::LabelSpaceExhausted => String::from_str(
                "no labels are available for active neighbor table",
            ),
            DldsrError::RouteNotFound(dst) => {
                let digits = decimal_text(*dst as u64);
                join2("route not found for destination ", digits.as_str())
            },
            DldsrError::UnknownLabel(label) => with_number(
                "label ",
                *label as u64,
                " does not map to a known neighbor",
            ),
            DldsrError::Codec(msg) => join2("packet codec failed: ", msg.as_str()),
        }
    }
}

} // verus!
