//! Error type shared by every backend.
//!
//! This crosses the IPC boundary as `{ kind, message }`. The frontend branches on `kind`, so
//! each variant has exactly one stable machine-readable name.

use vstd::prelude::*;

use super::model::Vendor;

verus! {

pub type CameraResult<T> = Result<T, CameraError>;

#[derive(Debug)]
pub enum CameraError {
    NotConnected,
    UnsupportedVendor { vendor: Vendor },
    /// Could not reach the camera at all: wrong IP, wrong network, camera asleep.
    Transport(String),
    /// We reached it and it said no.
    Rejected { status: u16, message: String },
    /// We reached it and it said "not now" - the request will succeed shortly.
    Busy,
    /// We reached it and it said something we do not understand.
    Protocol(String),
    /// The body does not offer this endpoint or dial.
    Unavailable(String),
    ValueNotSelectable { dial: &'static str, value: String },
}

/// The stable discriminant the frontend branches on.
pub open spec fn kind_name(e: CameraError) -> Seq<char> {
    match e {
        CameraError::NotConnected => "notConnected"@,
        CameraError::UnsupportedVendor { .. } => "unsupportedVendor"@,
        CameraError::Transport(_) => "transport"@,
        CameraError::Rejected { .. } => "rejected"@,
        CameraError::Busy => "busy"@,
        CameraError::Protocol(_) => "protocol"@,
        CameraError::Unavailable(_) => "unavailable"@,
        CameraError::ValueNotSelectable { .. } => "valueNotSelectable"@,
    }
}

/// A protocol error carrying exactly `message`.
pub open spec fn is_protocol(e: CameraError, message: Seq<char>) -> bool {
    e matches CameraError::Protocol(m) && m@ == message
}

/// The one message every truncated reply produces.
pub open spec fn short_message() -> Seq<char> {
    "the camera's reply ended sooner than its structure implies"@
}

impl CameraError {
    /// Stable machine-readable discriminant for the frontend.
    pub fn kind(&self) -> (r: &'static str)
        ensures
            r@ == kind_name(*self),
    {
        match self {
            CameraError::NotConnected => "notConnected",
            CameraError::UnsupportedVendor { .. } => "unsupportedVendor",
            CameraError::Transport(_) => "transport",
            CameraError::Rejected { .. } => "rejected",
            CameraError::Busy => "busy",
            CameraError::Protocol(_) => "protocol",
            CameraError::Unavailable(_) => "unavailable",
            CameraError::ValueNotSelectable { .. } => "valueNotSelectable",
        }
    }
}

spec fn name_shape(e: CameraError) -> (int, char) {
    match e {
        CameraError::NotConnected => (12, 'n'),
        CameraError::UnsupportedVendor { .. } => (17, 'u'),
        CameraError::Transport(_) => (9, 't'),
        CameraError::Rejected { .. } => (8, 'r'),
        CameraError::Busy => (4, 'b'),
        CameraError::Protocol(_) => (8, 'p'),
        CameraError::Unavailable(_) => (11, 'u'),
        CameraError::ValueNotSelectable { .. } => (18, 'v'),
    }
}

proof fn lemma_name_shape(e: CameraError)
    ensures
        kind_name(e).len() == name_shape(e).0,
        kind_name(e)[0] == name_shape(e).1,
{
    match e {
        CameraError::NotConnected => reveal_strlit("notConnected"),
        CameraError::UnsupportedVendor { .. } => reveal_strlit("unsupportedVendor"),
        CameraError::Transport(_) => reveal_strlit("transport"),
        CameraError::Rejected { .. } => reveal_strlit("rejected"),
        CameraError::Busy => reveal_strlit("busy"),
        CameraError::Protocol(_) => reveal_strlit("protocol"),
        CameraError::Unavailable(_) => reveal_strlit("unavailable"),
        CameraError::ValueNotSelectable { .. } => reveal_strlit("valueNotSelectable"),
    }
}

/// Distinct variants never share a name, so branching on `kind` loses nothing.
pub proof fn kind_names_are_distinct(a: CameraError, b: CameraError)
    requires
        kind_name(a) == kind_name(b),
    ensures
        a is NotConnected <==> b is NotConnected,
        a is UnsupportedVendor <==> b is UnsupportedVendor,
        a is Transport <==> b is Transport,
        a is Rejected <==> b is Rejected,
        a is Busy <==> b is Busy,
        a is Protocol <==> b is Protocol,
        a is Unavailable <==> b is Unavailable,
        a is ValueNotSelectable <==> b is ValueNotSelectable,
{
    lemma_name_shape(a);
    lemma_name_shape(b);
}

} // verus!
