//! The messages that a viewer and the server exchange.
use vstd::prelude::*;

verus! {

/// What a message from the viewer carries.
#[derive(Clone, Copy, Debug, PartialEq, Eq, Structural)]
pub enum PayloadType {
    Offer,
    Answer,
    Candidate,
    CandidatesDone,
    Watch,
}

/// A message from the viewer: its type, its text, the stream it names and
/// the session it belongs to.
#[derive(Debug)]
pub struct Payload {
    pub pt: PayloadType,
    pub payload: String,
    pub id: String,
    pub session: String,
}

/// The text of a candidate message.
#[derive(Debug)]
pub struct PayloadCandidate {
    pub candidate: String,
}

/// The reply to a message from the viewer.
#[derive(Debug)]
pub struct CloverLeafResponse {
    pt: String,
    status: String,
}

impl CloverLeafResponse {
    pub closed spec fn pt_view(&self) -> Seq<char> {
        self.pt@
    }

    pub closed spec fn status_view(&self) -> Seq<char> {
        self.status@
    }

    /// The reply that a message was handled: type `msg`, status `success`.
    pub fn success() -> (r: CloverLeafResponse)
        ensures
            r.pt_view() == "msg"@,
            r.status_view() == "success"@,
    {
        CloverLeafResponse { pt: "msg".to_owned(), status: "success".to_owned() }
    }

    /// The type of the reply.
    pub fn pt(&self) -> (r: &String)
        ensures
            r@ == self.pt_view(),
    {
        &self.pt
    }

    /// The status of the reply.
    pub fn status(&self) -> (r: &String)
        ensures
            r@ == self.status_view(),
    {
        &self.status
    }
}

} // verus!
