//! The server's decisions on sessions: opening one with an offer, handing an
//! answer or a candidate to its agent, and starting the stream for a viewer.
use vstd::prelude::*;

use crate::candidate::{candidate_line, candidate_outcome, try_parse_candidate, CandidateOutcome, ParsedIceCandidate};
use crate::payload::{Payload, PayloadCandidate};
use crate::sdp::{create_sdp, credentials_of_text, offer_text, Sdp, SdpView};
use crate::sessions::SessionTable;
use crate::transport::Transport;

verus! {

/// A new ICE agent for a session, with what the offer needs of it.
pub struct AgentOffer<A> {
    pub agent: A,
    /// The agent's local ufrag.
    pub ufrag: String,
    /// The agent's local password.
    pub pwd: String,
    /// The candidates that the agent gathered, or why it could not give them.
    pub local_candidates: Result<Vec<ParsedIceCandidate>, String>,
    /// The fingerprint of the certificate that the stream is secured with.
    pub fingerprint: String,
}

/// Whether the offer of `prepared` can be written: where the agent gave its
/// candidates, there is at least one, and the first has a transport text.
pub open spec fn offer_writable<A>(prepared: Option<AgentOffer<A>>) -> bool {
    prepared matches Some(o) ==> (o.local_candidates matches Ok(v) ==> v.len() > 0
        && v[0].transport != Transport::Invalid)
}

/// Holds the text of a random version 4 UUID in its hyphenated form.
pub open spec fn is_uuid_text(s: Seq<char>) -> bool {
    &&& s.len() == 36
    &&& forall|i: int|
        0 <= i < 36 ==> if i == 8 || i == 13 || i == 18 || i == 23 {
            s[i] == '-'
        } else {
            ('0' <= #[trigger] s[i] && s[i] <= '9') || ('a' <= s[i] && s[i] <= 'f')
        }
    &&& s[14] == '4'
}

/// A new session id: calls `uuid::Uuid::new_v4` and writes the UUID in its
/// hyphenated lower-case form (36 characters, version digit `4`). The UUID is
/// random: nothing is claimed of which one comes, nor that two differ.
/// `new_v4` panics where the system gives no random bytes.
#[verifier::external_body]
fn new_session_id() -> (id: String)
    ensures
        is_uuid_text(id@),
{
    uuid::Uuid::new_v4().to_string()
}

/// What opening a session under `id` for `prepared` comes to, from the
/// sessions `before` to `after`, with the result `r`: where no agent was made,
/// or it gave no candidates, the matching error and no change; else `id` with
/// the offer that carries the agent's credentials, the fingerprint and its
/// first local candidate, and the agent waiting under `id`.
pub open spec fn opened_under<A>(
    id: Seq<char>,
    prepared: Option<AgentOffer<A>>,
    r: Result<(String, String), String>,
    before: Map<Seq<char>, A>,
    after: Map<Seq<char>, A>,
) -> bool {
    match prepared {
        None => r matches Err(e) && e@ == "error creating ice agent"@ && after == before,
        Some(o) => match o.local_candidates {
            Err(_) => r matches Err(e) && e@ == "error getting local cands"@ && after == before,
            Ok(v) => r matches Ok((rid, sdp)) && rid@ == id && sdp@ == offer_text(
                SdpView { ufrag: o.ufrag@, pwd: o.pwd@ },
                candidate_line(v[0]@).unwrap(),
                o.fingerprint@,
            ) && after == before.insert(id, o.agent),
        },
    }
}

/// The server's sessions: those that wait for a viewer, by id, and whether
/// the stream has started.
pub struct CloverLeafState<A> {
    temp_streams: SessionTable<A>,
    active: bool,
    cert_path: String,
    key_path: String,
}

impl<A> CloverLeafState<A> {
    pub closed spec fn wf(&self) -> bool {
        self.temp_streams.wf()
    }

    /// The sessions that wait for a viewer, by id.
    pub closed spec fn sessions(&self) -> Map<Seq<char>, A> {
        self.temp_streams.view()
    }

    /// Whether the stream has started.
    pub closed spec fn is_active(&self) -> bool {
        self.active
    }

    pub closed spec fn cert_path_view(&self) -> Seq<char> {
        self.cert_path@
    }

    pub closed spec fn key_path_view(&self) -> Seq<char> {
        self.key_path@
    }

    /// No sessions, the stream not started, and the paths of the certificate
    /// and key that agents are made with.
    pub fn new(cert: &str, key: &str) -> (r: Self)
        ensures
            r.wf(),
            r.sessions() == Map::<Seq<char>, A>::empty(),
            !r.is_active(),
            r.cert_path_view() == cert@,
            r.key_path_view() == key@,
    {
        CloverLeafState {
            temp_streams: SessionTable::new(),
            active: false,
            cert_path: cert.to_owned(),
            key_path: key.to_owned(),
        }
    }

    /// The path of the certificate.
    pub fn cert_path(&self) -> (r: &str)
        ensures
            r@ == self.cert_path_view(),
    {
        self.cert_path.as_str()
    }

    /// The path of the private key.
    pub fn key_path(&self) -> (r: &str)
        ensures
            r@ == self.key_path_view(),
    {
        self.key_path.as_str()
    }

    /// Opens a session for a new agent and writes the offer for it.
    ///
    /// `prepared` is `None` when no agent could be made. Otherwise the offer
    /// carries the agent's credentials, the fingerprint and its first local
    /// candidate, and the agent waits under a new random session id, which is
    /// returned with the offer (see `open_session`).
    pub fn create_session(&mut self, prepared: Option<AgentOffer<A>>) -> (r: Result<(String, String), String>)
        requires
            old(self).wf(),
            offer_writable(prepared),
        ensures
            final(self).wf(),
            final(self).is_active() == old(self).is_active(),
            final(self).cert_path_view() == old(self).cert_path_view(),
            final(self).key_path_view() == old(self).key_path_view(),
            exists|id: Seq<char>| is_uuid_text(id) && opened_under(id, prepared, r, old(self).sessions(), final(self).sessions()),
    {
        let id = new_session_id();
        let r = self.open_session(id, prepared);
        r
    }

    /// Opens a session under the id `id` for the agent of `prepared`, and
    /// writes the offer for it; gives the error of `prepared` where it holds
    /// no agent or no candidates (see `opened_under`).
    pub fn open_session(&mut self, id: String, prepared: Option<AgentOffer<A>>) -> (r: Result<(String, String), String>)
        requires
            old(self).wf(),
            offer_writable(prepared),
        ensures
            final(self).wf(),
            final(self).is_active() == old(self).is_active(),
            final(self).cert_path_view() == old(self).cert_path_view(),
            final(self).key_path_view() == old(self).key_path_view(),
            opened_under(id@, prepared, r, old(self).sessions(), final(self).sessions()),
    {
        match prepared {
            None => Err("error creating ice agent".to_owned()),
            Some(o) => {
                let AgentOffer { agent, ufrag, pwd, local_candidates, fingerprint } = o;
                match local_candidates {
                    Err(_) => Err("error getting local cands".to_owned()),
                    Ok(lcands) => {
                        let sdp = Sdp { ufrag, pwd };
                        let offer = create_sdp(&sdp, &lcands[0], fingerprint.as_str());
                        self.temp_streams.insert(id.clone(), agent);
                        Ok((id, offer))
                    },
                }
            },
        }
    }

    /// Reads the credentials of an answer, and finds the agent of its session.
    /// Gives `None` when no session has that id. Lines of the answer that give
    /// no credential, such as `a=end-of-candidates`, are passed over.
    pub fn process_answer(&mut self, payload: &Payload) -> (r: Option<(&mut A, Sdp)>)
        requires
            old(self).wf(),
        ensures
            final(self).wf(),
            final(self).is_active() == old(self).is_active(),
            final(self).cert_path_view() == old(self).cert_path_view(),
            final(self).key_path_view() == old(self).key_path_view(),
            old(self).sessions().contains_key(payload.session@) <==> r is Some,
            r matches Some((agent, sdp)) ==> {
                &&& sdp@ == credentials_of_text(payload.payload@)
                &&& *agent == old(self).sessions()[payload.session@]
                &&& final(self).sessions() == old(self).sessions().insert(payload.session@, *final(agent))
            },
            r is None ==> final(self).sessions() == old(self).sessions(),
    {
        let sdp = Sdp::credentials(payload.payload.as_str());
        match self.temp_streams.get_mut(&payload.session) {
            Some(agent) => Some((agent, sdp)),
            None => None,
        }
    }

    /// Reads the candidate line that a candidate message carries, and finds
    /// the agent of the message's session to add it to. Gives `Ok(None)` when
    /// no session has that id, and the message of the reading error when the
    /// line holds no candidate.
    pub fn add_candidate(&mut self, payload: &Payload, candidate: &PayloadCandidate) -> (r: Result<Option<(&mut A, ParsedIceCandidate)>, String>)
        requires
            old(self).wf(),
            !(candidate_outcome(candidate.candidate@) is Overflow),
        ensures
            final(self).wf(),
            final(self).is_active() == old(self).is_active(),
            final(self).cert_path_view() == old(self).cert_path_view(),
            final(self).key_path_view() == old(self).key_path_view(),
            match candidate_outcome(candidate.candidate@) {
                CandidateOutcome::Rejected(msg) => r matches Err(e) && e@ == msg && final(self).sessions()
                    == old(self).sessions(),
                CandidateOutcome::Parsed(v) => r matches Ok(found) && (old(self).sessions().contains_key(
                    payload.session@,
                ) <==> found is Some) && (found matches Some((agent, c)) ==> {
                    &&& c@ == v
                    &&& *agent == old(self).sessions()[payload.session@]
                    &&& final(self).sessions() == old(self).sessions().insert(payload.session@, *final(agent))
                }) && (found is None ==> final(self).sessions() == old(self).sessions()),
                CandidateOutcome::Overflow => false,
            },
    {
        match try_parse_candidate(candidate.candidate.as_str()) {
            Some(Ok(c)) => match self.temp_streams.get_mut(&payload.session) {
                Some(agent) => Ok(Some((agent, c))),
                None => Ok(None),
            },
            Some(Err(e)) => Err(e),
            None => Err(String::new()),
        }
    }

    /// Finds the agent of the message's session, whose remote candidates are
    /// all known.
    pub fn candidates_done(&mut self, payload: &Payload) -> (r: Option<&mut A>)
        requires
            old(self).wf(),
        ensures
            final(self).wf(),
            final(self).is_active() == old(self).is_active(),
            final(self).cert_path_view() == old(self).cert_path_view(),
            final(self).key_path_view() == old(self).key_path_view(),
            old(self).sessions().contains_key(payload.session@) <==> r is Some,
            r matches Some(agent) ==> *agent == old(self).sessions()[payload.session@]
                && final(self).sessions() == old(self).sessions().insert(payload.session@, *final(agent)),
            r is None ==> final(self).sessions() == old(self).sessions(),
    {
        self.temp_streams.get_mut(&payload.session)
    }

    /// What a viewer's request to watch comes to: the stream is started if it
    /// was not yet (`true`), and the agent of the message's session leaves the
    /// table to serve the viewer (`None` when no session has that id).
    pub fn start(&mut self, payload: &Payload) -> (r: (bool, Option<A>))
        requires
            old(self).wf(),
        ensures
            final(self).wf(),
            r.0 == !old(self).is_active(),
            final(self).is_active(),
            final(self).cert_path_view() == old(self).cert_path_view(),
            final(self).key_path_view() == old(self).key_path_view(),
            final(self).sessions() == old(self).sessions().remove(payload.session@),
            old(self).sessions().contains_key(payload.session@) ==> r.1 == Some(
                old(self).sessions()[payload.session@],
            ),
            !old(self).sessions().contains_key(payload.session@) ==> r.1 is None,
    {
        let start_stream = !self.active;
        self.active = true;
        let agent = self.temp_streams.remove(&payload.session);
        (start_stream, agent)
    }
}

/// The `offer` message: `{"type": "offer", "session": "ID", "sdp": "SDP"}`.
pub open spec fn offer_message(id: Seq<char>, sdp: Seq<char>) -> Seq<char> {
    "{\"type\": \"offer\", \"session\": \""@ + id + "\", \"sdp\": \""@ + sdp + "\"}"@
}

/// The error message: `{"type": "ERROR"}`.
pub open spec fn error_message(e: Seq<char>) -> Seq<char> {
    "{\"type\": \""@ + e + "\"}"@
}

/// Opens a session (see `CloverLeafState::create_session`) and writes the
/// message that answers the viewer's request for an offer: the offer with its
/// session id, or the error.
pub fn initiate<A>(state: &mut CloverLeafState<A>, prepared: Option<AgentOffer<A>>) -> (r: String)
    requires
        old(state).wf(),
        offer_writable(prepared),
    ensures
        final(state).wf(),
        final(state).is_active() == old(state).is_active(),
        match prepared {
            None => r@ == error_message("error creating ice agent"@) && final(state).sessions() == old(state).sessions(),
            Some(o) => match o.local_candidates {
                Err(_) => r@ == error_message("error getting local cands"@) && final(state).sessions()
                    == old(state).sessions(),
                Ok(v) => exists|id: Seq<char>|
                    is_uuid_text(id) && r@ == offer_message(
                        id,
                        offer_text(
                            SdpView { ufrag: o.ufrag@, pwd: o.pwd@ },
                            candidate_line(v[0]@).unwrap(),
                            o.fingerprint@,
                        ),
                    ) && final(state).sessions() == old(state).sessions().insert(id, o.agent),
            },
        },
{
    match state.create_session(prepared) {
        Ok((session, sdp)) => {
            let mut out = "{\"type\": \"offer\", \"session\": \"".to_owned();
            out.append(session.as_str());
            out.append("\", \"sdp\": \"");
            out.append(sdp.as_str());
            out.append("\"}");
            assert(out@ =~= offer_message(session@, sdp@));
            out
        },
        Err(e) => {
            let mut out = "{\"type\": \"".to_owned();
            out.append(e.as_str());
            out.append("\"}");
            assert(out@ =~= error_message(e@));
            out
        },
    }
}

/// A session opened for an agent is found under its id, with that agent,
/// until it is started; starting it takes it out of the waiting sessions.
pub proof fn law_opened_session_is_found_until_started<A>(
    before: CloverLeafState<A>,
    opened: CloverLeafState<A>,
    started: CloverLeafState<A>,
    id: Seq<char>,
    agent: A,
)
    requires
        opened.sessions() == before.sessions().insert(id, agent),
        started.sessions() == opened.sessions().remove(id),
    ensures
        opened.sessions().contains_key(id),
        opened.sessions()[id] == agent,
        !started.sessions().contains_key(id),
        forall|other: Seq<char>|
            other != id ==> (#[trigger] started.sessions().contains_key(other)
                <==> before.sessions().contains_key(other)),
{
}

} // verus!
