use vstd::prelude::*;

use crate::error::DiggerError;
use crate::header::{header_at, HEADER_LEN};
use crate::kinds::{DnsClass, DnsType};
use crate::message::{build_dns_request, parse_response, query_bytes, response_at, Message, MessageView};
use crate::name::valid_name;
use crate::record::name_error;

verus! {

/// Where a query session stands.
#[derive(Debug, Clone, Copy, PartialEq, Eq, Structural)]
pub enum SessionState {
    /// The query is built and not sent yet.
    Idle,
    /// The query was sent; datagrams are being examined.
    AwaitingResponse,
    /// An answer was delivered or the time budget ran out.
    Done,
}

/// One query and its single outcome. The caller performs the I/O: it sends
/// what `start` returns, hands each received datagram to `on_datagram`,
/// and reports the end of the time budget with `on_timeout`.
pub struct QuerySession {
    state: SessionState,
    id: u16,
    query: Vec<u8>,
}

/// What a datagram does to a session in state `state` that waits for the
/// response to query `id`: the next state and the message delivered, if
/// any. Only a waiting session takes a datagram, and only a valid response
/// to its query ends the wait.
pub open spec fn datagram_step(state: SessionState, id: u16, buf: Seq<u8>) -> (
    SessionState,
    Option<MessageView>,
) {
    if state != SessionState::AwaitingResponse {
        (state, None)
    } else {
        match response_at(id, buf) {
            Ok(m) => (SessionState::Done, Some(m)),
            Err(_) => (SessionState::AwaitingResponse, None),
        }
    }
}

/// A datagram that carries another transaction ID is not taken as the
/// answer: a waiting session keeps waiting.
pub proof fn lemma_mismatched_id_keeps_waiting(id: u16, buf: Seq<u8>)
    requires
        buf.len() >= HEADER_LEN,
        header_at(buf, 0).id != id,
    ensures
        response_at(id, buf) == Err::<MessageView, DiggerError>(DiggerError::ResponseMismatch),
        datagram_step(SessionState::AwaitingResponse, id, buf) == (
            SessionState::AwaitingResponse,
            None::<MessageView>,
        ),
{
}

impl QuerySession {
    pub closed spec fn state_spec(&self) -> SessionState {
        self.state
    }

    pub closed spec fn id_spec(&self) -> u16 {
        self.id
    }

    /// The query datagram of this session.
    pub closed spec fn query_spec(&self) -> Seq<u8> {
        self.query@
    }

    /// A session in state `Idle` for a query with ID `id` about `name`;
    /// fails with the name's error when the name cannot be encoded.
    pub fn new(id: u16, name: &[u8], qtype: DnsType, qclass: DnsClass) -> (r: Result<
        QuerySession,
        DiggerError,
    >)
        ensures
            valid_name(name@) ==> r is Ok && r->Ok_0.state_spec() == SessionState::Idle
                && r->Ok_0.id_spec() == id && r->Ok_0.query_spec() == query_bytes(
                id,
                name@,
                qtype,
                qclass,
            ),
            !valid_name(name@) ==> r == Err::<QuerySession, DiggerError>(name_error(name@)),
    {
        match build_dns_request(id, name, qtype, qclass) {
            Ok(query) => Ok(QuerySession { state: SessionState::Idle, id, query }),
            Err(e) => Err(e),
        }
    }

    pub fn state(&self) -> (r: SessionState)
        ensures
            r == self.state_spec(),
    {
        self.state
    }

    /// The transaction ID of the query.
    pub fn id(&self) -> (r: u16)
        ensures
            r == self.id_spec(),
    {
        self.id
    }

    /// Moves an idle session to `AwaitingResponse` and returns the datagram
    /// to send. A session that was started already is left as it is and
    /// gives `None`: a session sends one query.
    pub fn start(&mut self) -> (r: Option<Vec<u8>>)
        ensures
            old(self).state_spec() == SessionState::Idle ==> r is Some && r->Some_0@
                == old(self).query_spec() && final(self).state_spec()
                == SessionState::AwaitingResponse && final(self).id_spec() == old(self).id_spec()
                && final(self).query_spec() == old(self).query_spec(),
            old(self).state_spec() != SessionState::Idle ==> r is None && *final(self) == *old(
                self,
            ),
    {
        if self.state != SessionState::Idle {
            return None;
        }
        self.state = SessionState::AwaitingResponse;
        Some(self.query.clone())
    }

    /// Examines a received datagram. A valid response to this session's
    /// query ends the wait and is returned; anything else (a parse failure,
    /// a query, another ID) is dropped and the session keeps waiting.
    pub fn on_datagram(&mut self, buf: &[u8]) -> (r: Option<Message>)
        ensures
            final(self).state_spec() == datagram_step(old(self).state_spec(), old(self).id_spec(), buf@).0,
            final(self).id_spec() == old(self).id_spec(),
            final(self).query_spec() == old(self).query_spec(),
            match datagram_step(old(self).state_spec(), old(self).id_spec(), buf@).1 {
                Some(m) => r is Some && r->Some_0@ == m,
                None => r is None,
            },
    {
        if self.state != SessionState::AwaitingResponse {
            return None;
        }
        match parse_response(self.id, buf) {
            Ok(m) => {
                self.state = SessionState::Done;
                Some(m)
            },
            Err(_) => None,
        }
    }

    /// Reports that the time budget ran out: a waiting session ends with
    /// `ResolverTimeout`; a session in any other state is left as it is and
    /// gives `None`.
    pub fn on_timeout(&mut self) -> (r: Option<DiggerError>)
        ensures
            old(self).state_spec() == SessionState::AwaitingResponse ==> r == Some(
                DiggerError::ResolverTimeout,
            ) && final(self).state_spec() == SessionState::Done && final(self).id_spec()
                == old(self).id_spec() && final(self).query_spec() == old(self).query_spec(),
            old(self).state_spec() != SessionState::AwaitingResponse ==> r is None && *final(self)
                == *old(self),
    {
        if self.state != SessionState::AwaitingResponse {
            return None;
        }
        self.state = SessionState::Done;
        Some(DiggerError::ResolverTimeout)
    }
}

} // verus!
