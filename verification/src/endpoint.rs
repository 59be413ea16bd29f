//! The bidirectional endpoint core: the registry of pending outbound
//! requests, the identifier counter, and the routing decisions for inbound
//! payloads. The surrounding threads perform I/O and hand every payload to
//! this state machine.

use vstd::prelude::*;

use crate::json_text::json_text;
use crate::jsonrpc_common::{Id, RequestError};
use crate::jsonrpc_message::{decode_message, message_of_json, message_to_json, Message, MessageV};
use crate::jsonrpc_request::{request_to_json, Request, RequestParams};
use crate::jsonrpc_response::ResponseResult;
use crate::json_parse::parse_json_spec;

verus! {

/// Why a send was refused.
#[derive(Debug, PartialEq)]
pub enum SendError {
    /// The endpoint no longer accepts outbound requests.
    Shutdown,
}

/// Mathematical model of the endpoint core.
pub struct EndpointV {
    /// The next identifier to hand out; identifiers are strictly monotonic.
    pub next_id: u64,
    /// Whether the endpoint still accepts outbound requests.
    pub running: bool,
    /// The identifiers of requests awaiting their response.
    pub pending: Seq<u64>,
}

/// A well-formed endpoint: no identifier is pending twice, and every pending
/// identifier was handed out earlier than the counter stands.
pub open spec fn ep_wf(s: EndpointV) -> bool {
    s.pending.no_duplicates() && forall|i: int|
        0 <= i < s.pending.len() ==> #[trigger] s.pending[i] < s.next_id
}

/// Registering an outbound request: a fresh identifier is handed out and its
/// slot becomes pending. Nothing happens once the endpoint stops running or
/// the identifiers are exhausted.
pub open spec fn ep_register(s: EndpointV) -> (EndpointV, Option<u64>) {
    if !s.running || s.next_id == u64::MAX {
        (s, None)
    } else {
        (
            EndpointV {
                next_id: (s.next_id + 1) as u64,
                running: s.running,
                pending: s.pending.push(s.next_id),
            },
            Some(s.next_id),
        )
    }
}

/// Resolving a response: exactly the matching slot leaves the registry; a
/// response with no matching slot changes nothing.
pub open spec fn ep_resolve(s: EndpointV, id: u64) -> (EndpointV, bool) {
    if s.pending.contains(id) {
        (
            EndpointV {
                next_id: s.next_id,
                running: s.running,
                pending: s.pending.remove_value(id),
            },
            true,
        )
    } else {
        (s, false)
    }
}

/// Shutting down: the endpoint stops accepting sends and every pending slot
/// is drained, to be resolved with the shutdown error. A second shutdown
/// changes nothing and drains nothing.
pub open spec fn ep_shutdown(s: EndpointV) -> (EndpointV, Seq<u64>) {
    if s.running {
        (EndpointV { next_id: s.next_id, running: false, pending: Seq::empty() }, s.pending)
    } else {
        (s, Seq::empty())
    }
}

/// Registration hands out a fresh identifier: one that no outstanding
/// request carries, so a response to it can never be claimed by another
/// request's slot.
pub proof fn lemma_register_fresh(s: EndpointV)
    requires
        ep_wf(s),
        ep_register(s).1 is Some,
    ensures
        !s.pending.contains(ep_register(s).1->0),
        ep_wf(ep_register(s).0),
        ep_register(s).0.pending.contains(ep_register(s).1->0),
{
    let id = ep_register(s).1->0;
    let s2 = ep_register(s).0;
    assert(!s.pending.contains(id));
    assert(forall|i: int| 0 <= i < s.pending.len() ==> #[trigger] s2.pending[i] == s.pending[i]);
    assert(s2.pending.no_duplicates());
    assert(s2.pending[s.pending.len() as int] == id);
}

/// Identifiers are handed out strictly monotonically: of two successive
/// registrations, the second always gets the larger identifier.
pub proof fn lemma_register_monotonic(s: EndpointV)
    requires
        ep_register(s).1 is Some,
        ep_register(ep_register(s).0).1 is Some,
    ensures
        ep_register(s).1->0 < ep_register(ep_register(s).0).1->0,
{
}

/// Correlation: resolving the response for one identifier removes exactly
/// that slot; every other outstanding request stays pending.
pub proof fn lemma_correlation(s: EndpointV, id1: u64, id2: u64)
    requires
        ep_wf(s),
        s.pending.contains(id1),
        s.pending.contains(id2),
        id1 != id2,
    ensures
        ep_resolve(s, id1).1,
        !ep_resolve(s, id1).0.pending.contains(id1),
        ep_resolve(s, id1).0.pending.contains(id2),
        ep_wf(ep_resolve(s, id1).0),
{
    let p = s.pending;
    p.index_of_first_ensures(id1);
    let i = p.index_of_first(id1)->0;
    let q = p.remove_value(id1);
    assert(q == p.remove(i));
    p.remove_ensures(i);
    assert forall|a: int, b: int|
        0 <= a < q.len() && 0 <= b < q.len() && a != b implies q[a] != q[b] by {
        let pa = if a < i {
            a
        } else {
            a + 1
        };
        let pb = if b < i {
            b
        } else {
            b + 1
        };
        assert(q[a] == p[pa]);
        assert(q[b] == p[pb]);
    }
    assert(q.no_duplicates());
    assert forall|x: u64| x != id1 && p.contains(x) implies q.contains(x) by {
        let k = choose|k: int| 0 <= k < p.len() && p[k] == x;
        if k < i {
            assert(q[k] == x);
        } else {
            assert(q[k - 1] == x);
        }
    }
    if q.contains(id1) {
        let k = choose|k: int| 0 <= k < q.len() && q[k] == id1;
        if k < i {
            assert(p[k] == id1);
            assert(p[i] == id1);
            assert(false);
        } else {
            assert(p[k + 1] == id1);
            assert(p[i] == id1);
            assert(false);
        }
    }
    assert forall|k: int| 0 <= k < q.len() implies #[trigger] q[k] < s.next_id by {
        if k < i {
            assert(q[k] == p[k]);
        } else {
            assert(q[k] == p[k + 1]);
        }
    }
}

/// At-most-once resolution: once a slot is resolved it is gone, so a second
/// response with the same identifier finds nothing; and after shutdown every
/// slot has been drained, so no response finds anything.
pub proof fn lemma_at_most_once(s: EndpointV, id: u64)
    requires
        ep_wf(s),
    ensures
        ep_resolve(s, id).1 <==> s.pending.contains(id),
        !ep_resolve(ep_resolve(s, id).0, id).1,
        s.running ==> !ep_resolve(ep_shutdown(s).0, id).1,
{
    if s.pending.contains(id) {
        let p = s.pending;
        p.index_of_first_ensures(id);
        let i = p.index_of_first(id)->0;
        let q = p.remove_value(id);
        assert(q == p.remove(i));
        p.remove_ensures(i);
        if q.contains(id) {
            let k = choose|k: int| 0 <= k < q.len() && q[k] == id;
            if k < i {
                assert(p[k] == id);
                assert(p[i] == id);
                assert(false);
            } else {
                assert(p[k + 1] == id);
                assert(p[i] == id);
                assert(false);
            }
        }
    }
    if s.running {
        assert(!ep_shutdown(s).0.pending.contains(id));
    }
}

/// Idempotent shutdown: a second shutdown is a no-op and drains nothing.
pub proof fn lemma_shutdown_idempotent(s: EndpointV)
    ensures
        ep_shutdown(ep_shutdown(s).0).0 == ep_shutdown(s).0,
        ep_shutdown(ep_shutdown(s).0).1 == Seq::<u64>::empty(),
{
}

/// The endpoint core: the pending-request registry and the identifier
/// counter, shared by every sender and by the read loop.
#[derive(Debug)]
pub struct EndpointCore {
    pub next_id: u64,
    pub running: bool,
    pub pending: Vec<u64>,
}

impl View for EndpointCore {
    type V = EndpointV;

    open spec fn view(&self) -> EndpointV {
        EndpointV { next_id: self.next_id, running: self.running, pending: self.pending@ }
    }
}

/// What the endpoint decides to do with one inbound payload.
#[derive(Debug, PartialEq)]
pub enum InboundAction {
    /// An inbound request carrying an identifier: invoke the handler, then
    /// submit its response.
    DispatchRequest(Request),
    /// An inbound notification: invoke the handler and discard the outcome.
    DispatchNotification(Request),
    /// The response to the outbound request with this identifier: hand the
    /// result to its awaiter.
    ResolvePending(u64, ResponseResult),
    /// A response that matches no pending request: drop it.
    DropUnknown(Id),
    /// A payload that denotes no message but could be meant as a request:
    /// report the error back, correlated to the null identifier.
    RespondError(RequestError),
    /// A payload that cannot be attributed to anyone: drop it.
    DropInvalid(RequestError),
}

impl EndpointCore {
    /// A fresh endpoint: accepting, no pending requests, identifiers from 0.
    pub fn new() -> (r: EndpointCore)
        ensures
            r@ == (EndpointV { next_id: 0u64, running: true, pending: Seq::<u64>::empty() }),
            ep_wf(r@),
    {
        let r = EndpointCore { next_id: 0, running: true, pending: Vec::new() };
        proof {
            assert(r@.pending =~= Seq::<u64>::empty());
        }
        r
    }

    /// Registers one outbound request and hands out its identifier.
    pub fn register_request(&mut self) -> (r: Result<u64, SendError>)
        ensures
            match r {
                Ok(id) => ep_register(old(self)@) == (final(self)@, Some(id)),
                Err(_) => ep_register(old(self)@) == (final(self)@, None::<u64>) && final(self)@
                    == old(self)@,
            },
    {
        if !self.running || self.next_id == u64::MAX {
            Err(SendError::Shutdown)
        } else {
            let id = self.next_id;
            self.next_id = self.next_id + 1;
            self.pending.push(id);
            Ok(id)
        }
    }

    /// Resolves the pending slot for an identifier, if one is outstanding.
    pub fn resolve_response(&mut self, id: u64) -> (found: bool)
        ensures
            ep_resolve(old(self)@, id) == (final(self)@, found),
    {
        let mut i: usize = 0;
        while i < self.pending.len()
            invariant
                i <= self.pending@.len(),
                forall|k: int| 0 <= k < i ==> self.pending@[k] != id,
                self == old(self),
            decreases self.pending@.len() - i,
        {
            if self.pending[i] == id {
                proof {
                    let p = self.pending@;
                    assert(p.contains(id));
                    p.index_of_first_ensures(id);
                    let j = p.index_of_first(id)->0;
                    assert(p[j] == id);
                    assert(j == i as int);
                    assert(p.remove_value(id) == p.remove(i as int));
                }
                self.pending.remove(i);
                return true;
            }
            i = i + 1;
        }
        proof {
            if self.pending@.contains(id) {
                let k = choose|k: int|
                    0 <= k < self.pending@.len() && self.pending@[k] == id;
                assert(false);
            }
        }
        false
    }

    /// Stops accepting sends and drains every pending slot; the caller
    /// resolves each drained identifier with the shutdown error and joins
    /// the worker threads. A second call is a no-op.
    pub fn shutdown_and_join(&mut self) -> (drained: Vec<u64>)
        ensures
            ep_shutdown(old(self)@) == (final(self)@, drained@),
    {
        if self.running {
            self.running = false;
            let mut drained: Vec<u64> = Vec::new();
            core::mem::swap(&mut drained, &mut self.pending);
            proof {
                assert(final(self)@.pending =~= Seq::<u64>::empty());
            }
            drained
        } else {
            let drained: Vec<u64> = Vec::new();
            proof {
                assert(drained@ =~= Seq::<u64>::empty());
            }
            drained
        }
    }

    /// Builds and registers one outbound request: a fresh identifier, the
    /// request object, and its wire text. The caller submits the text to the
    /// output agent and holds the awaiter for the identifier.
    pub fn prepare_request(&mut self, method: String, params: RequestParams) -> (r: Result<
        (u64, String),
        SendError,
    >)
        ensures
            match r {
                Ok(p) => ep_register(old(self)@) == (final(self)@, Some(p.0)) && p.1@ == json_text(
                    message_to_json(
                        MessageV::Request(
                            Request {
                                id: Some(Id::Number(p.0)),
                                method: method,
                                params: params,
                            }@,
                        ),
                    ),
                ),
                Err(_) => final(self)@ == old(self)@ && ep_register(old(self)@).1 is None,
            },
    {
        let ghost gm = method@;
        let ghost gp = params@;
        match self.register_request() {
            Err(e) => Err(e),
            Ok(id) => {
                let req = Request { id: Some(Id::Number(id)), method, params };
                let msg = Message::Request(req);
                let payload = msg.to_json_text();
                Ok((id, payload))
            },
        }
    }

    /// Builds one outbound notification: a request with no identifier, which
    /// registers no slot and expects no response.
    pub fn prepare_notification(&self, method: String, params: RequestParams) -> (r: String)
        ensures
            r@ == json_text(
                message_to_json(
                    MessageV::Request(Request { id: None, method: method, params: params }@),
                ),
            ),
    {
        let req = Request { id: None, method, params };
        let msg = Message::Request(req);
        msg.to_json_text()
    }

    /// Decides what to do with one inbound framed payload: dispatch a
    /// request, resolve the matching pending slot of a response, or classify
    /// the failure. Only the matching slot is touched; everything else in
    /// the endpoint stays as it was.
    pub fn handle_incoming(&mut self, payload: &str) -> (act: InboundAction)
        ensures
            match parse_json_spec(payload@) {
                None => act matches InboundAction::DropInvalid(e) && e@.code == -32700
                    && final(self)@ == old(self)@,
                Some(j) => match message_of_json(j) {
                    Err(_) => act matches InboundAction::RespondError(e) && e@.code == -32600
                        && final(self)@ == old(self)@,
                    Ok(mv) => match mv {
                        MessageV::Request(rv) => final(self)@ == old(self)@ && if rv.id is Some {
                            act matches InboundAction::DispatchRequest(req) && req@ == rv
                        } else {
                            act matches InboundAction::DispatchNotification(req) && req@ == rv
                        },
                        MessageV::Response(rv) => match rv.id {
                            crate::jsonrpc_common::IdV::Number(n) => if old(
                                self,
                            )@.pending.contains(n) {
                                act matches InboundAction::ResolvePending(id, rr) && id == n
                                    && rr@ == rv.result_or_error && ep_resolve(old(self)@, n) == (
                                final(self)@,
                                true,
                                )
                            } else {
                                act matches InboundAction::DropUnknown(id) && id@ == rv.id
                                    && final(self)@ == old(self)@
                            },
                            _ => act matches InboundAction::DropUnknown(id) && id@ == rv.id
                                && final(self)@ == old(self)@,
                        },
                    },
                },
            },
    {
        match decode_message(payload) {
            Err(e) => {
                if e.code == -32600 {
                    InboundAction::RespondError(e)
                } else {
                    InboundAction::DropInvalid(e)
                }
            },
            Ok(Message::Request(req)) => {
                match &req.id {
                    Some(_) => InboundAction::DispatchRequest(req),
                    None => InboundAction::DispatchNotification(req),
                }
            },
            Ok(Message::Response(resp)) => {
                match resp.id {
                    Id::Number(n) => {
                        if self.resolve_response(n) {
                            InboundAction::ResolvePending(n, resp.result_or_error)
                        } else {
                            InboundAction::DropUnknown(Id::Number(n))
                        }
                    },
                    other => InboundAction::DropUnknown(other),
                }
            },
        }
    }
}

} // verus!
