//! The bundled node behaviors: echo, unique-id generation, and the broadcast
//! accumulator. Each is a pure state machine over the payload union; the only
//! outside call is the fresh-identifier draw of the unique-id behavior.

use vstd::prelude::*;
use crate::msg::{Payload, PayloadModel, Message, NodeKind};
use crate::engine::Node;

verus! {

/// Echoes every `echo` request back unchanged.
pub struct EchoNode {
    id: String,
}

impl Node for EchoNode {
    closed spec fn id_spec(&self) -> Seq<char> {
        self.id@
    }

    open spec fn kind_spec() -> NodeKind {
        NodeKind::Echo
    }

    fn kind() -> (k: NodeKind) {
        NodeKind::Echo
    }

    fn init(id: String) -> (n: Self) {
        EchoNode { id }
    }

    /// An `echo` request is answered with `echo_ok` carrying the same text;
    /// an `echo_ok` is an acknowledgment and draws no reply.
    fn handle(&mut self, req: Message<Payload>, res_msg_id: u64) -> (r: Option<Message<Payload>>)
        ensures
            match req@.body.payload {
                PayloadModel::Echo { echo } => r matches Some(rep) && rep@.body.payload
                    == (PayloadModel::EchoOk { echo }),
                _ => r is None,
            },
    {
        match &req.body.payload {
            Payload::Echo { echo } => {
                let text = echo.clone();
                let nid = self.id.clone();
                Some(req.build_reply(nid, Payload::EchoOk { echo: text }, res_msg_id))
            },
            _ => None,
        }
    }
}

/// Relies on `ulid::Ulid::generate` and `ulid::Ulid::to_string`: a freshly
/// drawn identifier, rendered as exactly 26 characters of Crockford base32,
/// which are decimal digits and uppercase letters.
#[verifier::external_body]
fn fresh_ulid() -> (r: String)
    ensures
        r@.len() == 26,
        forall|k: int|
            0 <= k < 26 ==> ((48 <= #[trigger] r@[k] as u32 && r@[k] as u32 <= 57) || (65 <= r@[k] as u32
                && r@[k] as u32 <= 90)),
{
    ulid::Ulid::generate().to_string()
}

/// Answers every `generate` request with a freshly generated, globally
/// unique identifier.
pub struct UniqueIdNode {
    id: String,
}

impl Node for UniqueIdNode {
    closed spec fn id_spec(&self) -> Seq<char> {
        self.id@
    }

    open spec fn kind_spec() -> NodeKind {
        NodeKind::UniqueId
    }

    fn kind() -> (k: NodeKind) {
        NodeKind::UniqueId
    }

    fn init(id: String) -> (n: Self) {
        UniqueIdNode { id }
    }

    /// A `generate` request is answered with `generate_ok` carrying a fresh
    /// 26-character identifier; a `generate_ok` draws no reply. Two calls may
    /// carry different identifiers, so only the shape of the identifier is
    /// promised.
    fn handle(&mut self, req: Message<Payload>, res_msg_id: u64) -> (r: Option<Message<Payload>>)
        ensures
            match req@.body.payload {
                PayloadModel::Generate => r matches Some(rep) && (rep@.body.payload
                    matches PayloadModel::GenerateOk { id } && id.len() == 26),
                _ => r is None,
            },
    {
        match &req.body.payload {
            Payload::Generate => {
                let fresh = fresh_ulid();
                let nid = self.id.clone();
                Some(req.build_reply(nid, Payload::GenerateOk { id: fresh }, res_msg_id))
            },
            _ => None,
        }
    }
}

/// A copy of a vector of message ids.
fn copy_u64s(xs: &Vec<u64>) -> (r: Vec<u64>)
    ensures
        r@ == xs@,
{
    let n = xs.len();
    let mut r: Vec<u64> = Vec::new();
    let mut i: usize = 0;
    while i < n
        invariant
            n == xs@.len(),
            i <= n,
            r@ == xs@.subrange(0, i as int),
        decreases n - i,
    {
        r.push(xs[i]);
        proof {
            assert(r@ =~= xs@.subrange(0, i + 1));
        }
        i += 1;
    }
    proof {
        assert(r@ =~= xs@);
    }
    r
}

/// What a broadcast node's accumulated store becomes after one message.
pub open spec fn broadcast_next(ms: Seq<u64>, p: PayloadModel) -> Seq<u64> {
    match p {
        PayloadModel::Broadcast { message } => ms.push(message),
        _ => ms,
    }
}

/// The reply payload a broadcast node owes for one message, if any.
pub open spec fn broadcast_reply(ms: Seq<u64>, p: PayloadModel) -> Option<PayloadModel> {
    match p {
        PayloadModel::Broadcast { message } => Some(PayloadModel::BroadcastOk),
        PayloadModel::Read => Some(PayloadModel::ReadOk { messages: ms }),
        PayloadModel::Topology { topology } => Some(PayloadModel::TopologyOk),
        _ => None,
    }
}

/// Accumulates broadcast message ids and reports them back in insertion
/// order. Topology information is acknowledged but never acted on: no record
/// is ever forwarded to a peer.
pub struct BroadcastNode {
    id: String,
    messages: Vec<u64>,
}

impl BroadcastNode {
    /// The accumulated message ids, in insertion order.
    pub closed spec fn messages_spec(&self) -> Seq<u64> {
        self.messages@
    }
}

impl Node for BroadcastNode {
    closed spec fn id_spec(&self) -> Seq<char> {
        self.id@
    }

    open spec fn kind_spec() -> NodeKind {
        NodeKind::Broadcast
    }

    fn kind() -> (k: NodeKind) {
        NodeKind::Broadcast
    }

    fn init(id: String) -> (n: Self)
        ensures
            n.messages_spec() == Seq::<u64>::empty(),
    {
        BroadcastNode { id, messages: Vec::new() }
    }

    /// The state moves by `broadcast_next` and the reply is exactly
    /// `broadcast_reply`: a `broadcast` is accumulated and acknowledged, a
    /// `read` reports the accumulated ids in insertion order, a `topology` is
    /// acknowledged and otherwise ignored, and acknowledgment kinds draw no
    /// reply.
    fn handle(&mut self, req: Message<Payload>, res_msg_id: u64) -> (r: Option<Message<Payload>>)
        ensures
            final(self).messages_spec() == broadcast_next(
                old(self).messages_spec(),
                req@.body.payload,
            ),
            match broadcast_reply(old(self).messages_spec(), req@.body.payload) {
                Some(p) => r matches Some(rep) && rep@.body.payload == p,
                None => r is None,
            },
    {
        match &req.body.payload {
            Payload::Broadcast { message } => {
                self.messages.push(*message);
                let nid = self.id.clone();
                Some(req.build_reply(nid, Payload::BroadcastOk, res_msg_id))
            },
            Payload::Read => {
                let ms = copy_u64s(&self.messages);
                let nid = self.id.clone();
                Some(req.build_reply(nid, Payload::ReadOk { messages: ms }, res_msg_id))
            },
            Payload::Topology { topology } => {
                let nid = self.id.clone();
                Some(req.build_reply(nid, Payload::TopologyOk, res_msg_id))
            },
            _ => None,
        }
    }
}

/// Reading is idempotent: a `read` leaves the accumulated store unchanged,
/// so two successive `read` requests are answered with identical `messages`
/// contents — only the engine-assigned sequence numbers of the two replies
/// differ.
pub proof fn lemma_read_idempotent(ms: Seq<u64>)
    ensures
        broadcast_next(ms, PayloadModel::Read) == ms,
        broadcast_reply(ms, PayloadModel::Read) == broadcast_reply(
            broadcast_next(ms, PayloadModel::Read),
            PayloadModel::Read,
        ),
        broadcast_reply(ms, PayloadModel::Read) == Some(PayloadModel::ReadOk { messages: ms }),
{
}

} // verus!
