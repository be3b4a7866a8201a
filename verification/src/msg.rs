//! The envelope and payload types of the protocol, their mathematical models,
//! and reply construction.

use vstd::prelude::*;
use crate::arr::strs_view;
use crate::topo::topo_view;

verus! {

/// The fixed, engine-owned payload union of the initialization handshake.
#[derive(Clone, Debug, PartialEq, Eq)]
pub enum InitPayload {
    Init { node_id: String, node_ids: Vec<String> },
    InitOk,
}

/// The behavior payload union: every message kind the bundled node behaviors
/// understand. Which kinds a given node accepts is decided by its `NodeKind`.
#[derive(Clone, Debug, PartialEq, Eq)]
pub enum Payload {
    Echo { echo: String },
    EchoOk { echo: String },
    Generate,
    GenerateOk { id: String },
    Broadcast { message: u64 },
    BroadcastOk,
    Read,
    ReadOk { messages: Vec<u64> },
    Topology { topology: Vec<(String, Vec<String>)> },
    TopologyOk,
}

/// The model of an initialization payload.
pub enum InitModel {
    Init { node_id: Seq<char>, node_ids: Seq<Seq<char>> },
    InitOk,
}

/// The model of a behavior payload.
pub enum PayloadModel {
    Echo { echo: Seq<char> },
    EchoOk { echo: Seq<char> },
    Generate,
    GenerateOk { id: Seq<char> },
    Broadcast { message: u64 },
    BroadcastOk,
    Read,
    ReadOk { messages: Seq<u64> },
    Topology { topology: Seq<(Seq<char>, Seq<Seq<char>>)> },
    TopologyOk,
}

impl View for InitPayload {
    type V = InitModel;

    open spec fn view(&self) -> InitModel {
        match self {
            InitPayload::Init { node_id, node_ids } => InitModel::Init {
                node_id: node_id@,
                node_ids: strs_view(node_ids@),
            },
            InitPayload::InitOk => InitModel::InitOk,
        }
    }
}

impl View for Payload {
    type V = PayloadModel;

    open spec fn view(&self) -> PayloadModel {
        match self {
            Payload::Echo { echo } => PayloadModel::Echo { echo: echo@ },
            Payload::EchoOk { echo } => PayloadModel::EchoOk { echo: echo@ },
            Payload::Generate => PayloadModel::Generate,
            Payload::GenerateOk { id } => PayloadModel::GenerateOk { id: id@ },
            Payload::Broadcast { message } => PayloadModel::Broadcast { message: *message },
            Payload::BroadcastOk => PayloadModel::BroadcastOk,
            Payload::Read => PayloadModel::Read,
            Payload::ReadOk { messages } => PayloadModel::ReadOk { messages: messages@ },
            Payload::Topology { topology } => PayloadModel::Topology {
                topology: topo_view(topology@),
            },
            Payload::TopologyOk => PayloadModel::TopologyOk,
        }
    }
}

/// The sequencing metadata plus payload of an envelope. On the wire the
/// payload's tag and fields sit beside `msg_id` and `in_reply_to`, not nested
/// under a key.
#[derive(Clone, Debug, PartialEq, Eq)]
pub struct Body<P> {
    /// The sequence number this node assigned to the record, if any
    /// (`msg_id` on the wire).
    pub id: Option<u64>,
    pub in_reply_to: Option<u64>,
    pub payload: P,
}

/// One protocol message: source, destination, and body.
#[derive(Clone, Debug, PartialEq, Eq)]
pub struct Message<P> {
    pub src: String,
    pub dest: String,
    pub body: Body<P>,
}

/// The model of a body.
pub struct BodyModel<M> {
    pub id: Option<u64>,
    pub in_reply_to: Option<u64>,
    pub payload: M,
}

/// The model of a message.
pub struct MsgModel<M> {
    pub src: Seq<char>,
    pub dest: Seq<char>,
    pub body: BodyModel<M>,
}

impl<P: View> View for Body<P> {
    type V = BodyModel<P::V>;

    open spec fn view(&self) -> BodyModel<P::V> {
        BodyModel { id: self.id, in_reply_to: self.in_reply_to, payload: self.payload@ }
    }
}

impl<P: View> View for Message<P> {
    type V = MsgModel<P::V>;

    open spec fn view(&self) -> MsgModel<P::V> {
        MsgModel { src: self.src@, dest: self.dest@, body: self.body@ }
    }
}

impl<P: View> Message<P> {
    /// A reply to this message: addresses swapped, `in_reply_to` set to this
    /// message's sequence number, and the given fresh sequence number.
    pub fn build_reply(&self, node_id: String, payload: P, msg_id: u64) -> (r: Message<P>)
        ensures
            r@.src == node_id@,
            r@.dest == self@.src,
            r@.body.id == Some(msg_id),
            r@.body.in_reply_to == self@.body.id,
            r@.body.payload == payload@,
    {
        Message {
            src: node_id,
            dest: self.src.clone(),
            body: Body { id: Some(msg_id), in_reply_to: self.body.id, payload },
        }
    }
}

/// The node kinds the bundled behaviors provide; each accepts only its own
/// slice of the payload union.
#[derive(Clone, Copy, Debug, PartialEq, Eq, Structural)]
pub enum NodeKind {
    Echo,
    UniqueId,
    Broadcast,
}

/// Which payload kinds a node of kind `k` understands.
pub open spec fn kind_allows(k: NodeKind, p: PayloadModel) -> bool {
    match k {
        NodeKind::Echo => p is Echo || p is EchoOk,
        NodeKind::UniqueId => p is Generate || p is GenerateOk,
        NodeKind::Broadcast => p is Broadcast || p is BroadcastOk || p is Read || p is ReadOk
            || p is Topology || p is TopologyOk,
    }
}

/// Which payload kinds a node of kind `k` understands.
pub fn exec_kind_allows(k: NodeKind, p: &Payload) -> (b: bool)
    ensures
        b == kind_allows(k, p@),
{
    match k {
        NodeKind::Echo => matches!(p, Payload::Echo { .. } | Payload::EchoOk { .. }),
        NodeKind::UniqueId => matches!(p, Payload::Generate | Payload::GenerateOk { .. }),
        NodeKind::Broadcast => matches!(
            p,
            Payload::Broadcast { .. } | Payload::BroadcastOk | Payload::Read | Payload::ReadOk {
                ..
            } | Payload::Topology { .. } | Payload::TopologyOk
        ),
    }
}

} // verus!
