//! The protocol engine: the handshake step, the per-line dispatch step, and
//! the strictly increasing sequence counter with its emission history.

use vstd::prelude::*;
use crate::wire::DecodeError;
use crate::msg::{InitPayload, Payload, InitModel, PayloadModel, Message, BodyModel, MsgModel,
    NodeKind, kind_allows};
use crate::codec::{decode_init, decode_msg, encode_init, encode_msg, spec_decode_init,
    spec_decode_msg, spec_encode_init, spec_encode_msg};

verus! {

/// Why the engine gave up on its input.
#[derive(Clone, Copy, Debug, PartialEq, Eq, Structural)]
pub enum EngineError {
    /// The first record was missing, malformed, or not an `init` request.
    InvalidInit,
    /// A record after the handshake failed to decode.
    InvalidMessage(DecodeError),
}

/// One pluggable node behavior: a kind, a pure constructor, and a pure
/// state-transition step. A reply must swap the addresses, answer the
/// request's sequence number, and carry the fresh sequence number it is given.
pub trait Node: Sized {
    /// The identifier this node was assigned.
    spec fn id_spec(&self) -> Seq<char>;

    /// Which slice of the payload union this behavior understands.
    spec fn kind_spec() -> NodeKind;

    /// Which slice of the payload union this behavior understands.
    fn kind() -> (k: NodeKind)
        ensures
            k == Self::kind_spec(),
    ;

    /// Pure construction from the assigned identifier; no input or output.
    fn init(id: String) -> (n: Self)
        ensures
            n.id_spec() == id@,
    ;

    /// Handle one inbound message, given the sequence number any reply must
    /// carry; may mutate the state, and returns the reply or nothing.
    fn handle(&mut self, req: Message<Payload>, res_msg_id: u64) -> (r: Option<Message<Payload>>)
        ensures
            final(self).id_spec() == old(self).id_spec(),
            match r {
                Some(rep) => rep@.src == old(self).id_spec() && rep@.dest == req@.src
                    && rep@.body.id == Some(res_msg_id) && rep@.body.in_reply_to == req@.body.id
                    && kind_allows(Self::kind_spec(), rep@.body.payload),
                None => true,
            },
    ;
}

/// The engine state: the next sequence number to assign, together with the
/// history of sequence numbers already emitted.
pub struct NodeServer {
    msg_id: u64,
    emitted: Ghost<Seq<u64>>,
}

impl NodeServer {
    /// The sequence number the next outbound record will carry.
    pub closed spec fn next_id(&self) -> u64 {
        self.msg_id
    }

    /// The sequence numbers of every record this engine has emitted, oldest
    /// first.
    pub closed spec fn emitted_ids(&self) -> Seq<u64> {
        self.emitted@
    }

    /// The engine's invariant: it has emitted exactly the sequence numbers
    /// `1, 2, …, next_id() - 1`, in that order.
    pub closed spec fn wf(&self) -> bool {
        &&& self.msg_id >= 1
        &&& self.emitted@ == Seq::new((self.msg_id - 1) as nat, |k: int| (k + 1) as u64)
    }

    /// The sequence number the next outbound record will carry.
    pub fn next_msg_id(&self) -> (n: u64)
        ensures
            n == self.next_id(),
    {
        self.msg_id
    }

    /// A fresh engine: nothing emitted, counting from one.
    pub fn new() -> (s: Self)
        ensures
            s.wf(),
            s.next_id() == 1,
            s.emitted_ids() == Seq::<u64>::empty(),
    {
        let s = NodeServer { msg_id: 1, emitted: Ghost(Seq::empty()) };
        proof {
            assert(s.emitted@ =~= Seq::new(0, |k: int| (k + 1) as u64));
        }
        s
    }

    /// Consume the handshake record: decode it as an `init` request, and
    /// produce this node's identifier together with the encoded `init_ok`
    /// acknowledgment, address-swapped, correlated, and numbered with the
    /// next sequence number. Any other record is refused and nothing is
    /// emitted.
    pub fn handle_init_line(&mut self, line: &str) -> (r: Result<(String, String), EngineError>)
        requires
            old(self).wf(),
            old(self).next_id() < u64::MAX,
        ensures
            final(self).wf(),
            match r {
                Ok((nid, out)) => spec_decode_init(line@) matches Ok(mm)
                    && (mm.body.payload matches InitModel::Init { node_id, node_ids }
                    && nid@ == node_id && out@ == spec_encode_init(
                    MsgModel {
                        src: node_id,
                        dest: mm.src,
                        body: BodyModel {
                            id: Some(old(self).next_id()),
                            in_reply_to: mm.body.id,
                            payload: InitModel::InitOk,
                        },
                    },
                ))
                    && final(self).next_id() == old(self).next_id() + 1
                    && final(self).emitted_ids() == old(self).emitted_ids().push(old(self).next_id()),
                Err(e) => e == EngineError::InvalidInit && *final(self) == *old(self) && (
                spec_decode_init(line@) matches Err(de) || (spec_decode_init(line@) matches Ok(mm)
                    && mm.body.payload is InitOk)),
            },
    {
        match decode_init(line) {
            Err(e) => Err(EngineError::InvalidInit),
            Ok(m) => {
                match &m.body.payload {
                    InitPayload::InitOk => Err(EngineError::InvalidInit),
                    InitPayload::Init { node_id, node_ids } => {
                        let nid = node_id.clone();
                        let reply = m.build_reply(
                            nid.clone(),
                            InitPayload::InitOk,
                            self.msg_id,
                        );
                        let out = encode_init(&reply);
                        proof {
                            assert(reply@ == MsgModel {
                                src: m@.body.payload->Init_node_id,
                                dest: m@.src,
                                body: BodyModel {
                                    id: Some(self.msg_id),
                                    in_reply_to: m@.body.id,
                                    payload: InitModel::InitOk,
                                },
                            });
                        }
                        let ghost e0 = self.emitted@;
                        let ghost c0 = self.msg_id;
                        self.emitted = Ghost(self.emitted@.push(self.msg_id));
                        self.msg_id = self.msg_id + 1;
                        proof {
                            assert(e0.push(c0) =~= Seq::new(
                                (self.msg_id - 1) as nat,
                                |k: int| (k + 1) as u64,
                            ));
                        }
                        Ok((nid, out))
                    },
                }
            },
        }
    }

    /// Dispatch one post-handshake record: decode it over the behavior's
    /// slice of the payload union, let the behavior handle it, and if it
    /// replies, encode the reply under the next sequence number. A decode
    /// failure is fatal; a message the behavior leaves unanswered changes
    /// nothing.
    pub fn handle_line<N: Node>(&mut self, node: &mut N, line: &str) -> (r: Result<
        Option<String>,
        EngineError,
    >)
        requires
            old(self).wf(),
            old(self).next_id() < u64::MAX,
        ensures
            final(self).wf(),
            final(node).id_spec() == old(node).id_spec(),
            match r {
                Ok(out_opt) => spec_decode_msg(N::kind_spec(), line@) matches Ok(req) && match out_opt {
                    Some(out) => (exists|rep: MsgModel<PayloadModel>|
                        out@ == #[trigger] spec_encode_msg(rep) && rep.src == old(node).id_spec()
                            && rep.dest == req.src && rep.body.id == Some(old(self).next_id())
                            && rep.body.in_reply_to == req.body.id)
                        && final(self).next_id() == old(self).next_id() + 1
                        && final(self).emitted_ids() == old(self).emitted_ids().push(old(self).next_id()),
                    None => *final(self) == *old(self),
                },
                Err(e) => *final(self) == *old(self) && (spec_decode_msg(N::kind_spec(), line@)
                    matches Err(de) && e == EngineError::InvalidMessage(de)),
            },
    {
        match decode_msg(N::kind(), line) {
            Err(e) => Err(EngineError::InvalidMessage(e)),
            Ok(m) => {
                let ghost req = m@;
                let rep = node.handle(m, self.msg_id);
                match rep {
                    None => Ok(None),
                    Some(rp) => {
                        let out = encode_msg(&rp);
                        let ghost e0 = self.emitted@;
                        let ghost c0 = self.msg_id;
                        self.emitted = Ghost(self.emitted@.push(self.msg_id));
                        self.msg_id = self.msg_id + 1;
                        proof {
                            assert(e0.push(c0) =~= Seq::new(
                                (self.msg_id - 1) as nat,
                                |k: int| (k + 1) as u64,
                            ));
                            assert(out@ == spec_encode_msg(rp@));
                        }
                        Ok(Some(out))
                    },
                }
            },
        }
    }
}

/// The sequence numbers an engine has emitted form a strictly increasing
/// sequence that starts at one and never repeats a value, however many
/// replies the behaviors produced.
pub proof fn lemma_emitted_strictly_increasing(s: &NodeServer)
    requires
        s.wf(),
    ensures
        forall|i: int, j: int|
            0 <= i < j < s.emitted_ids().len() ==> s.emitted_ids()[i] < s.emitted_ids()[j],
        s.emitted_ids().len() > 0 ==> s.emitted_ids()[0] == 1,
        forall|i: int, j: int|
            0 <= i < s.emitted_ids().len() && 0 <= j < s.emitted_ids().len() && i != j
                ==> s.emitted_ids()[i] != s.emitted_ids()[j],
{
}

} // verus!
