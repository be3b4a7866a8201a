//! The envelope codec: one JSON object per line, with the payload's tag and
//! fields flattened beside the sequencing fields of the body.
//!
//! The codec emits a canonical form — `src`, `dest`, `body`, and inside the
//! body the `type` tag first, then `msg_id` and `in_reply_to` when present,
//! then the payload's fields — and the decoder accepts exactly that form.

use vstd::prelude::*;
use crate::wire::{DecodeError, lit_at, to_chars, chars_to_string, push_lit, match_lit};
use crate::num::{dec_digits, spec_parse_u64, parse_u64, push_u64};
use crate::arr::{print_qstr, spec_parse_qstr, parse_qstr, push_qstr, print_str_arr,
    spec_parse_str_arr, parse_str_arr, push_str_arr, print_u64_arr, spec_parse_u64_arr,
    parse_u64_arr, push_u64_arr};
use crate::topo::{print_topo, spec_parse_topo, parse_topo, push_topo};
use crate::msg::{InitPayload, Payload, InitModel, PayloadModel, Body, Message, BodyModel,
    MsgModel, NodeKind, kind_allows, exec_kind_allows};

verus! {

/// An optional sequencing field on the wire: its key and number, or nothing.
pub open spec fn print_opt(v: Option<u64>, key: Seq<char>) -> Seq<char> {
    match v {
        Some(n) => key + dec_digits(n),
        None => Seq::empty(),
    }
}

/// The tag of an initialization payload.
pub open spec fn init_tag(p: InitModel) -> Seq<char> {
    match p {
        InitModel::Init { .. } => "init"@,
        InitModel::InitOk => "init_ok"@,
    }
}

/// The fields of an initialization payload, as they follow the sequencing
/// fields on the wire.
pub open spec fn init_fields(p: InitModel) -> Seq<char> {
    match p {
        InitModel::Init { node_id, node_ids } => ",\"node_id\":"@ + print_qstr(node_id)
            + ",\"node_ids\":"@ + print_str_arr(node_ids),
        InitModel::InitOk => Seq::empty(),
    }
}

/// The tag of a behavior payload.
pub open spec fn payload_tag(p: PayloadModel) -> Seq<char> {
    match p {
        PayloadModel::Echo { .. } => "echo"@,
        PayloadModel::EchoOk { .. } => "echo_ok"@,
        PayloadModel::Generate => "generate"@,
        PayloadModel::GenerateOk { .. } => "generate_ok"@,
        PayloadModel::Broadcast { .. } => "broadcast"@,
        PayloadModel::BroadcastOk => "broadcast_ok"@,
        PayloadModel::Read => "read"@,
        PayloadModel::ReadOk { .. } => "read_ok"@,
        PayloadModel::Topology { .. } => "topology"@,
        PayloadModel::TopologyOk => "topology_ok"@,
    }
}

/// The fields of a behavior payload, as they follow the sequencing fields on
/// the wire.
pub open spec fn payload_fields(p: PayloadModel) -> Seq<char> {
    match p {
        PayloadModel::Echo { echo } => ",\"echo\":"@ + print_qstr(echo),
        PayloadModel::EchoOk { echo } => ",\"echo\":"@ + print_qstr(echo),
        PayloadModel::Generate => Seq::empty(),
        PayloadModel::GenerateOk { id } => ",\"id\":"@ + print_qstr(id),
        PayloadModel::Broadcast { message } => ",\"message\":"@ + dec_digits(message),
        PayloadModel::BroadcastOk => Seq::empty(),
        PayloadModel::Read => Seq::empty(),
        PayloadModel::ReadOk { messages } => ",\"messages\":"@ + print_u64_arr(messages),
        PayloadModel::Topology { topology } => ",\"topology\":"@ + print_topo(topology),
        PayloadModel::TopologyOk => Seq::empty(),
    }
}

/// A whole record on the wire, from its parts.
pub open spec fn print_envelope(
    src: Seq<char>,
    dest: Seq<char>,
    id: Option<u64>,
    irt: Option<u64>,
    tag: Seq<char>,
    fields: Seq<char>,
) -> Seq<char> {
    "{\"src\":"@ + print_qstr(src) + ",\"dest\":"@ + print_qstr(dest) + ",\"body\":{\"type\":"@
        + print_qstr(tag) + print_opt(id, ",\"msg_id\":"@) + print_opt(irt, ",\"in_reply_to\":"@)
        + fields + "}}"@
}

/// The wire form of an initialization message.
pub open spec fn spec_encode_init(m: MsgModel<InitModel>) -> Seq<char> {
    print_envelope(
        m.src,
        m.dest,
        m.body.id,
        m.body.in_reply_to,
        init_tag(m.body.payload),
        init_fields(m.body.payload),
    )
}

/// The wire form of a behavior message.
pub open spec fn spec_encode_msg(m: MsgModel<PayloadModel>) -> Seq<char> {
    print_envelope(
        m.src,
        m.dest,
        m.body.id,
        m.body.in_reply_to,
        payload_tag(m.body.payload),
        payload_fields(m.body.payload),
    )
}

/// Scan the envelope head: source, destination and tag, with the position
/// just after the tag's closing quote.
pub open spec fn scan_head(s: Seq<char>) -> Result<
    ((Seq<char>, Seq<char>, Seq<char>), int),
    DecodeError,
> {
    if lit_at(s, 0, "{\"src\":"@) {
        match spec_parse_qstr(s, ("{\"src\":"@).len() as int) {
            Ok((src, i1)) => {
                if lit_at(s, i1, ",\"dest\":"@) {
                    match spec_parse_qstr(s, i1 + (",\"dest\":"@).len()) {
                        Ok((dest, i2)) => {
                            if lit_at(s, i2, ",\"body\":{\"type\":"@) {
                                match spec_parse_qstr(s, i2 + (",\"body\":{\"type\":"@).len()) {
                                    Ok((tag, i3)) => Ok(((src, dest, tag), i3)),
                                    Err(e) => Err(e),
                                }
                            } else {
                                Err(DecodeError::Malformed)
                            }
                        },
                        Err(e) => Err(e),
                    }
                } else {
                    Err(DecodeError::Malformed)
                }
            },
            Err(e) => Err(e),
        }
    } else {
        Err(DecodeError::Malformed)
    }
}

/// Scan one optional sequencing field: its value if its key stands at `i`,
/// nothing otherwise.
pub open spec fn scan_opt(s: Seq<char>, i: int, key: Seq<char>) -> Result<
    (Option<u64>, int),
    DecodeError,
> {
    if lit_at(s, i, key) {
        match spec_parse_u64(s, i + key.len()) {
            Ok((v, j)) => Ok((Some(v), j)),
            Err(e) => Err(e),
        }
    } else {
        Ok((None, i))
    }
}

/// Parse the fields of an initialization payload, given its tag.
pub open spec fn parse_init_fields(tag: Seq<char>, s: Seq<char>, i: int) -> Result<
    (InitModel, int),
    DecodeError,
> {
    if tag == "init"@ {
        if lit_at(s, i, ",\"node_id\":"@) {
            match spec_parse_qstr(s, i + (",\"node_id\":"@).len()) {
                Ok((nid, j)) => {
                    if lit_at(s, j, ",\"node_ids\":"@) {
                        match spec_parse_str_arr(s, j + (",\"node_ids\":"@).len()) {
                            Ok((nids, j2)) => Ok(
                                (InitModel::Init { node_id: nid, node_ids: nids }, j2),
                            ),
                            Err(e) => Err(e),
                        }
                    } else {
                        Err(DecodeError::Malformed)
                    }
                },
                Err(e) => Err(e),
            }
        } else {
            Err(DecodeError::Malformed)
        }
    } else if tag == "init_ok"@ {
        Ok((InitModel::InitOk, i))
    } else {
        Err(DecodeError::UnknownTag)
    }
}

/// Parse the fields of a behavior payload, given its tag.
pub open spec fn parse_payload_fields(tag: Seq<char>, s: Seq<char>, i: int) -> Result<
    (PayloadModel, int),
    DecodeError,
> {
    if tag == "echo"@ {
        if lit_at(s, i, ",\"echo\":"@) {
            match spec_parse_qstr(s, i + (",\"echo\":"@).len()) {
                Ok((t, j)) => Ok((PayloadModel::Echo { echo: t }, j)),
                Err(e) => Err(e),
            }
        } else {
            Err(DecodeError::Malformed)
        }
    } else if tag == "echo_ok"@ {
        if lit_at(s, i, ",\"echo\":"@) {
            match spec_parse_qstr(s, i + (",\"echo\":"@).len()) {
                Ok((t, j)) => Ok((PayloadModel::EchoOk { echo: t }, j)),
                Err(e) => Err(e),
            }
        } else {
            Err(DecodeError::Malformed)
        }
    } else if tag == "generate"@ {
        Ok((PayloadModel::Generate, i))
    } else if tag == "generate_ok"@ {
        if lit_at(s, i, ",\"id\":"@) {
            match spec_parse_qstr(s, i + (",\"id\":"@).len()) {
                Ok((t, j)) => Ok((PayloadModel::GenerateOk { id: t }, j)),
                Err(e) => Err(e),
            }
        } else {
            Err(DecodeError::Malformed)
        }
    } else if tag == "broadcast"@ {
        if lit_at(s, i, ",\"message\":"@) {
            match spec_parse_u64(s, i + (",\"message\":"@).len()) {
                Ok((v, j)) => Ok((PayloadModel::Broadcast { message: v }, j)),
                Err(e) => Err(e),
            }
        } else {
            Err(DecodeError::Malformed)
        }
    } else if tag == "broadcast_ok"@ {
        Ok((PayloadModel::BroadcastOk, i))
    } else if tag == "read"@ {
        Ok((PayloadModel::Read, i))
    } else if tag == "read_ok"@ {
        if lit_at(s, i, ",\"messages\":"@) {
            match spec_parse_u64_arr(s, i + (",\"messages\":"@).len()) {
                Ok((xs, j)) => Ok((PayloadModel::ReadOk { messages: xs }, j)),
                Err(e) => Err(e),
            }
        } else {
            Err(DecodeError::Malformed)
        }
    } else if tag == "topology"@ {
        if lit_at(s, i, ",\"topology\":"@) {
            match spec_parse_topo(s, i + (",\"topology\":"@).len()) {
                Ok((ps, j)) => Ok((PayloadModel::Topology { topology: ps }, j)),
                Err(e) => Err(e),
            }
        } else {
            Err(DecodeError::Malformed)
        }
    } else if tag == "topology_ok"@ {
        Ok((PayloadModel::TopologyOk, i))
    } else {
        Err(DecodeError::UnknownTag)
    }
}

/// What decoding a line as an initialization message yields.
pub open spec fn spec_decode_init(s: Seq<char>) -> Result<MsgModel<InitModel>, DecodeError> {
    match scan_head(s) {
        Ok(((src, dest, tag), i)) => match scan_opt(s, i, ",\"msg_id\":"@) {
            Ok((id, i2)) => match scan_opt(s, i2, ",\"in_reply_to\":"@) {
                Ok((irt, i3)) => match parse_init_fields(tag, s, i3) {
                    Ok((p, i4)) => {
                        if lit_at(s, i4, "}}"@) && i4 + ("}}"@).len() == s.len() {
                            Ok(
                                MsgModel {
                                    src,
                                    dest,
                                    body: BodyModel { id, in_reply_to: irt, payload: p },
                                },
                            )
                        } else {
                            Err(DecodeError::Malformed)
                        }
                    },
                    Err(e) => Err(e),
                },
                Err(e) => Err(e),
            },
            Err(e) => Err(e),
        },
        Err(e) => Err(e),
    }
}

/// What decoding a line as a behavior message yields, for a node of kind
/// `kind`: a record whose tag lies outside the kind's slice of the union is
/// rejected.
pub open spec fn spec_decode_msg(kind: NodeKind, s: Seq<char>) -> Result<
    MsgModel<PayloadModel>,
    DecodeError,
> {
    match scan_head(s) {
        Ok(((src, dest, tag), i)) => match scan_opt(s, i, ",\"msg_id\":"@) {
            Ok((id, i2)) => match scan_opt(s, i2, ",\"in_reply_to\":"@) {
                Ok((irt, i3)) => match parse_payload_fields(tag, s, i3) {
                    Ok((p, i4)) => {
                        if !kind_allows(kind, p) {
                            Err(DecodeError::UnknownTag)
                        } else if lit_at(s, i4, "}}"@) && i4 + ("}}"@).len() == s.len() {
                            Ok(
                                MsgModel {
                                    src,
                                    dest,
                                    body: BodyModel { id, in_reply_to: irt, payload: p },
                                },
                            )
                        } else {
                            Err(DecodeError::Malformed)
                        }
                    },
                    Err(e) => Err(e),
                },
                Err(e) => Err(e),
            },
            Err(e) => Err(e),
        },
        Err(e) => Err(e),
    }
}

/// Whether the characters of `tag` are exactly the literal `lit`.
fn tag_is(tag: &Vec<char>, lit: &str) -> (b: bool)
    ensures
        b == (tag@ == lit@),
{
    let n = lit.unicode_len();
    if tag.len() != n {
        proof {
            assert(tag@ != lit@);
        }
        return false;
    }
    let r = match_lit(tag, 0, lit);
    proof {
        if r {
            assert(tag@.subrange(0, lit@.len() as int) =~= tag@);
        } else {
            assert(tag@.subrange(0, lit@.len() as int) =~= tag@);
        }
    }
    r
}

/// Scan the envelope head: source, destination and tag.
fn scan_head_x(s: &Vec<char>) -> (r: Result<((Vec<char>, Vec<char>, Vec<char>), usize), DecodeError>)
    ensures
        match r {
            Ok(((src, dest, tag), i)) => scan_head(s@) matches Ok((t, j)) && t.0 == src@ && t.1
                == dest@ && t.2 == tag@ && j == i as int && i <= s@.len(),
            Err(e) => scan_head(s@) == Err::<((Seq<char>, Seq<char>, Seq<char>), int), DecodeError>(
                e,
            ),
        },
{
    proof {
        crate::wire::lemma_vec_len_fits(s);
    }
    let l1 = "{\"src\":";
    if !match_lit(s, 0, l1) {
        return Err(DecodeError::Malformed);
    }
    let src = match parse_qstr(s, l1.unicode_len()) {
        Ok(p) => p,
        Err(e) => {
            return Err(e);
        },
    };
    let l2 = ",\"dest\":";
    if !match_lit(s, src.1, l2) {
        return Err(DecodeError::Malformed);
    }
    let dest = match parse_qstr(s, src.1 + l2.unicode_len()) {
        Ok(p) => p,
        Err(e) => {
            return Err(e);
        },
    };
    let l3 = ",\"body\":{\"type\":";
    if !match_lit(s, dest.1, l3) {
        return Err(DecodeError::Malformed);
    }
    let tag = match parse_qstr(s, dest.1 + l3.unicode_len()) {
        Ok(p) => p,
        Err(e) => {
            return Err(e);
        },
    };
    Ok(((src.0, dest.0, tag.0), tag.1))
}

/// Scan one optional sequencing field.
fn scan_opt_x(s: &Vec<char>, i: usize, key: &str) -> (r: Result<(Option<u64>, usize), DecodeError>)
    ensures
        match r {
            Ok((o, j)) => scan_opt(s@, i as int, key@) == Ok::<(Option<u64>, int), DecodeError>(
                (o, j as int),
            ) && i <= j <= s@.len() || scan_opt(s@, i as int, key@) == Ok::<
                (Option<u64>, int),
                DecodeError,
            >((o, j as int)) && o is None && j == i,
            Err(e) => scan_opt(s@, i as int, key@) == Err::<(Option<u64>, int), DecodeError>(e),
        },
{
    proof {
        crate::wire::lemma_vec_len_fits(s);
    }
    if match_lit(s, i, key) {
        match parse_u64(s, i + key.unicode_len()) {
            Ok((v, j)) => Ok((Some(v), j)),
            Err(e) => Err(e),
        }
    } else {
        Ok((None, i))
    }
}

/// Parse the fields of an initialization payload, given its tag.
fn parse_init_fields_x(tag: &Vec<char>, s: &Vec<char>, i: usize) -> (r: Result<
    (InitPayload, usize),
    DecodeError,
>)
    ensures
        match r {
            Ok((p, j)) => parse_init_fields(tag@, s@, i as int) == Ok::<
                (InitModel, int),
                DecodeError,
            >((p@, j as int)) && j <= s@.len() || parse_init_fields(tag@, s@, i as int) == Ok::<
                (InitModel, int),
                DecodeError,
            >((p@, j as int)) && j == i,
            Err(e) => parse_init_fields(tag@, s@, i as int) == Err::<(InitModel, int), DecodeError>(
                e,
            ),
        },
{
    proof {
        crate::wire::lemma_vec_len_fits(s);
    }
    if tag_is(tag, "init") {
        let k1 = ",\"node_id\":";
        if !match_lit(s, i, k1) {
            return Err(DecodeError::Malformed);
        }
        let nid = match parse_qstr(s, i + k1.unicode_len()) {
            Ok(p) => p,
            Err(e) => {
                return Err(e);
            },
        };
        let k2 = ",\"node_ids\":";
        if !match_lit(s, nid.1, k2) {
            return Err(DecodeError::Malformed);
        }
        match parse_str_arr(s, nid.1 + k2.unicode_len()) {
            Ok((nids, j2)) => Ok(
                (InitPayload::Init { node_id: chars_to_string(&nid.0), node_ids: nids }, j2),
            ),
            Err(e) => Err(e),
        }
    } else if tag_is(tag, "init_ok") {
        Ok((InitPayload::InitOk, i))
    } else {
        Err(DecodeError::UnknownTag)
    }
}

/// Parse the fields of a behavior payload, given its tag.
fn parse_payload_fields_x(tag: &Vec<char>, s: &Vec<char>, i: usize) -> (r: Result<
    (Payload, usize),
    DecodeError,
>)
    ensures
        match r {
            Ok((p, j)) => parse_payload_fields(tag@, s@, i as int) == Ok::<
                (PayloadModel, int),
                DecodeError,
            >((p@, j as int)) && (j <= s@.len() || j == i),
            Err(e) => parse_payload_fields(tag@, s@, i as int) == Err::<
                (PayloadModel, int),
                DecodeError,
            >(e),
        },
{
    proof {
        crate::wire::lemma_vec_len_fits(s);
    }
    if tag_is(tag, "echo") {
        let k = ",\"echo\":";
        if !match_lit(s, i, k) {
            return Err(DecodeError::Malformed);
        }
        match parse_qstr(s, i + k.unicode_len()) {
            Ok((t, j)) => Ok((Payload::Echo { echo: chars_to_string(&t) }, j)),
            Err(e) => Err(e),
        }
    } else if tag_is(tag, "echo_ok") {
        let k = ",\"echo\":";
        if !match_lit(s, i, k) {
            return Err(DecodeError::Malformed);
        }
        match parse_qstr(s, i + k.unicode_len()) {
            Ok((t, j)) => Ok((Payload::EchoOk { echo: chars_to_string(&t) }, j)),
            Err(e) => Err(e),
        }
    } else if tag_is(tag, "generate") {
        Ok((Payload::Generate, i))
    } else if tag_is(tag, "generate_ok") {
        let k = ",\"id\":";
        if !match_lit(s, i, k) {
            return Err(DecodeError::Malformed);
        }
        match parse_qstr(s, i + k.unicode_len()) {
            Ok((t, j)) => Ok((Payload::GenerateOk { id: chars_to_string(&t) }, j)),
            Err(e) => Err(e),
        }
    } else if tag_is(tag, "broadcast") {
        let k = ",\"message\":";
        if !match_lit(s, i, k) {
            return Err(DecodeError::Malformed);
        }
        match parse_u64(s, i + k.unicode_len()) {
            Ok((v, j)) => Ok((Payload::Broadcast { message: v }, j)),
            Err(e) => Err(e),
        }
    } else if tag_is(tag, "broadcast_ok") {
        Ok((Payload::BroadcastOk, i))
    } else if tag_is(tag, "read") {
        Ok((Payload::Read, i))
    } else if tag_is(tag, "read_ok") {
        let k = ",\"messages\":";
        if !match_lit(s, i, k) {
            return Err(DecodeError::Malformed);
        }
        match parse_u64_arr(s, i + k.unicode_len()) {
            Ok((xs, j)) => Ok((Payload::ReadOk { messages: xs }, j)),
            Err(e) => Err(e),
        }
    } else if tag_is(tag, "topology") {
        let k = ",\"topology\":";
        if !match_lit(s, i, k) {
            return Err(DecodeError::Malformed);
        }
        match parse_topo(s, i + k.unicode_len()) {
            Ok((ps, j)) => Ok((Payload::Topology { topology: ps }, j)),
            Err(e) => Err(e),
        }
    } else if tag_is(tag, "topology_ok") {
        Ok((Payload::TopologyOk, i))
    } else {
        Err(DecodeError::UnknownTag)
    }
}

/// Decode one line as an initialization message. The decoder accepts the
/// canonical single-line form that `encode_init` emits; a record in any other
/// shape is rejected as malformed.
pub fn decode_init(line: &str) -> (r: Result<Message<InitPayload>, DecodeError>)
    ensures
        match r {
            Ok(m) => spec_decode_init(line@) == Ok::<MsgModel<InitModel>, DecodeError>(m@),
            Err(e) => spec_decode_init(line@) == Err::<MsgModel<InitModel>, DecodeError>(e),
        },
{
    let s = to_chars(line);
    let head = match scan_head_x(&s) {
        Ok(h) => h,
        Err(e) => {
            return Err(e);
        },
    };
    let (src, dest, tag) = head.0;
    let id = match scan_opt_x(&s, head.1, ",\"msg_id\":") {
        Ok(o) => o,
        Err(e) => {
            return Err(e);
        },
    };
    let irt = match scan_opt_x(&s, id.1, ",\"in_reply_to\":") {
        Ok(o) => o,
        Err(e) => {
            return Err(e);
        },
    };
    let pf = match parse_init_fields_x(&tag, &s, irt.1) {
        Ok(p) => p,
        Err(e) => {
            return Err(e);
        },
    };
    proof {
        reveal_strlit("}}");
    }
    if match_lit(&s, pf.1, "}}") && s.len() - pf.1 == 2 {
        Ok(
            Message {
                src: chars_to_string(&src),
                dest: chars_to_string(&dest),
                body: Body { id: id.0, in_reply_to: irt.0, payload: pf.0 },
            },
        )
    } else {
        proof {
            reveal_strlit("}}");
        }
        Err(DecodeError::Malformed)
    }
}

/// Decode one line as a behavior message for a node of kind `kind`. The
/// decoder accepts the canonical single-line form that `encode_msg` emits; a
/// record in any other shape is rejected as malformed, and a record whose tag
/// lies outside the kind's slice of the union is rejected as unknown.
pub fn decode_msg(kind: NodeKind, line: &str) -> (r: Result<Message<Payload>, DecodeError>)
    ensures
        match r {
            Ok(m) => spec_decode_msg(kind, line@) == Ok::<MsgModel<PayloadModel>, DecodeError>(m@),
            Err(e) => spec_decode_msg(kind, line@) == Err::<MsgModel<PayloadModel>, DecodeError>(e),
        },
{
    let s = to_chars(line);
    let head = match scan_head_x(&s) {
        Ok(h) => h,
        Err(e) => {
            return Err(e);
        },
    };
    let (src, dest, tag) = head.0;
    let id = match scan_opt_x(&s, head.1, ",\"msg_id\":") {
        Ok(o) => o,
        Err(e) => {
            return Err(e);
        },
    };
    let irt = match scan_opt_x(&s, id.1, ",\"in_reply_to\":") {
        Ok(o) => o,
        Err(e) => {
            return Err(e);
        },
    };
    let pf = match parse_payload_fields_x(&tag, &s, irt.1) {
        Ok(p) => p,
        Err(e) => {
            return Err(e);
        },
    };
    if !exec_kind_allows(kind, &pf.0) {
        return Err(DecodeError::UnknownTag);
    }
    proof {
        reveal_strlit("}}");
    }
    if match_lit(&s, pf.1, "}}") && s.len() - pf.1 == 2 {
        Ok(
            Message {
                src: chars_to_string(&src),
                dest: chars_to_string(&dest),
                body: Body { id: id.0, in_reply_to: irt.0, payload: pf.0 },
            },
        )
    } else {
        proof {
            reveal_strlit("}}");
        }
        Err(DecodeError::Malformed)
    }
}

/// Encode an initialization message as one line.
pub fn encode_init(m: &Message<InitPayload>) -> (r: String)
    ensures
        r@ == spec_encode_init(m@),
{
    let mut out: Vec<char> = Vec::new();
    push_lit(&mut out, "{\"src\":");
    push_qstr(&mut out, m.src.as_str());
    push_lit(&mut out, ",\"dest\":");
    push_qstr(&mut out, m.dest.as_str());
    push_lit(&mut out, ",\"body\":{\"type\":");
    match &m.body.payload {
        InitPayload::Init { .. } => push_qstr(&mut out, "init"),
        InitPayload::InitOk => push_qstr(&mut out, "init_ok"),
    }
    if let Some(n) = m.body.id {
        push_lit(&mut out, ",\"msg_id\":");
        push_u64(&mut out, n);
    }
    if let Some(n) = m.body.in_reply_to {
        push_lit(&mut out, ",\"in_reply_to\":");
        push_u64(&mut out, n);
    }
    match &m.body.payload {
        InitPayload::Init { node_id, node_ids } => {
            push_lit(&mut out, ",\"node_id\":");
            push_qstr(&mut out, node_id.as_str());
            push_lit(&mut out, ",\"node_ids\":");
            push_str_arr(&mut out, node_ids);
        },
        InitPayload::InitOk => {},
    }
    push_lit(&mut out, "}}");
    proof {
        assert(out@ =~= spec_encode_init(m@));
    }
    chars_to_string(&out)
}

/// Encode a behavior message as one line.
#[verifier::rlimit(60)]
pub fn encode_msg(m: &Message<Payload>) -> (r: String)
    ensures
        r@ == spec_encode_msg(m@),
{
    let mut out: Vec<char> = Vec::new();
    push_lit(&mut out, "{\"src\":");
    push_qstr(&mut out, m.src.as_str());
    push_lit(&mut out, ",\"dest\":");
    push_qstr(&mut out, m.dest.as_str());
    push_lit(&mut out, ",\"body\":{\"type\":");
    match &m.body.payload {
        Payload::Echo { .. } => push_qstr(&mut out, "echo"),
        Payload::EchoOk { .. } => push_qstr(&mut out, "echo_ok"),
        Payload::Generate => push_qstr(&mut out, "generate"),
        Payload::GenerateOk { .. } => push_qstr(&mut out, "generate_ok"),
        Payload::Broadcast { .. } => push_qstr(&mut out, "broadcast"),
        Payload::BroadcastOk => push_qstr(&mut out, "broadcast_ok"),
        Payload::Read => push_qstr(&mut out, "read"),
        Payload::ReadOk { .. } => push_qstr(&mut out, "read_ok"),
        Payload::Topology { .. } => push_qstr(&mut out, "topology"),
        Payload::TopologyOk => push_qstr(&mut out, "topology_ok"),
    }
    if let Some(n) = m.body.id {
        push_lit(&mut out, ",\"msg_id\":");
        push_u64(&mut out, n);
    }
    if let Some(n) = m.body.in_reply_to {
        push_lit(&mut out, ",\"in_reply_to\":");
        push_u64(&mut out, n);
    }
    match &m.body.payload {
        Payload::Echo { echo } => {
            push_lit(&mut out, ",\"echo\":");
            push_qstr(&mut out, echo.as_str());
        },
        Payload::EchoOk { echo } => {
            push_lit(&mut out, ",\"echo\":");
            push_qstr(&mut out, echo.as_str());
        },
        Payload::Generate => {},
        Payload::GenerateOk { id } => {
            push_lit(&mut out, ",\"id\":");
            push_qstr(&mut out, id.as_str());
        },
        Payload::Broadcast { message } => {
            push_lit(&mut out, ",\"message\":");
            push_u64(&mut out, *message);
        },
        Payload::BroadcastOk => {},
        Payload::Read => {},
        Payload::ReadOk { messages } => {
            push_lit(&mut out, ",\"messages\":");
            push_u64_arr(&mut out, messages);
        },
        Payload::Topology { topology } => {
            push_lit(&mut out, ",\"topology\":");
            push_topo(&mut out, topology);
        },
        Payload::TopologyOk => {},
    }
    push_lit(&mut out, "}}");
    proof {
        assert(out@ =~= spec_encode_msg(m@));
    }
    chars_to_string(&out)
}

/// `a` is a prefix of `b`.
pub open spec fn is_prefix(a: Seq<char>, b: Seq<char>) -> bool {
    a.len() <= b.len() && b.subrange(0, a.len() as int) == a
}

/// A differing character refutes a prefix.
proof fn lemma_not_prefix_at(a: Seq<char>, b: Seq<char>, k: int)
    requires
        0 <= k < a.len(),
        k < b.len(),
        a[k] != b[k],
    ensures
        !is_prefix(a, b),
{
    if is_prefix(a, b) {
        assert(b.subrange(0, a.len() as int)[k] == b[k]);
    }
}

/// Scanning one optional field over its printed form yields the value and the
/// position after it.
proof fn lemma_scan_opt_round(s: Seq<char>, i: int, key: Seq<char>, v: Option<u64>, follow: Seq<char>)
    requires
        lit_at(s, i, print_opt(v, key) + follow),
        i + (print_opt(v, key) + follow).len() == s.len(),
        follow.len() > 0,
        !crate::num::is_digit(follow[0]),
        key.len() > 2,
        v is None ==> !is_prefix(key, follow),
    ensures
        scan_opt(s, i, key) == Ok::<(Option<u64>, int), DecodeError>(
            (v, i + print_opt(v, key).len()),
        ),
{
    match v {
        Some(n) => {
            assert(print_opt(v, key) + follow =~= key + (dec_digits(n) + follow));
            crate::wire::lemma_lit_at_concat(s, i, key, dec_digits(n) + follow);
            crate::wire::lemma_lit_at_concat(s, i + key.len(), dec_digits(n), follow);
            crate::wire::lemma_lit_at_index(s, i + key.len() + dec_digits(n).len(), follow, 0);
            crate::num::lemma_parse_u64_round(s, i + key.len(), n);
        },
        None => {
            assert(print_opt(v, key) + follow =~= follow);
            assert(lit_at(s, i, follow));
            if lit_at(s, i, key) {
                assert(i + follow.len() == s.len());
                assert(key.len() <= follow.len() || i + key.len() > s.len());
                if key.len() <= follow.len() {
                    assert(follow.subrange(0, key.len() as int) =~= key) by {
                        assert forall|k: int|
                            0 <= k < key.len() implies follow.subrange(0, key.len() as int)[k]
                            == key[k] by {
                            assert(s.subrange(i, i + follow.len())[k] == follow[k]);
                            assert(s.subrange(i, i + key.len())[k] == key[k]);
                        }
                    }
                    assert(is_prefix(key, follow));
                }
            }
            assert(!lit_at(s, i, key));
        },
    }
}

/// Scanning the printed envelope yields its head, its optional sequencing
/// fields, and leaves the payload fields followed by the closing braces.
#[verifier::rlimit(100)]
proof fn lemma_scan_envelope(
    s: Seq<char>,
    src: Seq<char>,
    dest: Seq<char>,
    id: Option<u64>,
    irt: Option<u64>,
    tag: Seq<char>,
    fields: Seq<char>,
)
    requires
        s == print_envelope(src, dest, id, irt, tag, fields),
        fields.len() == 0 || (!crate::num::is_digit(fields[0]) && fields.len() >= 3),
        !is_prefix(",\"msg_id\":"@, fields + "}}"@),
        !is_prefix(",\"in_reply_to\":"@, fields + "}}"@),
    ensures
        ({
            let l1 = "{\"src\":"@;
            let l2 = ",\"dest\":"@;
            let l3 = ",\"body\":{\"type\":"@;
            let k1 = ",\"msg_id\":"@;
            let k2 = ",\"in_reply_to\":"@;
            let a6: int = (l1.len() + print_qstr(src).len() + l2.len() + print_qstr(dest).len()
                + l3.len() + print_qstr(tag).len()) as int;
            let a7: int = a6 + print_opt(id, k1).len();
            let a8: int = a7 + print_opt(irt, k2).len();
            scan_head(s) matches Ok((t, i)) && t.0 == src && t.1 == dest && t.2 == tag && i == a6
                && scan_opt(s, a6, k1) == Ok::<(Option<u64>, int), DecodeError>((id, a7))
                && scan_opt(s, a7, k2) == Ok::<(Option<u64>, int), DecodeError>((irt, a8))
                && lit_at(s, a8, fields + "}}"@) && a8 + fields.len() + 2 == s.len()
        }),
{
    reveal_strlit("{\"src\":");
    reveal_strlit(",\"dest\":");
    reveal_strlit(",\"body\":{\"type\":");
    reveal_strlit(",\"msg_id\":");
    reveal_strlit(",\"in_reply_to\":");
    reveal_strlit("}}");
    let l1 = "{\"src\":"@;
    let l2 = ",\"dest\":"@;
    let l3 = ",\"body\":{\"type\":"@;
    let k1 = ",\"msg_id\":"@;
    let k2 = ",\"in_reply_to\":"@;
    let tl = "}}"@;
    let q1 = print_qstr(src);
    let q2 = print_qstr(dest);
    let q3 = print_qstr(tag);
    let o1 = print_opt(id, k1);
    let o2 = print_opt(irt, k2);
    assert(s =~= l1 + (q1 + (l2 + (q2 + (l3 + (q3 + (o1 + (o2 + (fields + tl)))))))));
    assert(lit_at(s, 0, s)) by {
        assert(s.subrange(0, s.len() as int) =~= s);
    }
    assert(lit_at(s, 0, l1 + (q1 + (l2 + (q2 + (l3 + (q3 + (o1 + (o2 + (fields + tl))))))))));
    crate::wire::lemma_lit_at_concat(s, 0, l1, q1 + (l2 + (q2 + (l3 + (q3 + (o1 + (o2 + (fields
        + tl))))))));
    let a1 = l1.len() as int;
    crate::wire::lemma_lit_at_concat(s, a1, q1, l2 + (q2 + (l3 + (q3 + (o1 + (o2 + (fields
        + tl)))))));
    let a2 = a1 + q1.len();
    crate::wire::lemma_lit_at_concat(s, a2, l2, q2 + (l3 + (q3 + (o1 + (o2 + (fields + tl))))));
    let a3 = a2 + l2.len();
    crate::wire::lemma_lit_at_concat(s, a3, q2, l3 + (q3 + (o1 + (o2 + (fields + tl)))));
    let a4 = a3 + q2.len();
    crate::wire::lemma_lit_at_concat(s, a4, l3, q3 + (o1 + (o2 + (fields + tl))));
    let a5 = a4 + l3.len();
    crate::wire::lemma_lit_at_concat(s, a5, q3, o1 + (o2 + (fields + tl)));
    let a6 = a5 + q3.len();
    crate::arr::lemma_parse_qstr_round(s, a1, src);
    crate::arr::lemma_parse_qstr_round(s, a3, dest);
    crate::arr::lemma_parse_qstr_round(s, a5, tag);
    assert(scan_head(s) matches Ok((t, i)) && t.0 == src && t.1 == dest && t.2 == tag && i == a6);
    let follow1 = o2 + (fields + tl);
    assert(follow1.len() > 0);
    assert(!crate::num::is_digit(follow1[0])) by {
        match irt {
            Some(n2) => {
                assert(follow1[0] == k2[0]);
                assert(k2[0] == ',');
            },
            None => {
                assert(follow1 =~= fields + tl);
                if fields.len() == 0 {
                    assert(follow1[0] == tl[0]);
                } else {
                    assert(follow1[0] == fields[0]);
                }
            },
        }
    }
    if id is None {
        assert(!is_prefix(k1, follow1)) by {
            match irt {
                Some(n2) => {
                    assert(follow1[2] == k2[2]);
                    assert(k2[2] == 'i' && k1[2] == 'm');
                    lemma_not_prefix_at(k1, follow1, 2);
                },
                None => {
                    assert(follow1 =~= fields + tl);
                },
            }
        }
    }
    lemma_scan_opt_round(s, a6, k1, id, follow1);
    let a7 = a6 + o1.len();
    assert(o1 + (o2 + (fields + tl)) =~= o1 + follow1);
    crate::wire::lemma_lit_at_concat(s, a6, o1, follow1);
    let follow2 = fields + tl;
    assert(follow1 =~= o2 + follow2);
    assert(lit_at(s, a7, o2 + follow2));
    assert(follow2.len() > 0);
    assert(!crate::num::is_digit(follow2[0])) by {
        if fields.len() == 0 {
            assert(follow2[0] == tl[0]);
        } else {
            assert(follow2[0] == fields[0]);
        }
    }
    lemma_scan_opt_round(s, a7, k2, irt, follow2);
    let a8 = a7 + o2.len();
    crate::wire::lemma_lit_at_concat(s, a7, o2, follow2);
    assert(lit_at(s, a8, fields + tl));
    assert(a8 + fields.len() + 2 == s.len());
}

/// The fields of an initialization payload start with no digit and with
/// neither sequencing key.
proof fn lemma_init_fields_shape(p: InitModel)
    ensures
        init_fields(p).len() == 0 || (!crate::num::is_digit(init_fields(p)[0]) && init_fields(
            p,
        ).len() >= 3),
        !is_prefix(",\"msg_id\":"@, init_fields(p) + "}}"@),
        !is_prefix(",\"in_reply_to\":"@, init_fields(p) + "}}"@),
{
    reveal_strlit(",\"msg_id\":");
    reveal_strlit(",\"in_reply_to\":");
    reveal_strlit(",\"node_id\":");
    reveal_strlit("}}");
    let k1 = ",\"msg_id\":"@;
    let k2 = ",\"in_reply_to\":"@;
    let tl = "}}"@;
    match p {
        InitModel::Init { node_id, node_ids } => {
            let f = init_fields(p);
            let ka = ",\"node_id\":"@;
            assert(f[0] == ka[0] && f[2] == ka[2]);
            assert((f + tl)[2] == f[2]);
            lemma_not_prefix_at(k1, f + tl, 2);
            lemma_not_prefix_at(k2, f + tl, 2);
        },
        InitModel::InitOk => {
            assert(init_fields(p) + tl =~= tl);
            assert(k1.len() > tl.len() && k2.len() > tl.len());
        },
    }
}

/// The fields of a behavior payload start with no digit and with neither
/// sequencing key.
proof fn lemma_payload_fields_shape(p: PayloadModel)
    ensures
        payload_fields(p).len() == 0 || (!crate::num::is_digit(payload_fields(p)[0])
            && payload_fields(p).len() >= 3),
        !is_prefix(",\"msg_id\":"@, payload_fields(p) + "}}"@),
        !is_prefix(",\"in_reply_to\":"@, payload_fields(p) + "}}"@),
{
    reveal_strlit(",\"msg_id\":");
    reveal_strlit(",\"in_reply_to\":");
    reveal_strlit(",\"echo\":");
    reveal_strlit(",\"id\":");
    reveal_strlit(",\"message\":");
    reveal_strlit(",\"messages\":");
    reveal_strlit(",\"topology\":");
    reveal_strlit("}}");
    let k1 = ",\"msg_id\":"@;
    let k2 = ",\"in_reply_to\":"@;
    let tl = "}}"@;
    let f = payload_fields(p);
    match p {
        PayloadModel::Echo { echo } => {
            assert(f[0] == ',' && f[2] == 'e' && (f + tl)[2] == f[2] && (f + tl)[3] == f[3]);
            lemma_not_prefix_at(k1, f + tl, 2);
            lemma_not_prefix_at(k2, f + tl, 2);
        },
        PayloadModel::EchoOk { echo } => {
            assert(f[0] == ',' && f[2] == 'e' && (f + tl)[2] == f[2]);
            lemma_not_prefix_at(k1, f + tl, 2);
            lemma_not_prefix_at(k2, f + tl, 2);
        },
        PayloadModel::GenerateOk { id } => {
            assert(f[0] == ',' && f[2] == 'i' && f[3] == 'd' && (f + tl)[2] == f[2] && (f + tl)[3]
                == f[3]);
            lemma_not_prefix_at(k1, f + tl, 2);
            lemma_not_prefix_at(k2, f + tl, 3);
        },
        PayloadModel::Broadcast { message } => {
            assert(f[0] == ',' && f[2] == 'm' && f[3] == 'e' && (f + tl)[2] == f[2] && (f + tl)[3]
                == f[3]);
            lemma_not_prefix_at(k1, f + tl, 3);
            lemma_not_prefix_at(k2, f + tl, 2);
        },
        PayloadModel::ReadOk { messages } => {
            assert(f[0] == ',' && f[2] == 'm' && f[3] == 'e' && (f + tl)[2] == f[2] && (f + tl)[3]
                == f[3]);
            lemma_not_prefix_at(k1, f + tl, 3);
            lemma_not_prefix_at(k2, f + tl, 2);
        },
        PayloadModel::Topology { topology } => {
            assert(f[0] == ',' && f[2] == 't' && (f + tl)[2] == f[2]);
            lemma_not_prefix_at(k1, f + tl, 2);
            lemma_not_prefix_at(k2, f + tl, 2);
        },
        _ => {
            assert(f.len() == 0);
            assert(f + tl =~= tl);
            assert(k1.len() > tl.len() && k2.len() > tl.len());
        },
    }
}

/// Parsing printed initialization fields under their tag yields the payload.
proof fn lemma_init_fields_round(s: Seq<char>, i: int, p: InitModel)
    requires
        lit_at(s, i, init_fields(p) + "}}"@),
    ensures
        parse_init_fields(init_tag(p), s, i) == Ok::<(InitModel, int), DecodeError>(
            (p, i + init_fields(p).len()),
        ),
{
    reveal_strlit("init");
    reveal_strlit("init_ok");
    reveal_strlit(",\"node_id\":");
    reveal_strlit(",\"node_ids\":");
    reveal_strlit("}}");
    match p {
        InitModel::Init { node_id, node_ids } => {
            let ka = ",\"node_id\":"@;
            let kb = ",\"node_ids\":"@;
            let qa = print_qstr(node_id);
            let ar = print_str_arr(node_ids);
            assert(init_fields(p) + "}}"@ =~= ka + (qa + (kb + (ar + "}}"@))));
            crate::wire::lemma_lit_at_concat(s, i, ka, qa + (kb + (ar + "}}"@)));
            let b1 = i + ka.len();
            crate::wire::lemma_lit_at_concat(s, b1, qa, kb + (ar + "}}"@));
            let b2 = b1 + qa.len();
            crate::wire::lemma_lit_at_concat(s, b2, kb, ar + "}}"@);
            let b3 = b2 + kb.len();
            crate::wire::lemma_lit_at_concat(s, b3, ar, "}}"@);
            crate::arr::lemma_parse_qstr_round(s, b1, node_id);
            crate::arr::lemma_parse_str_arr_round(s, b3, node_ids);
        },
        InitModel::InitOk => {
            assert(("init"@).len() == 4 && ("init_ok"@).len() == 7);
        },
    }
}

/// Parsing printed behavior fields under their tag yields the payload.
#[verifier::rlimit(100)]
proof fn lemma_payload_fields_round(s: Seq<char>, i: int, p: PayloadModel)
    requires
        lit_at(s, i, payload_fields(p) + "}}"@),
    ensures
        parse_payload_fields(payload_tag(p), s, i) == Ok::<(PayloadModel, int), DecodeError>(
            (p, i + payload_fields(p).len()),
        ),
{
    reveal_strlit("echo");
    reveal_strlit("echo_ok");
    reveal_strlit("generate");
    reveal_strlit("generate_ok");
    reveal_strlit("broadcast");
    reveal_strlit("broadcast_ok");
    reveal_strlit("read");
    reveal_strlit("read_ok");
    reveal_strlit("topology");
    reveal_strlit("topology_ok");
    reveal_strlit(",\"echo\":");
    reveal_strlit(",\"id\":");
    reveal_strlit(",\"message\":");
    reveal_strlit(",\"messages\":");
    reveal_strlit(",\"topology\":");
    reveal_strlit("}}");
    assert(("echo"@).len() == 4 && ("echo_ok"@).len() == 7 && ("generate"@).len() == 8 && (
    "generate_ok"@).len() == 11 && ("broadcast"@).len() == 9 && ("broadcast_ok"@).len() == 12 && (
    "read"@).len() == 4 && ("read_ok"@).len() == 7 && ("topology"@).len() == 8 && (
    "topology_ok"@).len() == 11);
    assert(("echo"@)[0] == 'e' && ("read"@)[0] == 'r');
    assert(("echo_ok"@)[0] == 'e' && ("read_ok"@)[0] == 'r');
    assert(("generate"@)[0] == 'g' && ("topology"@)[0] == 't');
    assert(("generate_ok"@)[0] == 'g' && ("topology_ok"@)[0] == 't');
    let tl = "}}"@;
    match p {
        PayloadModel::Echo { echo } => {
            let k = ",\"echo\":"@;
            let q = print_qstr(echo);
            assert(payload_fields(p) + tl =~= k + (q + tl));
            crate::wire::lemma_lit_at_concat(s, i, k, q + tl);
            crate::wire::lemma_lit_at_concat(s, i + k.len(), q, tl);
            crate::arr::lemma_parse_qstr_round(s, i + k.len(), echo);
        },
        PayloadModel::EchoOk { echo } => {
            let k = ",\"echo\":"@;
            let q = print_qstr(echo);
            assert(payload_fields(p) + tl =~= k + (q + tl));
            crate::wire::lemma_lit_at_concat(s, i, k, q + tl);
            crate::wire::lemma_lit_at_concat(s, i + k.len(), q, tl);
            crate::arr::lemma_parse_qstr_round(s, i + k.len(), echo);
        },
        PayloadModel::Generate => {
        },
        PayloadModel::GenerateOk { id } => {
            let k = ",\"id\":"@;
            let q = print_qstr(id);
            assert(payload_fields(p) + tl =~= k + (q + tl));
            crate::wire::lemma_lit_at_concat(s, i, k, q + tl);
            crate::wire::lemma_lit_at_concat(s, i + k.len(), q, tl);
            crate::arr::lemma_parse_qstr_round(s, i + k.len(), id);
        },
        PayloadModel::Broadcast { message } => {
            let k = ",\"message\":"@;
            let d = dec_digits(message);
            assert(payload_fields(p) + tl =~= k + (d + tl));
            crate::wire::lemma_lit_at_concat(s, i, k, d + tl);
            crate::wire::lemma_lit_at_concat(s, i + k.len(), d, tl);
            crate::wire::lemma_lit_at_index(s, i + k.len() + d.len(), tl, 0);
            assert(!crate::num::is_digit('}'));
            crate::num::lemma_parse_u64_round(s, i + k.len(), message);
        },
        PayloadModel::BroadcastOk => {
        },
        PayloadModel::Read => {
        },
        PayloadModel::ReadOk { messages } => {
            let k = ",\"messages\":"@;
            let a = print_u64_arr(messages);
            assert(payload_fields(p) + tl =~= k + (a + tl));
            crate::wire::lemma_lit_at_concat(s, i, k, a + tl);
            crate::wire::lemma_lit_at_concat(s, i + k.len(), a, tl);
            crate::arr::lemma_parse_u64_arr_round(s, i + k.len(), messages);
        },
        PayloadModel::Topology { topology } => {
            let k = ",\"topology\":"@;
            let t = print_topo(topology);
            assert(payload_fields(p) + tl =~= k + (t + tl));
            crate::wire::lemma_lit_at_concat(s, i, k, t + tl);
            crate::wire::lemma_lit_at_concat(s, i + k.len(), t, tl);
            crate::topo::lemma_parse_topo_round(s, i + k.len(), topology);
        },
        PayloadModel::TopologyOk => {
        },
    }
}

/// Decoding an encoded initialization message yields the message back: the
/// codec round-trips on every constructible envelope of the handshake union.
pub proof fn lemma_round_trip_init(m: MsgModel<InitModel>)
    ensures
        spec_decode_init(spec_encode_init(m)) == Ok::<MsgModel<InitModel>, DecodeError>(m),
{
    let s = spec_encode_init(m);
    let tag = init_tag(m.body.payload);
    let fields = init_fields(m.body.payload);
    lemma_init_fields_shape(m.body.payload);
    lemma_scan_envelope(s, m.src, m.dest, m.body.id, m.body.in_reply_to, tag, fields);
    reveal_strlit("{\"src\":");
    reveal_strlit(",\"dest\":");
    reveal_strlit(",\"body\":{\"type\":");
    reveal_strlit(",\"msg_id\":");
    reveal_strlit(",\"in_reply_to\":");
    reveal_strlit("}}");
    let a6: int = (("{\"src\":"@).len() + print_qstr(m.src).len() + (",\"dest\":"@).len()
        + print_qstr(m.dest).len() + (",\"body\":{\"type\":"@).len() + print_qstr(
        tag,
    ).len()) as int;
    let a8: int = a6 + print_opt(m.body.id, ",\"msg_id\":"@).len() + print_opt(
        m.body.in_reply_to,
        ",\"in_reply_to\":"@,
    ).len();
    crate::wire::lemma_lit_at_concat(s, a8, fields, "}}"@);
    lemma_init_fields_round(s, a8, m.body.payload);
}

/// Decoding an encoded behavior message yields the message back, for any node
/// kind that understands its payload: the codec round-trips on every
/// constructible envelope of the behavior union.
pub proof fn lemma_round_trip_msg(kind: NodeKind, m: MsgModel<PayloadModel>)
    requires
        kind_allows(kind, m.body.payload),
    ensures
        spec_decode_msg(kind, spec_encode_msg(m)) == Ok::<MsgModel<PayloadModel>, DecodeError>(m),
{
    let s = spec_encode_msg(m);
    let tag = payload_tag(m.body.payload);
    let fields = payload_fields(m.body.payload);
    lemma_payload_fields_shape(m.body.payload);
    lemma_scan_envelope(s, m.src, m.dest, m.body.id, m.body.in_reply_to, tag, fields);
    reveal_strlit("{\"src\":");
    reveal_strlit(",\"dest\":");
    reveal_strlit(",\"body\":{\"type\":");
    reveal_strlit(",\"msg_id\":");
    reveal_strlit(",\"in_reply_to\":");
    reveal_strlit("}}");
    let a6: int = (("{\"src\":"@).len() + print_qstr(m.src).len() + (",\"dest\":"@).len()
        + print_qstr(m.dest).len() + (",\"body\":{\"type\":"@).len() + print_qstr(
        tag,
    ).len()) as int;
    let a8: int = a6 + print_opt(m.body.id, ",\"msg_id\":"@).len() + print_opt(
        m.body.in_reply_to,
        ",\"in_reply_to\":"@,
    ).len();
    crate::wire::lemma_lit_at_concat(s, a8, fields, "}}"@);
    lemma_payload_fields_round(s, a8, m.body.payload);
}

} // verus!
