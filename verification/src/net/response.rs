//! Responses of the apply thread, and the frames that carry them.

use crate::buffer::{bytes_from_static, bytes_of};
use crate::json::{entries_of, insert, into_members, into_object, json_of, json_text, literal, no_entries,
    no_members, number, object, object1, object2, one, put, string, truth, two, Json};
use crate::wire::{json_frame, Frame, FrameView, CT_JSON, OP_ERROR_RESPONSE, OP_GET_RESPONSE, OP_PING, OP_PUSH};
use crate::VERSION;
use bytes::Bytes;
use serde_json::Value;
use vstd::prelude::*;
use vstd::utf8::encode_utf8;

verus! {

/// What the apply thread answers to a request.
#[allow(inconsistent_fields)]
pub enum GlueResponse {
    /// Answer to a ping.
    Pong { registry_version: u64 },
    /// A push was applied.
    PushAck { ack_lsn: u64, registry_version: u64 },
    /// A push was seen before and was not applied again.
    PushReplay { registry_version: u64, ack_lsn: Option<u64>, cached_body: Bytes },
    /// Answer to a registration, ready to be sent with opcode `tcp_op`.
    Register { body: Bytes, tcp_op: u16, http_status: u16 },
    /// A push failed.
    PushError { code: String, registry_version: u64 },
    /// Answer to a read, in the format that `format` says.
    QueryResult { body: Bytes, format: u8 },
    /// A read named something that does not exist.
    QueryNotFound { code: String },
    /// All state was cleared.
    ResetOk { registry_version: u64 },
    /// The server is not in test mode.
    ResetForbidden,
    /// A request failed. The members of `extras`, where it is an object, are
    /// given beside code and message.
    TcpError { code: String, message: String, extras: Value },
    /// The request cannot be served in this form.
    UnsupportedRequestShape { hint: String },
    /// The server is alive.
    HealthOk,
    /// The server failed.
    InternalError { reason: String },
    /// The server is ready; over HTTP only.
    ReadyOk,
    /// A dump of the registry; over HTTP only.
    RegistrySnapshot { body: Bytes },
    /// No route has this path; over HTTP only.
    HttpRouteNotFound { path: String },
}

/// The members of an error object. Those of `extras` win over the code and the
/// message where they have the same name; anything but an object adds none.
pub open spec fn error_members(code: Seq<char>, message: Seq<char>, extras: Json) -> Map<
    Seq<char>,
    Json,
> {
    let members = no_entries().insert("code"@, Json::Text(code)).insert(
        "message"@,
        Json::Text(message),
    );
    match extras {
        Json::Object(extra) => members.union_prefer_right(extra),
        _ => members,
    }
}

impl GlueResponse {
    /// The frame that carries the response over TCP.
    pub open spec fn frame(self) -> FrameView {
        match self {
            GlueResponse::Pong { registry_version } => json_frame(
                OP_PING,
                object2(
                    "server_version"@,
                    Json::Text(VERSION@),
                    "registry_version"@,
                    Json::Unsigned(registry_version),
                ),
            ),
            GlueResponse::PushAck { ack_lsn, registry_version } => json_frame(
                OP_PUSH,
                Json::Object(
                    no_entries().insert("ack_lsn"@, Json::Unsigned(ack_lsn)).insert(
                        "idempotent_replay"@,
                        Json::Bool(false),
                    ).insert("registry_version"@, Json::Unsigned(registry_version)),
                ),
            ),
            GlueResponse::PushReplay { registry_version, ack_lsn, .. } => json_frame(
                OP_PUSH,
                Json::Object(
                    (match ack_lsn {
                        Some(lsn) => no_entries().insert("ack_lsn"@, Json::Unsigned(lsn)),
                        None => no_entries(),
                    }).insert("idempotent_replay"@, Json::Bool(true)).insert(
                        "registry_version"@,
                        Json::Unsigned(registry_version),
                    ),
                ),
            ),
            GlueResponse::Register { body, tcp_op, .. } => FrameView {
                op: tcp_op,
                content_type: CT_JSON,
                payload: bytes_of(body),
            },
            GlueResponse::PushError { code, registry_version } => json_frame(
                OP_ERROR_RESPONSE,
                object2(
                    "error"@,
                    object1("code"@, Json::Text(code@)),
                    "registry_version"@,
                    Json::Unsigned(registry_version),
                ),
            ),
            GlueResponse::QueryResult { body, format } => FrameView {
                op: OP_GET_RESPONSE,
                content_type: format,
                payload: bytes_of(body),
            },
            GlueResponse::QueryNotFound { code } => json_frame(
                OP_ERROR_RESPONSE,
                object1("error"@, object1("code"@, Json::Text(code@))),
            ),
            GlueResponse::ResetOk { registry_version } => json_frame(
                OP_GET_RESPONSE,
                object2(
                    "reset"@,
                    Json::Bool(true),
                    "registry_version"@,
                    Json::Unsigned(registry_version),
                ),
            ),
            GlueResponse::ResetForbidden => json_frame(
                OP_ERROR_RESPONSE,
                object1(
                    "error"@,
                    object2(
                        "code"@,
                        Json::Text("reset_disabled_in_production"@),
                        "reason"@,
                        Json::Text("server is not in test mode"@),
                    ),
                ),
            ),
            GlueResponse::TcpError { code, message, extras } => json_frame(
                OP_ERROR_RESPONSE,
                object1("error"@, Json::Object(error_members(code@, message@, json_of(extras)))),
            ),
            GlueResponse::UnsupportedRequestShape { hint } => json_frame(
                OP_ERROR_RESPONSE,
                object1(
                    "error"@,
                    object2(
                        "code"@,
                        Json::Text("unsupported_request_shape"@),
                        "message"@,
                        Json::Text(hint@),
                    ),
                ),
            ),
            GlueResponse::HealthOk => FrameView {
                op: OP_PING,
                content_type: CT_JSON,
                payload: encode_utf8("{\"status\":\"ok\"}"@),
            },
            GlueResponse::InternalError { reason } => json_frame(
                OP_ERROR_RESPONSE,
                object1(
                    "error"@,
                    object2(
                        "code"@,
                        Json::Text("internal_error"@),
                        "reason"@,
                        Json::Text(reason@),
                    ),
                ),
            ),
            GlueResponse::ReadyOk
            | GlueResponse::RegistrySnapshot { .. }
            | GlueResponse::HttpRouteNotFound { .. } => FrameView {
                op: OP_ERROR_RESPONSE,
                content_type: CT_JSON,
                payload: encode_utf8("{\"error\":{\"code\":\"unsupported\"}}"@),
            },
        }
    }
}

/// Makes the object of an error with its extra members.
fn error_object(code: String, message: String, extras: Value) -> (r: Value)
    ensures
        json_of(r) == Json::Object(error_members(code@, message@, json_of(extras))),
{
    let mut members = no_members();
    put(&mut members, "code", string(code));
    put(&mut members, "message", string(message));
    if let Some(extra) = into_object(extras) {
        let ghost own = entries_of(members);
        let ghost added = entries_of(extra);
        let mut rest = into_members(extra);
        let ghost all = rest@;
        while rest.len() > 0
            invariant
                rest@ == all.take(rest@.len() as int),
                rest@.len() <= all.len(),
                forall|i: int|
                    0 <= i < all.len() ==> added.dom().contains((#[trigger] all[i]).0@)
                        && added[all[i].0@] == json_of(all[i].1),
                forall|name: Seq<char>| #[trigger]
                    entries_of(members).dom().contains(name) ==> own.dom().contains(name)
                        || added.dom().contains(name),
                forall|name: Seq<char>| #[trigger]
                    own.dom().contains(name) ==> entries_of(members).dom().contains(name),
                forall|name: Seq<char>| #[trigger]
                    entries_of(members).dom().contains(name) ==> entries_of(members)[name]
                        == own[name] || (added.dom().contains(name) && entries_of(members)[name]
                        == added[name]),
                forall|i: int|
                    rest@.len() <= i < all.len() ==> entries_of(members).dom().contains(
                        (#[trigger] all[i]).0@,
                    ) && entries_of(members)[all[i].0@] == added[all[i].0@],
            decreases rest@.len(),
        {
            let ghost before = rest@;
            if let Some((name, v)) = rest.pop() {
                proof {
                    assert(before.last() == all[before.len() - 1]);
                    assert(rest@ =~= all.take(rest@.len() as int));
                }
                insert(&mut members, name, v);
            }
        }
        proof {
            assert forall|name: Seq<char>| #[trigger] added.dom().contains(name) implies entries_of(
                members,
            ).dom().contains(name) && entries_of(members)[name] == added[name] by {
                let i = choose|i: int| 0 <= i < all.len() && (#[trigger] all[i]).0@ == name;
                assert(all[i].0@ == name);
            }
            assert(entries_of(members) =~= own.union_prefer_right(added));
        }
    }
    object(members)
}

impl vstd::std_specs::convert::FromSpecImpl<GlueResponse> for Frame {
    open spec fn obeys_from_spec() -> bool {
        false
    }

    open spec fn from_spec(resp: GlueResponse) -> Frame {
        choose|frame: Frame| frame@ == resp.frame()
    }
}

impl From<GlueResponse> for Frame {
    fn from(resp: GlueResponse) -> (r: Frame)
        ensures
            r@ == resp.frame(),
    {
        match resp {
            GlueResponse::Pong { registry_version } => Frame::json(
                OP_PING,
                two(
                    "server_version",
                    literal(VERSION),
                    "registry_version",
                    number(registry_version),
                ),
            ),
            GlueResponse::PushAck { ack_lsn, registry_version } => {
                let mut members = no_members();
                put(&mut members, "ack_lsn", number(ack_lsn));
                put(&mut members, "idempotent_replay", truth(false));
                put(&mut members, "registry_version", number(registry_version));
                Frame::json(OP_PUSH, object(members))
            },
            GlueResponse::PushReplay { registry_version, ack_lsn, .. } => {
                let mut members = no_members();
                if let Some(lsn) = ack_lsn {
                    put(&mut members, "ack_lsn", number(lsn));
                }
                put(&mut members, "idempotent_replay", truth(true));
                put(&mut members, "registry_version", number(registry_version));
                Frame::json(OP_PUSH, object(members))
            },
            GlueResponse::Register { body, tcp_op, .. } => Frame::new(tcp_op, CT_JSON, body),
            GlueResponse::PushError { code, registry_version } => Frame::json(
                OP_ERROR_RESPONSE,
                two(
                    "error",
                    one("code", string(code)),
                    "registry_version",
                    number(registry_version),
                ),
            ),
            GlueResponse::QueryResult { body, format } => Frame::new(OP_GET_RESPONSE, format, body),
            GlueResponse::QueryNotFound { code } => Frame::json(
                OP_ERROR_RESPONSE,
                one("error", one("code", string(code))),
            ),
            GlueResponse::ResetOk { registry_version } => Frame::json(
                OP_GET_RESPONSE,
                two("reset", truth(true), "registry_version", number(registry_version)),
            ),
            GlueResponse::ResetForbidden => Frame::json(
                OP_ERROR_RESPONSE,
                one(
                    "error",
                    two(
                        "code",
                        literal("reset_disabled_in_production"),
                        "reason",
                        literal("server is not in test mode"),
                    ),
                ),
            ),
            GlueResponse::TcpError { code, message, extras } => Frame::json(
                OP_ERROR_RESPONSE,
                one("error", error_object(code, message, extras)),
            ),
            GlueResponse::UnsupportedRequestShape { hint } => Frame::json(
                OP_ERROR_RESPONSE,
                one(
                    "error",
                    two("code", literal("unsupported_request_shape"), "message", string(hint)),
                ),
            ),
            GlueResponse::HealthOk => Frame::new(
                OP_PING,
                CT_JSON,
                bytes_from_static("{\"status\":\"ok\"}".as_bytes()),
            ),
            GlueResponse::InternalError { reason } => Frame::json(
                OP_ERROR_RESPONSE,
                one("error", two("code", literal("internal_error"), "reason", string(reason))),
            ),
            GlueResponse::ReadyOk
            | GlueResponse::RegistrySnapshot { .. }
            | GlueResponse::HttpRouteNotFound { .. } => Frame::new(
                OP_ERROR_RESPONSE,
                CT_JSON,
                bytes_from_static("{\"error\":{\"code\":\"unsupported\"}}".as_bytes()),
            ),
        }
    }
}

// ---------------------------------------------------------------------------
// Laws
// ---------------------------------------------------------------------------

/// Whether a frame carries a JSON object with these members and no others.
pub open spec fn carries_object(frame: FrameView, op: u16, members: Map<Seq<char>, Json>) -> bool {
    &&& frame.op == op
    &&& frame.content_type == 1
    &&& json_text(Json::Object(members)) matches Some(text) ==> frame.payload == text
    &&& json_text(Json::Object(members)) is None ==> frame.payload.len() == 0
}

/// The members of an object that has one member, an object with these members.
pub open spec fn an_error(members: Map<Seq<char>, Json>) -> Map<Seq<char>, Json> {
    Map::empty().insert("error"@, Json::Object(members))
}

/// What an answer of the apply thread says ready-made goes out as it is: the
/// body as the payload, the format of a read as its content type, and the
/// opcode of a registration as its opcode.
pub proof fn law_ready_made_answers_go_out_as_they_are(
    body: Bytes,
    format: u8,
    tcp_op: u16,
    http_status: u16,
)
    ensures
        ({
            let frame = (GlueResponse::QueryResult { body, format }).frame();
            frame.op == 0x0023 && frame.content_type == format && frame.payload == bytes_of(body)
        }),
        ({
            let frame = (GlueResponse::Register { body, tcp_op, http_status }).frame();
            frame.op == tcp_op && frame.content_type == 1 && frame.payload == bytes_of(body)
        }),
{
}

/// A push that was applied is answered with its number in the log and the
/// version of the registry, and is no replay. A replay says so, has a number
/// where one is known, and does not send the cached body.
pub proof fn law_pushes_are_answered_with_their_numbers(
    lsn: u64,
    registry_version: u64,
    cached_body: Bytes,
)
    ensures
        carries_object(
            (GlueResponse::PushAck { ack_lsn: lsn, registry_version }).frame(),
            0x0010,
            Map::empty().insert("ack_lsn"@, Json::Unsigned(lsn)).insert(
                "idempotent_replay"@,
                Json::Bool(false),
            ).insert("registry_version"@, Json::Unsigned(registry_version)),
        ),
        carries_object(
            (GlueResponse::PushReplay { registry_version, ack_lsn: Some(lsn), cached_body }).frame(),
            0x0010,
            Map::empty().insert("ack_lsn"@, Json::Unsigned(lsn)).insert(
                "idempotent_replay"@,
                Json::Bool(true),
            ).insert("registry_version"@, Json::Unsigned(registry_version)),
        ),
        carries_object(
            (GlueResponse::PushReplay { registry_version, ack_lsn: None, cached_body }).frame(),
            0x0010,
            Map::empty().insert("idempotent_replay"@, Json::Bool(true)).insert(
                "registry_version"@,
                Json::Unsigned(registry_version),
            ),
        ),
{
}

/// A ping is answered with the version of the server and of the registry, and a
/// reset with the version of the registry.
pub proof fn law_pings_and_resets_are_answered_with_versions(registry_version: u64)
    ensures
        carries_object(
            (GlueResponse::Pong { registry_version }).frame(),
            0x0000,
            Map::empty().insert("server_version"@, Json::Text(VERSION@)).insert(
                "registry_version"@,
                Json::Unsigned(registry_version),
            ),
        ),
        carries_object(
            (GlueResponse::ResetOk { registry_version }).frame(),
            0x0023,
            Map::empty().insert("reset"@, Json::Bool(true)).insert(
                "registry_version"@,
                Json::Unsigned(registry_version),
            ),
        ),
        GlueResponse::HealthOk.frame().op == 0x0000,
        GlueResponse::HealthOk.frame().content_type == 1,
        GlueResponse::HealthOk.frame().payload == encode_utf8("{\"status\":\"ok\"}"@),
{
}

/// What goes wrong is answered with the error opcode and an object that has the
/// code of the error and what was said of it, word for word.
pub proof fn law_errors_are_answered_with_their_code(text: String, registry_version: u64)
    ensures
        carries_object(
            (GlueResponse::PushError { code: text, registry_version }).frame(),
            0xFFFF,
            an_error(Map::empty().insert("code"@, Json::Text(text@))).insert(
                "registry_version"@,
                Json::Unsigned(registry_version),
            ),
        ),
        carries_object(
            (GlueResponse::QueryNotFound { code: text }).frame(),
            0xFFFF,
            an_error(Map::empty().insert("code"@, Json::Text(text@))),
        ),
        carries_object(
            GlueResponse::ResetForbidden.frame(),
            0xFFFF,
            an_error(
                Map::empty().insert("code"@, Json::Text("reset_disabled_in_production"@)).insert(
                    "reason"@,
                    Json::Text("server is not in test mode"@),
                ),
            ),
        ),
        carries_object(
            (GlueResponse::UnsupportedRequestShape { hint: text }).frame(),
            0xFFFF,
            an_error(
                Map::empty().insert("code"@, Json::Text("unsupported_request_shape"@)).insert(
                    "message"@,
                    Json::Text(text@),
                ),
            ),
        ),
        carries_object(
            (GlueResponse::InternalError { reason: text }).frame(),
            0xFFFF,
            an_error(
                Map::empty().insert("code"@, Json::Text("internal_error"@)).insert(
                    "reason"@,
                    Json::Text(text@),
                ),
            ),
        ),
{
}

/// A failed request is answered with its code, its message and each of its
/// extra members. An extra member wins over the code or the message of the same
/// name; extras that are no object add nothing; and nothing else is there.
pub proof fn law_extras_are_kept_and_win(
    code: String,
    message: String,
    extras: Value,
    members: Map<Seq<char>, Json>,
)
    requires
        members == error_members(code@, message@, json_of(extras)),
    ensures
        carries_object(
            (GlueResponse::TcpError { code, message, extras }).frame(),
            0xFFFF,
            an_error(members),
        ),
        json_of(extras) matches Json::Object(extra) ==> {
            &&& forall|name: Seq<char>| #[trigger]
                members.dom().contains(name) <==> extra.dom().contains(name) || name == "code"@
                    || name == "message"@
            &&& forall|name: Seq<char>| #[trigger]
                extra.dom().contains(name) ==> members[name] == extra[name]
            &&& !extra.dom().contains("message"@) ==> members["message"@] == Json::Text(message@)
            &&& !extra.dom().contains("code"@) ==> members["code"@] == Json::Text(code@)
        },
        !(json_of(extras) is Object) ==> members =~= Map::empty().insert(
            "code"@,
            Json::Text(code@),
        ).insert("message"@, Json::Text(message@)),
{
    reveal_strlit("code");
    reveal_strlit("message");
    assert("code"@.len() != "message"@.len());
}

/// What has no place on a TCP connection is answered as unsupported.
pub proof fn law_http_answers_are_unsupported(body: Bytes, path: String)
    ensures
        forall|response: GlueResponse|
            response == GlueResponse::ReadyOk || response == (GlueResponse::RegistrySnapshot {
                body,
            }) || response == (GlueResponse::HttpRouteNotFound { path }) ==> {
                let frame = (#[trigger] response.frame());
                &&& frame.op == 0xFFFF
                &&& frame.content_type == 1
                &&& frame.payload == encode_utf8("{\"error\":{\"code\":\"unsupported\"}}"@)
            },
{
}

} // verus!
