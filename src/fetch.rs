use vstd::prelude::*;

use crate::json::{field_of, get_field, json_decode, parse_json, JsonValue};
use crate::spec::ServerResponse;

verus! {

/// Why a server's player count is not known.
#[derive(Clone, Copy, Debug, PartialEq, Eq, Structural)]
pub enum Unavailable {
    /// The request could not be sent, or got no reply in time.
    Transport,
    /// The reply's status was not a success; the status is kept.
    Status(u16),
    /// The reply's body could not be read.
    Body,
    /// The body is not a JSON object with a `players` count.
    Json,
}

/// What one status query to one server gave. There is no error channel:
/// a failure is an outcome like any other.
#[derive(Clone, Copy, Debug, PartialEq, Eq, Structural)]
pub enum FetchOutcome {
    Players(u32),
    Unavailable(Unavailable),
}

impl FetchOutcome {
    /// The player count, where one came back.
    pub fn players(&self) -> (r: Option<u32>)
        ensures
            r == match *self {
                FetchOutcome::Players(n) => Some(n),
                FetchOutcome::Unavailable(_) => None,
            },
    {
        match *self {
            FetchOutcome::Players(n) => Some(n),
            FetchOutcome::Unavailable(_) => None,
        }
    }
}

/// The count that a decoded status reply gives: a JSON object whose
/// `players` entry is a whole number that fits in a `u32`.
pub open spec fn players_in(v: Option<JsonValue>) -> Option<u32> {
    match v {
        Some(JsonValue::Object(fields)) => match field_of(fields@, "players"@) {
            Some(JsonValue::UInt(n)) => if n <= u32::MAX {
                Some(n as u32)
            } else {
                None
            },
            _ => None,
        },
        _ => None,
    }
}

/// A success status, as HTTP has it: 200 to 299.
pub open spec fn is_success(status: u16) -> bool {
    200 <= status < 300
}

/// The outcome of a query whose reply came back with `status`; `body_read`
/// tells whether its body could be read, and `decoded` is what it decoded to.
pub open spec fn reply_outcome(status: u16, body_read: bool, decoded: Option<JsonValue>) -> FetchOutcome {
    if !is_success(status) {
        FetchOutcome::Unavailable(Unavailable::Status(status))
    } else if !body_read {
        FetchOutcome::Unavailable(Unavailable::Body)
    } else {
        match players_in(decoded) {
            Some(n) => FetchOutcome::Players(n),
            None => FetchOutcome::Unavailable(Unavailable::Json),
        }
    }
}

/// Reads a decoded status reply.
pub fn decode_server_response(v: &Option<JsonValue>) -> (r: Option<ServerResponse>)
    ensures
        match r {
            Some(resp) => players_in(*v) == Some(resp.players),
            None => players_in(*v) is None,
        },
{
    match v {
        Some(JsonValue::Object(fields)) => match get_field(fields, "players") {
            Some(JsonValue::UInt(n)) => if *n <= u32::MAX as u64 {
                Some(ServerResponse { players: *n as u32 })
            } else {
                None
            },
            _ => None,
        },
        _ => None,
    }
}

/// Decides what a server's reply means, from its status and, where it
/// could be read, its body; the body is decoded only after a success status.
pub fn classify_reply(status: u16, body: Option<&str>) -> (r: FetchOutcome)
    ensures
        match body {
            Some(b) => r == reply_outcome(status, true, json_decode(b@)),
            None => r == reply_outcome(status, false, None),
        },
{
    if status < 200 || status >= 300 {
        return FetchOutcome::Unavailable(Unavailable::Status(status));
    }
    match body {
        None => FetchOutcome::Unavailable(Unavailable::Body),
        Some(b) => {
            let decoded = parse_json(b);
            match decode_server_response(&decoded) {
                Some(resp) => FetchOutcome::Players(resp.players),
                None => FetchOutcome::Unavailable(Unavailable::Json),
            }
        },
    }
}

} // verus!
