//! Server messages and what the client does with them.
//!
//! Messages arrive as JSON objects whose "type" field names their kind; the
//! decoding of the JSON text into these types happens where the socket is.

use vstd::prelude::*;

use crate::metrics::{same_gauges, same_report_fields, Metrics};
use crate::net::types::Lease;
use crate::text::{parse_u64, parse_u64_spec, push_str};

verus! {

pub struct Welcome {
    pub lifetime_shuffles: u64,
    pub all_time_best: u32,
    /// Only present on first registration — must be persisted by the caller.
    pub code: Option<String>,
}

pub struct Job {
    /// The server sends seed as a JSON string (may exceed 2^53).
    pub seed: String,
    pub count: u64,
}

pub struct Credited {
    pub credit: u64,
    pub lifetime_shuffles: u64,
    pub batch_best: Option<i32>,
    pub my_session_best: Option<i32>,
    pub all_time_best: Option<i32>,
}

pub struct Rejected {
    pub reason: String,
}

pub struct Banned {
    pub reason: String,
}

pub enum ServerMessage {
    Welcome(Welcome),
    Job(Job),
    Credited(Credited),
    Rejected(Rejected),
    ClientOutdated,
    Banned(Banned),
    ContributionsClosed,
    /// The unrecognised "type" value.
    Unknown(String),
}

/// The kind of a server message, from its "type" field.
#[derive(Debug, Clone, Copy, PartialEq, Eq, Structural)]
pub enum MessageKind {
    Welcome,
    Job,
    Credited,
    Rejected,
    ClientOutdated,
    Banned,
    ContributionsClosed,
    Unknown,
}

pub open spec fn kind_of_type(t: Seq<char>) -> MessageKind {
    if t == "welcome"@ {
        MessageKind::Welcome
    } else if t == "job"@ {
        MessageKind::Job
    } else if t == "credited"@ {
        MessageKind::Credited
    } else if t == "rejected"@ {
        MessageKind::Rejected
    } else if t == "client_outdated"@ {
        MessageKind::ClientOutdated
    } else if t == "banned"@ {
        MessageKind::Banned
    } else if t == "contributions_closed"@ {
        MessageKind::ContributionsClosed
    } else {
        MessageKind::Unknown
    }
}

/// The kind of message that a "type" value names (a missing type reads as "").
pub fn message_kind(msg_type: &str) -> (k: MessageKind)
    ensures
        k == kind_of_type(msg_type@),
{
    if crate::config::str_eq(msg_type, "welcome") {
        MessageKind::Welcome
    } else if crate::config::str_eq(msg_type, "job") {
        MessageKind::Job
    } else if crate::config::str_eq(msg_type, "credited") {
        MessageKind::Credited
    } else if crate::config::str_eq(msg_type, "rejected") {
        MessageKind::Rejected
    } else if crate::config::str_eq(msg_type, "client_outdated") {
        MessageKind::ClientOutdated
    } else if crate::config::str_eq(msg_type, "banned") {
        MessageKind::Banned
    } else if crate::config::str_eq(msg_type, "contributions_closed") {
        MessageKind::ContributionsClosed
    } else {
        MessageKind::Unknown
    }
}

/// What the connection does after a server message.
pub enum NetAction {
    /// Nothing more to do.
    Continue,
    /// The server issued a recovery code, to be added to the configuration.
    RecoveryCode(String),
    /// Work on this lease.
    StartLease(Lease),
    /// The server rejected a result, for this reason.
    Rejected(String),
    /// The server says this client is outdated.
    Outdated,
    /// The server banned this client, for this reason: stop.
    Banned(String),
    /// The server closed contributions: stop.
    Closed,
    /// A message of this unrecognised type.
    Unknown(String),
}

/// A server message the client cannot act on.
pub enum ProtocolError {
    /// The job's seed, which is not a valid `u64`.
    InvalidSeed(String),
}

impl ProtocolError {
    pub fn message(&self) -> (s: String)
        ensures
            self matches ProtocolError::InvalidSeed(seed) && s@ == "job seed is not a valid u64: "@ + seed@,
    {
        match self {
            ProtocolError::InvalidSeed(seed) => {
                let mut s = String::from_str("job seed is not a valid u64: ");
                push_str(&mut s, seed.as_str());
                s
            },
        }
    }
}

/// `m1` keeps the report fields, the session counter, the rate, the seed and
/// the gauges of `m0`.
pub open spec fn keeps_session(m0: Metrics, m1: Metrics) -> bool {
    &&& same_report_fields(m0, m1)
    &&& same_gauges(m0, m1)
    &&& m1.session_shuffles == m0.session_shuffles
    &&& m1.compute_rate_bits == m0.compute_rate_bits
    &&& m1.current_seed@ == m0.current_seed@
}

/// The effect of server message `msg` on the metrics (`m0` to `m1`) and the
/// resulting action or error:
/// - welcome: lifetime total and, when positive, the all-time best are
///   taken over; status "waiting for lease"; a recovery code is passed on;
/// - job: the seed must parse as a `u64`; status "computing"; a lease to work on;
/// - credited: lifetime total and, when sent, the all-time best are taken over;
/// - the others change nothing and are passed on.
pub open spec fn server_message_effect(msg: ServerMessage, m0: Metrics, m1: Metrics, r: Result<NetAction, ProtocolError>) -> bool {
    &&& keeps_session(m0, m1)
    &&& match msg {
        ServerMessage::Welcome(w) => {
            &&& m1.lifetime_shuffles == w.lifetime_shuffles
            &&& m1.all_time_best == (if w.all_time_best > 0 { w.all_time_best as i32 } else { m0.all_time_best })
            &&& m1.status@ == "waiting for lease"@
            &&& match w.code {
                Some(code) => r matches Ok(NetAction::RecoveryCode(c)) && c@ == code@,
                None => r matches Ok(NetAction::Continue),
            }
        },
        ServerMessage::Job(job) => match parse_u64_spec(job.seed@) {
            Some(seed) => {
                &&& m1.status@ == "computing"@
                &&& m1.lifetime_shuffles == m0.lifetime_shuffles
                &&& m1.all_time_best == m0.all_time_best
                &&& r matches Ok(NetAction::StartLease(l))
                &&& l.seed_str@ == job.seed@
                &&& l.seed == seed
                &&& l.count == job.count
            },
            None => {
                &&& m1.status@ == m0.status@
                &&& m1.lifetime_shuffles == m0.lifetime_shuffles
                &&& m1.all_time_best == m0.all_time_best
                &&& r matches Err(ProtocolError::InvalidSeed(s))
                &&& s@ == job.seed@
            },
        },
        ServerMessage::Credited(c) => {
            &&& m1.lifetime_shuffles == c.lifetime_shuffles
            &&& m1.all_time_best == (match c.all_time_best {
                Some(b) => b,
                None => m0.all_time_best,
            })
            &&& m1.status@ == m0.status@
            &&& r matches Ok(NetAction::Continue)
        },
        _ => {
            &&& m1.lifetime_shuffles == m0.lifetime_shuffles
            &&& m1.all_time_best == m0.all_time_best
            &&& m1.status@ == m0.status@
            &&& match msg {
                ServerMessage::Rejected(x) => r matches Ok(NetAction::Rejected(reason)) && reason@ == x.reason@,
                ServerMessage::ClientOutdated => r matches Ok(NetAction::Outdated),
                ServerMessage::Banned(b) => r matches Ok(NetAction::Banned(reason)) && reason@ == b.reason@,
                ServerMessage::ContributionsClosed => r matches Ok(NetAction::Closed),
                ServerMessage::Unknown(t) => r matches Ok(NetAction::Unknown(u)) && u@ == t@,
                _ => true,
            }
        },
    }
}

/// Applies a server message to the metrics and says what to do next; see
/// `server_message_effect`.
pub fn apply_server_message(metrics: &mut Metrics, msg: ServerMessage) -> (r: Result<NetAction, ProtocolError>)
    ensures
        server_message_effect(msg, *old(metrics), *final(metrics), r),
{
    match msg {
        ServerMessage::Welcome(w) => {
            metrics.lifetime_shuffles = w.lifetime_shuffles;
            if w.all_time_best > 0 {
                metrics.all_time_best = w.all_time_best as i32;
            }
            metrics.set_status(String::from_str("waiting for lease"));
            match w.code {
                Some(code) => Ok(NetAction::RecoveryCode(code)),
                None => Ok(NetAction::Continue),
            }
        },
        ServerMessage::Job(job) => {
            let seed = match parse_u64(job.seed.as_str()) {
                Some(seed) => seed,
                None => {
                    return Err(ProtocolError::InvalidSeed(job.seed));
                },
            };
            metrics.set_status(String::from_str("computing"));
            Ok(NetAction::StartLease(Lease { seed_str: job.seed, seed, count: job.count }))
        },
        ServerMessage::Credited(c) => {
            metrics.lifetime_shuffles = c.lifetime_shuffles;
            if let Some(best) = c.all_time_best {
                metrics.all_time_best = best;
            }
            Ok(NetAction::Continue)
        },
        ServerMessage::Rejected(x) => Ok(NetAction::Rejected(x.reason)),
        ServerMessage::ClientOutdated => Ok(NetAction::Outdated),
        ServerMessage::Banned(b) => Ok(NetAction::Banned(b.reason)),
        ServerMessage::ContributionsClosed => Ok(NetAction::Closed),
        ServerMessage::Unknown(t) => Ok(NetAction::Unknown(t)),
    }
}

} // verus!
