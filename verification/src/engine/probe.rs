//! The outcome of a TCP connection attempt, on which the checks of the
//! network and transport layers are built.
//!
//! It tells "the packets do not leave" from "the server refused", and needs
//! no rights at all.

use vstd::prelude::*;
use vstd::string::StringExecFns;
use crate::text::{dec, decimal};
use crate::time::Duration;

verus! {

/// The kinds of socket errors that are told apart.
#[derive(Debug, Clone, Copy, PartialEq, Eq, Structural)]
pub enum ErrorKind {
    TimedOut,
    WouldBlock,
    ConnectionRefused,
    ConnectionReset,
    ConnectionAborted,
    Other,
}

/// How an attempt to connect ended.
#[derive(Debug, Clone, PartialEq, Eq)]
pub enum TcpOutcome {
    /// The connection was made.
    Open { rtt: Duration },
    /// An explicit refusal: the node is there, but the port is closed.
    Refused { rtt: Duration },
    /// No answer at all, most often a sign of filtering on the way.
    Timeout,
    /// A local error: no route, or the network is down.
    Unreachable { error: String },
}

#[verifier::ext_equal]
pub enum TcpView {
    Open { rtt: Duration },
    Refused { rtt: Duration },
    Timeout,
    Unreachable { error: Seq<char> },
}

impl View for TcpOutcome {
    type V = TcpView;

    open spec fn view(&self) -> TcpView {
        match self {
            TcpOutcome::Open { rtt } => TcpView::Open { rtt: *rtt },
            TcpOutcome::Refused { rtt } => TcpView::Refused { rtt: *rtt },
            TcpOutcome::Timeout => TcpView::Timeout,
            TcpOutcome::Unreachable { error } => TcpView::Unreachable { error: error@ },
        }
    }
}

impl TcpView {
    pub open spec fn description(self) -> Seq<char> {
        match self {
            TcpView::Open { rtt } => "соединение установлено за "@ + dec(rtt.millis())
                + " мс"@,
            TcpView::Refused { rtt } => "узел ответил отказом за "@ + dec(rtt.millis())
                + " мс"@,
            TcpView::Timeout => "ответа нет, тайм-аут"@,
            TcpView::Unreachable { error } => "сеть недоступна: "@ + error,
        }
    }
}

impl TcpOutcome {
    pub fn is_open(&self) -> (r: bool)
        ensures
            r == (self@ is Open),
    {
        match self {
            TcpOutcome::Open { .. } => true,
            _ => false,
        }
    }

    /// A short explanation for a line of evidence.
    pub fn describe(&self) -> (r: String)
        ensures
            r@ == self@.description(),
    {
        match self {
            TcpOutcome::Open { rtt } => String::from_str("соединение установлено за ").concat(
                decimal(ms(*rtt)).as_str(),
            ).concat(" мс"),
            TcpOutcome::Refused { rtt } => String::from_str("узел ответил отказом за ").concat(
                decimal(ms(*rtt)).as_str(),
            ).concat(" мс"),
            TcpOutcome::Timeout => String::from_str("ответа нет, тайм-аут"),
            TcpOutcome::Unreachable { error } => String::from_str("сеть недоступна: ").concat(
                error.as_str(),
            ),
        }
    }
}

/// Whole milliseconds of a duration.
pub fn ms(d: Duration) -> (r: u128)
    ensures
        r == d.millis(),
{
    d.as_millis()
}

/// What a finished connection attempt means.
///
/// Telling refusal from silence matters: a reset says that packets get
/// through and someone answers, silence that they were swallowed.
pub fn tcp_connect(failure: Option<(ErrorKind, String)>, elapsed: Duration) -> (r: TcpOutcome)
    ensures
        r@ == (match failure {
            None => TcpView::Open { rtt: elapsed },
            Some((kind, error)) => if kind == ErrorKind::TimedOut {
                TcpView::Timeout
            } else if kind == ErrorKind::ConnectionRefused || kind == ErrorKind::ConnectionReset {
                TcpView::Refused { rtt: elapsed }
            } else {
                TcpView::Unreachable { error: error@ }
            },
        }),
{
    match failure {
        None => TcpOutcome::Open { rtt: elapsed },
        Some((kind, error)) => {
            if kind == ErrorKind::TimedOut {
                TcpOutcome::Timeout
            } else if kind == ErrorKind::ConnectionRefused || kind == ErrorKind::ConnectionReset {
                TcpOutcome::Refused { rtt: elapsed }
            } else {
                TcpOutcome::Unreachable { error }
            }
        },
    }
}

/// How a connection is told: made or refused, with its delay; no answer; or an
/// error of the network, with its reason.
pub proof fn a_connection_is_told(t: TcpView)
    ensures
        t matches TcpView::Open { rtt } ==> t.description() == "соединение установлено за "@ + dec(
            rtt.nanos as nat / 1_000_000,
        ) + " мс"@,
        t matches TcpView::Refused { rtt } ==> t.description() == "узел ответил отказом за "@ + dec(
            rtt.nanos as nat / 1_000_000,
        ) + " мс"@,
        t is Timeout ==> t.description() == "ответа нет, тайм-аут"@,
        t matches TcpView::Unreachable { error } ==> t.description() == "сеть недоступна: "@ + error,
{
}

} // verus!
