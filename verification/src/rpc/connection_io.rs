//! How a connection is kept alive and given up. Times are counted in milliseconds.

use vstd::prelude::*;

verus! {

/// How long a peer may stay silent before it sends a ping.
pub const KEEPALIVE_INTERVAL: u64 = 1000;

/// How long it may take to pass a message on.
pub const WRITE_TIMEOUT: u64 = 2000;

/// How long the other peer may stay silent.
pub const RECEIVE_TIMEOUT: u64 = 10000;

/// How many messages that came in may wait to be handled.
pub const INCOMING_BUFFER_SIZE: usize = 256;

/// What a connection is doing.
#[derive(Copy, Clone, Debug, PartialEq, Eq, Structural)]
pub enum Phase {
    /// Waits for a message to come or to go.
    Waiting,
    /// Writes a message, until some time.
    Writing { until: u64 },
    /// Writes a ping, until some time.
    Pinging { until: u64 },
    /// Hands over a message that came in, until some time.
    HandingOver { until: u64 },
    /// Is over.
    Stopped,
}

/// A connection in use.
#[derive(Copy, Clone, Debug, PartialEq, Eq, Structural)]
pub struct ConnectionIo {
    /// When a ping is due.
    pub keepalive_at: u64,
    /// When the other peer is given up.
    pub receive_by: u64,
    pub phase: Phase,
}

/// What is there to be dealt with.
#[derive(Copy, Clone, Debug, PartialEq, Eq, Structural)]
pub enum IoEvent {
    /// There is a message to be sent.
    Outgoing,
    /// Nobody can send messages any more.
    OutgoingClosed,
    /// A ping is due.
    Keepalive,
    /// A message with something to handle came in.
    IncomingEnvelope,
    /// A ping or its answer came in.
    IncomingPing,
    /// Reading failed.
    ReadFailed,
    /// The other peer was silent for too long.
    ReceiveTimeout,
    /// What was to be passed on was.
    Passed,
    /// What was to be passed on could not be.
    PassFailed,
    /// It took too long to pass something on.
    PassTimeout,
}

/// Why a connection is over, where it did not end of itself.
#[derive(Copy, Clone, Debug, PartialEq, Eq, Structural)]
pub enum IoError {
    WriteFailed,
    WriteTimedOut,
    KeepaliveFailed,
    KeepaliveTimedOut,
    ReadFailed,
    HandingOverTimedOut,
    DelayTooLong,
}

/// What is to be done.
#[derive(Copy, Clone, Debug, PartialEq, Eq)]
pub enum IoAction {
    Wait,
    Write,
    Ping,
    HandOver,
    /// The next message is to be read.
    Read,
    Stop(Result<(), IoError>),
}

/// How an error is written.
pub open spec fn io_error_text(error: IoError) -> Seq<char> {
    match error {
        IoError::WriteFailed => "failed to write RPC message"@,
        IoError::WriteTimedOut => "timed out writing message"@,
        IoError::KeepaliveFailed => "failed to send keepalive"@,
        IoError::KeepaliveTimedOut => "timed out sending keepalive"@,
        IoError::ReadFailed => "error reading rpc message from socket"@,
        IoError::HandingOverTimedOut => "timed out processing incoming message"@,
        IoError::DelayTooLong => "delay between messages too long"@,
    }
}

impl IoError {
    /// How the error is written.
    pub fn text(&self) -> (r: &'static str)
        ensures
            r@ == io_error_text(*self),
    {
        match self {
            IoError::WriteFailed => "failed to write RPC message",
            IoError::WriteTimedOut => "timed out writing message",
            IoError::KeepaliveFailed => "failed to send keepalive",
            IoError::KeepaliveTimedOut => "timed out sending keepalive",
            IoError::ReadFailed => "error reading rpc message from socket",
            IoError::HandingOverTimedOut => "timed out processing incoming message",
            IoError::DelayTooLong => "delay between messages too long",
        }
    }
}

/// The time after some time, or the last one there is.
pub open spec fn time_after(now: u64, interval: u64) -> u64 {
    if now + interval > u64::MAX {
        u64::MAX
    } else {
        (now + interval) as u64
    }
}

fn later(now: u64, interval: u64) -> (r: u64)
    ensures
        r == time_after(now, interval),
{
    now.saturating_add(interval)
}

/// What can be read and sent at some time.
#[derive(Copy, Clone, Debug, PartialEq, Eq, Structural)]
pub struct Ready {
    /// `Outgoing` or `OutgoingClosed`, if either holds.
    pub outgoing: Option<IoEvent>,
    /// One of the events that reading leads to, if reading is done.
    pub incoming: Option<IoEvent>,
    /// `Passed` or `PassFailed`, if either holds.
    pub passed: Option<IoEvent>,
}

/// What is dealt with first. Messages to be sent go before pings, pings before messages
/// that came in, and these before the silence of the other peer.
pub open spec fn first_event(io: ConnectionIo, now: u64, ready: Ready) -> Option<IoEvent> {
    match io.phase {
        Phase::Waiting => if ready.outgoing is Some {
            ready.outgoing
        } else if io.keepalive_at <= now {
            Some(IoEvent::Keepalive)
        } else if ready.incoming is Some {
            ready.incoming
        } else if io.receive_by <= now {
            Some(IoEvent::ReceiveTimeout)
        } else {
            None
        },
        Phase::Writing { until } | Phase::Pinging { until } | Phase::HandingOver { until } =>
        if ready.passed is Some {
            ready.passed
        } else if until <= now {
            Some(IoEvent::PassTimeout)
        } else {
            None
        },
        Phase::Stopped => None,
    }
}

/// A connection after something was dealt with, and what is to be done.
pub open spec fn io_step(io: ConnectionIo, now: u64, event: IoEvent) -> (ConnectionIo, IoAction) {
    let stopped = |r: Result<(), IoError>|
        (ConnectionIo { phase: Phase::Stopped, ..io }, IoAction::Stop(r));
    let heard = ConnectionIo { receive_by: time_after(now, RECEIVE_TIMEOUT), ..io };
    let until = time_after(now, WRITE_TIMEOUT);
    let sent = ConnectionIo {
        keepalive_at: time_after(now, KEEPALIVE_INTERVAL),
        phase: Phase::Waiting,
        ..io
    };
    match (io.phase, event) {
        (Phase::Waiting, IoEvent::Outgoing) => (
            ConnectionIo { phase: Phase::Writing { until }, ..io },
            IoAction::Write,
        ),
        (Phase::Waiting, IoEvent::OutgoingClosed) => stopped(Ok(())),
        (Phase::Waiting, IoEvent::Keepalive) => (
            ConnectionIo { phase: Phase::Pinging { until }, ..io },
            IoAction::Ping,
        ),
        (Phase::Waiting, IoEvent::IncomingEnvelope) => (
            ConnectionIo { phase: Phase::HandingOver { until }, ..heard },
            IoAction::HandOver,
        ),
        (Phase::Waiting, IoEvent::IncomingPing) => (heard, IoAction::Read),
        (Phase::Waiting, IoEvent::ReadFailed) => stopped(Err(IoError::ReadFailed)),
        (Phase::Waiting, IoEvent::ReceiveTimeout) => stopped(Err(IoError::DelayTooLong)),
        (Phase::Writing { .. }, IoEvent::Passed) => (sent, IoAction::Wait),
        (Phase::Writing { .. }, IoEvent::PassFailed) => stopped(Err(IoError::WriteFailed)),
        (Phase::Writing { .. }, IoEvent::PassTimeout) => stopped(Err(IoError::WriteTimedOut)),
        (Phase::Pinging { .. }, IoEvent::Passed) => (sent, IoAction::Wait),
        (Phase::Pinging { .. }, IoEvent::PassFailed) => stopped(Err(IoError::KeepaliveFailed)),
        (Phase::Pinging { .. }, IoEvent::PassTimeout) => stopped(Err(IoError::KeepaliveTimedOut)),
        (Phase::HandingOver { .. }, IoEvent::Passed) => (
            ConnectionIo { phase: Phase::Waiting, ..io },
            IoAction::Read,
        ),
        (Phase::HandingOver { .. }, IoEvent::PassFailed) => stopped(Ok(())),
        (Phase::HandingOver { .. }, IoEvent::PassTimeout) => stopped(
            Err(IoError::HandingOverTimedOut),
        ),
        _ => (io, IoAction::Wait),
    }
}

impl ConnectionIo {
    /// A connection that starts at some time.
    pub fn new(now: u64) -> (r: ConnectionIo)
        ensures
            r == (ConnectionIo {
                keepalive_at: time_after(now, KEEPALIVE_INTERVAL),
                receive_by: time_after(now, RECEIVE_TIMEOUT),
                phase: Phase::Waiting,
            }),
    {
        ConnectionIo {
            keepalive_at: later(now, KEEPALIVE_INTERVAL),
            receive_by: later(now, RECEIVE_TIMEOUT),
            phase: Phase::Waiting,
        }
    }

    /// What is dealt with first.
    pub fn select(&self, now: u64, ready: Ready) -> (r: Option<IoEvent>)
        ensures
            r == first_event(*self, now, ready),
    {
        match self.phase {
            Phase::Waiting => {
                if ready.outgoing.is_some() {
                    ready.outgoing
                } else if self.keepalive_at <= now {
                    Some(IoEvent::Keepalive)
                } else if ready.incoming.is_some() {
                    ready.incoming
                } else if self.receive_by <= now {
                    Some(IoEvent::ReceiveTimeout)
                } else {
                    None
                }
            },
            Phase::Writing { until } | Phase::Pinging { until } | Phase::HandingOver { until } => {
                if ready.passed.is_some() {
                    ready.passed
                } else if until <= now {
                    Some(IoEvent::PassTimeout)
                } else {
                    None
                }
            },
            Phase::Stopped => None,
        }
    }

    fn stop(&mut self, result: Result<(), IoError>) -> (r: IoAction)
        ensures
            *final(self) == (ConnectionIo { phase: Phase::Stopped, ..*old(self) }),
            r == IoAction::Stop(result),
    {
        self.phase = Phase::Stopped;
        IoAction::Stop(result)
    }

    fn sent(&mut self, now: u64) -> (r: IoAction)
        ensures
            *final(self) == (ConnectionIo {
                keepalive_at: time_after(now, KEEPALIVE_INTERVAL),
                phase: Phase::Waiting,
                ..*old(self)
            }),
            r == IoAction::Wait,
    {
        self.keepalive_at = later(now, KEEPALIVE_INTERVAL);
        self.phase = Phase::Waiting;
        IoAction::Wait
    }

    /// Deals with something and says what is to be done.
    pub fn step(&mut self, now: u64, event: IoEvent) -> (r: IoAction)
        ensures
            (*final(self), r) == io_step(*old(self), now, event),
    {
        let until: u64 = later(now, WRITE_TIMEOUT);
        match (self.phase, event) {
            (Phase::Waiting, IoEvent::Outgoing) => {
                self.phase = Phase::Writing { until };
                IoAction::Write
            },
            (Phase::Waiting, IoEvent::OutgoingClosed) => self.stop(Ok(())),
            (Phase::Waiting, IoEvent::Keepalive) => {
                self.phase = Phase::Pinging { until };
                IoAction::Ping
            },
            (Phase::Waiting, IoEvent::IncomingEnvelope) => {
                self.receive_by = later(now, RECEIVE_TIMEOUT);
                self.phase = Phase::HandingOver { until };
                IoAction::HandOver
            },
            (Phase::Waiting, IoEvent::IncomingPing) => {
                self.receive_by = later(now, RECEIVE_TIMEOUT);
                IoAction::Read
            },
            (Phase::Waiting, IoEvent::ReadFailed) => self.stop(Err(IoError::ReadFailed)),
            (Phase::Waiting, IoEvent::ReceiveTimeout) => self.stop(Err(IoError::DelayTooLong)),
            (Phase::Writing { .. }, IoEvent::Passed) => self.sent(now),
            (Phase::Writing { .. }, IoEvent::PassFailed) => self.stop(Err(IoError::WriteFailed)),
            (Phase::Writing { .. }, IoEvent::PassTimeout) => self.stop(
                Err(IoError::WriteTimedOut),
            ),
            (Phase::Pinging { .. }, IoEvent::Passed) => self.sent(now),
            (Phase::Pinging { .. }, IoEvent::PassFailed) => self.stop(
                Err(IoError::KeepaliveFailed),
            ),
            (Phase::Pinging { .. }, IoEvent::PassTimeout) => self.stop(
                Err(IoError::KeepaliveTimedOut),
            ),
            (Phase::HandingOver { .. }, IoEvent::Passed) => {
                self.phase = Phase::Waiting;
                IoAction::Read
            },
            (Phase::HandingOver { .. }, IoEvent::PassFailed) => self.stop(Ok(())),
            (Phase::HandingOver { .. }, IoEvent::PassTimeout) => self.stop(
                Err(IoError::HandingOverTimedOut),
            ),
            _ => IoAction::Wait,
        }
    }
}

/// A connection on which nothing is to be sent pings the other peer as soon as the
/// interval for it has passed, whatever came in.
pub proof fn law_idle_connection_pings(io: ConnectionIo, now: u64, ready: Ready)
    requires
        io.phase == Phase::Waiting,
        ready.outgoing is None,
        io.keepalive_at <= now,
    ensures
        first_event(io, now, ready) == Some(IoEvent::Keepalive),
        io_step(io, now, IoEvent::Keepalive).1 == IoAction::Ping,
{
}

/// A message that went out puts the next ping off by the whole interval.
pub proof fn law_sending_puts_the_ping_off(io: ConnectionIo, started: u64, done: u64)
    requires
        io.phase == Phase::Waiting,
        started <= done,
    ensures
        io_step(io_step(io, started, IoEvent::Outgoing).0, done, IoEvent::Passed).0 == (
        ConnectionIo { keepalive_at: time_after(done, KEEPALIVE_INTERVAL), ..io }),
{
}

/// A message that comes in keeps the connection for the whole timeout, and the next
/// message is read once it was handed over.
pub proof fn law_incoming_keeps_the_connection(io: ConnectionIo, came: u64, done: u64)
    requires
        io.phase == Phase::Waiting,
    ensures
        io_step(io_step(io, came, IoEvent::IncomingEnvelope).0, done, IoEvent::Passed) == (
            ConnectionIo { receive_by: time_after(came, RECEIVE_TIMEOUT), ..io },
            IoAction::Read,
        ),
        io_step(io, came, IoEvent::IncomingPing) == (
            ConnectionIo { receive_by: time_after(came, RECEIVE_TIMEOUT), ..io },
            IoAction::Read,
        ),
{
}

/// A connection is only given up for silence once the other peer was silent for the
/// whole timeout.
pub proof fn law_silence_is_told_from_patience(io: ConnectionIo, now: u64, ready: Ready)
    requires
        io.phase == Phase::Waiting,
        first_event(io, now, ready) == Some(IoEvent::ReceiveTimeout),
        ready.incoming != Some(IoEvent::ReceiveTimeout),
        ready.outgoing != Some(IoEvent::ReceiveTimeout),
    ensures
        io.receive_by <= now,
        ready.incoming is None,
        ready.outgoing is None,
{
}

/// A connection that is over stays so.
pub proof fn law_stopped_stays_stopped(io: ConnectionIo, now: u64, event: IoEvent, ready: Ready)
    requires
        io.phase == Phase::Stopped,
    ensures
        first_event(io, now, ready) is None,
        io_step(io, now, event) == (io, IoAction::Wait),
{
}

/// What a connection that waits does, and how long it takes for it: a message is written and
/// a ping sent within two seconds, a message that came in is handed over within two seconds,
/// and a second after something was sent it is time for a ping. Whatever comes in puts off
/// the moment at which silence is too long by ten seconds.
pub proof fn law_what_a_connection_does(
    io: &mut ConnectionIo,
    now: u64,
    event: IoEvent,
    r: IoAction,
)
    requires
        call_ensures(ConnectionIo::step, (io, now, event), r),
        old(io).phase is Waiting,
        now < u64::MAX - 20000,
    ensures
        event is Outgoing ==> r == IoAction::Write && final(io).phase == (Phase::Writing {
            until: (now + 2000) as u64,
        }) && final(io).receive_by == old(io).receive_by,
        event is Keepalive ==> r == IoAction::Ping && final(io).phase == (Phase::Pinging {
            until: (now + 2000) as u64,
        }) && final(io).receive_by == old(io).receive_by,
        event is IncomingEnvelope ==> r == IoAction::HandOver && final(io).phase
            == (Phase::HandingOver { until: (now + 2000) as u64 }) && final(io).receive_by == now
            + 10000,
        event is IncomingPing ==> r == IoAction::Read && final(io).phase is Waiting && final(
            io
        ).receive_by == now + 10000,
        event is OutgoingClosed ==> r == IoAction::Stop(Ok(())) && final(io).phase is Stopped,
        event is ReadFailed ==> r == IoAction::Stop(Err(IoError::ReadFailed)) && final(io).phase
            is Stopped,
        event is ReceiveTimeout ==> r == IoAction::Stop(Err(IoError::DelayTooLong)) && final(
            io
        ).phase is Stopped,
        final(io).keepalive_at == old(io).keepalive_at,
{
}

/// How what a connection has begun ends: what was sent puts the next ping off by a second,
/// what was handed over lets it read on, and what fails or takes too long stops it with the
/// reason.
pub proof fn law_how_it_ends(io: &mut ConnectionIo, now: u64, event: IoEvent, r: IoAction)
    requires
        call_ensures(ConnectionIo::step, (io, now, event), r),
        event is Passed || event is PassFailed || event is PassTimeout,
        !(old(io).phase is Waiting) && !(old(io).phase is Stopped),
        now < u64::MAX - 20000,
    ensures
        event is Passed ==> final(io).phase is Waiting && final(io).receive_by == old(
            io,
        ).receive_by,
        event is Passed && (old(io).phase is Writing || old(io).phase is Pinging) ==> r
            == IoAction::Wait && final(io).keepalive_at == now + 1000,
        event is Passed && old(io).phase is HandingOver ==> r == IoAction::Read && final(
            io
        ).keepalive_at == old(io).keepalive_at,
        !(event is Passed) ==> final(io).phase is Stopped,
        event is PassFailed && old(io).phase is Writing ==> r == IoAction::Stop(
            Err(IoError::WriteFailed),
        ),
        event is PassTimeout && old(io).phase is Writing ==> r == IoAction::Stop(
            Err(IoError::WriteTimedOut),
        ),
        event is PassFailed && old(io).phase is Pinging ==> r == IoAction::Stop(
            Err(IoError::KeepaliveFailed),
        ),
        event is PassTimeout && old(io).phase is Pinging ==> r == IoAction::Stop(
            Err(IoError::KeepaliveTimedOut),
        ),
        event is PassFailed && old(io).phase is HandingOver ==> r == IoAction::Stop(Ok(())),
        event is PassTimeout && old(io).phase is HandingOver ==> r == IoAction::Stop(
            Err(IoError::HandingOverTimedOut),
        ),
{
}

/// Of what can happen at once, what is to be sent comes first, then the ping that is due,
/// then what has come in, and last the silence that is too long. What was begun is over
/// before its time is.
pub proof fn law_what_comes_first(io: ConnectionIo, now: u64, ready: Ready, r: Option<IoEvent>)
    requires
        call_ensures(ConnectionIo::select, (&io, now, ready), r),
    ensures
        io.phase is Waiting && ready.outgoing is Some ==> r == ready.outgoing,
        io.phase is Waiting && ready.outgoing is None && io.keepalive_at <= now ==> r == Some(
            IoEvent::Keepalive,
        ),
        io.phase is Waiting && ready.outgoing is None && io.keepalive_at > now && ready.incoming
            is Some ==> r == ready.incoming,
        io.phase is Waiting && ready.outgoing is None && io.keepalive_at > now && ready.incoming
            is None ==> (r is Some <==> io.receive_by <= now) && (r is Some ==> r == Some(
            IoEvent::ReceiveTimeout,
        )),
        io.phase is Stopped ==> r is None,
        (io.phase matches Phase::Writing { until } && ready.passed is None && until > now) ==> r
            is None,
        (io.phase matches Phase::Pinging { until } && ready.passed is None && until > now) ==> r
            is None,
        (io.phase matches Phase::HandingOver { until } && ready.passed is None && until > now)
            ==> r is None,
        (io.phase matches Phase::Writing { until } && ready.passed is None && until <= now) ==> r
            == Some(IoEvent::PassTimeout),
        (io.phase matches Phase::Pinging { until } && ready.passed is None && until <= now) ==> r
            == Some(IoEvent::PassTimeout),
        (io.phase matches Phase::HandingOver { until } && ready.passed is None && until <= now)
            ==> r == Some(IoEvent::PassTimeout),
        !(io.phase is Waiting) && !(io.phase is Stopped) && ready.passed is Some ==> r
            == ready.passed,
{
}

/// How errors are written.
pub proof fn law_io_errors_in_words(error: IoError, r: &'static str)
    requires
        call_ensures(IoError::text, (&error,), r),
    ensures
        error is WriteFailed ==> r@ == "failed to write RPC message"@,
        error is WriteTimedOut ==> r@ == "timed out writing message"@,
        error is KeepaliveFailed ==> r@ == "failed to send keepalive"@,
        error is KeepaliveTimedOut ==> r@ == "timed out sending keepalive"@,
        error is ReadFailed ==> r@ == "error reading rpc message from socket"@,
        error is HandingOverTimedOut ==> r@ == "timed out processing incoming message"@,
        error is DelayTooLong ==> r@ == "delay between messages too long"@,
{
}

} // verus!
