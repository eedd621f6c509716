//! The connection to the exchange's streams: where to connect, and how long to wait before trying
//! again.

use vstd::arithmetic::power2::{lemma_pow2_adds, lemma_pow2_pos, pow2};
use vstd::prelude::*;

use crate::text::{lower_of, to_lower};

verus! {

/// The address of the stream of a symbol's book.
pub fn depth_url(base: Option<&str>, symbol: &str) -> (r: String)
    ensures
        r@ == base_of(base) + "/"@ + lower_of(symbol@) + "@depth@100ms"@,
{
    let mut url = base_text(base).to_string();
    url.append("/");
    url.append(to_lower(symbol).as_str());
    url.append("@depth@100ms");
    url
}

/// The address of the stream of a symbol's trades.
pub fn trade_url(base: Option<&str>, symbol: &str) -> (r: String)
    ensures
        r@ == base_of(base) + "/"@ + lower_of(symbol@) + "@aggTrade"@,
{
    let mut url = base_text(base).to_string();
    url.append("/");
    url.append(to_lower(symbol).as_str());
    url.append("@aggTrade");
    url
}

/// The address of the streams: the exchange's main one unless set otherwise.
pub open spec fn base_of(base: Option<&str>) -> Seq<char> {
    match base {
        Some(b) => b@,
        None => "wss://fstream.binance.com/ws"@,
    }
}

fn base_text<'a>(base: Option<&'a str>) -> (r: &'a str)
    ensures
        r@ == base_of(base),
{
    match base {
        Some(b) => b,
        None => "wss://fstream.binance.com/ws",
    }
}

/// How long to wait before the next try: a second at first, twice as long each time, a minute at most.
pub struct Backoff {
    delay: u64,
}

impl Backoff {
    /// A wait is a second at least and a minute at most.
    #[verifier::type_invariant]
    pub closed spec fn wf(self) -> bool {
        1 <= self.delay <= 60
    }

    /// The seconds of the next wait.
    pub closed spec fn seconds(self) -> int {
        self.delay as int
    }

    /// Before the first try.
    pub fn new() -> (r: Backoff)
        ensures
            r.seconds() == 1,
    {
        Backoff { delay: 1 }
    }

    /// A connection was made: the next wait is the shortest again.
    pub fn connected(&mut self)
        ensures
            final(self).seconds() == 1,
    {
        self.delay = 1;
    }

    /// The wait before the next try; the one after it is twice as long, a minute at most.
    pub fn wait(&mut self) -> (r: u64)
        ensures
            r == old(self).seconds(),
            1 <= r <= 60,
            final(self).seconds() == (if 2 * r < 60 { 2 * r as int } else { 60 }),
    {
        proof {
            use_type_invariant(&*self);
        }
        let now: u64 = self.delay;
        self.delay = if now * 2 < 60 { now * 2 } else { 60 };
        now
    }
}

/// The wait before the try after so many failures in a row.
pub open spec fn wait_after(failures: nat) -> int
    decreases failures,
{
    if failures == 0 {
        1
    } else {
        let before = wait_after((failures - 1) as nat);
        if 2 * before < 60 { 2 * before } else { 60 }
    }
}

/// The waits double from a second up to a minute: two to the power of the failures, a minute at most.
pub proof fn waits_double(failures: nat)
    ensures
        1 <= wait_after(failures) <= 60,
        wait_after(failures) == if pow2(failures) < 60 { pow2(failures) as int } else { 60 },
    decreases failures,
{
    reveal(pow2);
    if failures == 0 {
        vstd::arithmetic::power2::lemma2_to64();
    } else {
        waits_double((failures - 1) as nat);
        lemma_pow2_pos((failures - 1) as nat);
        lemma_pow2_adds(1, (failures - 1) as nat);
        vstd::arithmetic::power2::lemma2_to64();
    }
}

/// What happens to a stream.
#[derive(Clone, Copy, Debug, PartialEq, Eq, Structural)]
pub enum StreamEvent {
    /// A connection was made.
    Connected,
    /// A text came that can be read as an update.
    Update,
    /// Another text or frame came.
    Other,
    /// The connection was closed, has broken, was silent for too long or could not be made.
    Ended,
    /// The one whom the updates are for is gone.
    ReceiverGone,
}

/// What is to be done next.
#[derive(Clone, Copy, Debug, PartialEq, Eq, Structural)]
pub enum StreamAction {
    /// Wait for the next frame.
    Read,
    /// Hand the update on, and wait for the next frame.
    HandOn,
    /// Connect again after so many seconds.
    Reconnect { seconds: u64 },
    /// Stop for good.
    Stop,
}

/// What is to be done about an event.
pub open spec fn action_for(seconds: int, event: StreamEvent) -> StreamAction {
    match event {
        StreamEvent::Connected => StreamAction::Read,
        StreamEvent::Update => StreamAction::HandOn,
        StreamEvent::Other => StreamAction::Read,
        StreamEvent::Ended => StreamAction::Reconnect { seconds: seconds as u64 },
        StreamEvent::ReceiverGone => StreamAction::Stop,
    }
}

/// The seconds of the next wait after an event.
pub open spec fn seconds_after(seconds: int, event: StreamEvent) -> int {
    match event {
        StreamEvent::Connected => 1,
        StreamEvent::Ended => if 2 * seconds < 60 { 2 * seconds } else { 60 },
        _ => seconds,
    }
}

impl Backoff {
    /// Takes an event of the stream: every update is handed on, everything else is dropped, and a stream
    /// that has ended is connected again after a wait.
    pub fn step(&mut self, event: StreamEvent) -> (r: StreamAction)
        ensures
            r == action_for(old(self).seconds(), event),
            final(self).seconds() == seconds_after(old(self).seconds(), event),
            r matches StreamAction::Reconnect { seconds } ==> 1 <= seconds <= 60 && seconds == old(
                self,
            ).seconds(),
    {
        match event {
            StreamEvent::Connected => {
                self.connected();
                StreamAction::Read
            },
            StreamEvent::Update => StreamAction::HandOn,
            StreamEvent::Other => StreamAction::Read,
            StreamEvent::Ended => {
                let seconds: u64 = self.wait();
                StreamAction::Reconnect { seconds }
            },
            StreamEvent::ReceiverGone => StreamAction::Stop,
        }
    }
}

/// The seconds of the next wait after some events.
pub open spec fn seconds_after_all(seconds: int, events: Seq<StreamEvent>) -> int
    decreases events.len(),
{
    if events.len() == 0 {
        seconds
    } else {
        seconds_after(seconds_after_all(seconds, events.drop_last()), events.last())
    }
}

/// A stream stops only once the receiver is gone, and hands on updates and nothing else.
pub proof fn only_updates_are_handed_on(seconds: int, event: StreamEvent)
    ensures
        action_for(seconds, event) is Stop <==> event is ReceiverGone,
        action_for(seconds, event) is HandOn <==> event is Update,
        action_for(seconds, event) is Reconnect <==> event is Ended,
{
}

/// Failures in a row wait longer and longer, as the waits double.
pub proof fn failures_wait_longer(events: Seq<StreamEvent>)
    requires
        forall|i: int| 0 <= i < events.len() ==> #[trigger] events[i] == StreamEvent::Ended,
    ensures
        seconds_after_all(1, events) == wait_after(events.len()),
    decreases events.len(),
{
    if events.len() > 0 {
        let front = events.drop_last();
        assert forall|i: int| 0 <= i < front.len() implies #[trigger] front[i]
            == StreamEvent::Ended by {
            assert(front[i] == events[i]);
        }
        failures_wait_longer(front);
        assert(events.last() == events[events.len() - 1]);
    }
}

/// What the waits do, said outright: a connection makes the next one the shortest, every failure doubles it up to a
/// minute, and nothing else changes it.
pub proof fn waits_go_with_events(seconds: int)
    requires
        1 <= seconds <= 60,
    ensures
        seconds_after(seconds, StreamEvent::Connected) == 1,
        seconds <= 30 ==> seconds_after(seconds, StreamEvent::Ended) == 2 * seconds,
        seconds >= 30 ==> seconds_after(seconds, StreamEvent::Ended) == 60,
        seconds_after(seconds, StreamEvent::Update) == seconds,
        seconds_after(seconds, StreamEvent::Other) == seconds,
        action_for(seconds, StreamEvent::Ended) == (StreamAction::Reconnect { seconds: seconds as u64 }),
{
}

/// The streams are at the exchange's main address unless another one was set.
pub proof fn streams_have_address(base: &str)
    ensures
        base_of(Some(base)) == base@,
        base_of(None) == "wss://fstream.binance.com/ws"@,
{
}

} // verus!
