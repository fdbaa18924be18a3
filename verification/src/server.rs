//! What the network loop and the game say to each other.
use vstd::prelude::*;

use std::collections::HashMap;

verus! {

/// Bytes to send back to a client, and whether to close its connection
/// afterwards.
pub struct ClientReply {
    pub data: Vec<u8>,
    pub disconnect: bool,
}

impl ClientReply {
    /// Bytes to send; the connection stays open.
    pub fn data(data: Vec<u8>) -> (r: Self)
        ensures
            r.data@ == data@,
            !r.disconnect,
    {
        Self { data, disconnect: false }
    }

    /// Bytes to send, after which the connection is closed.
    pub fn data_then_close(data: Vec<u8>) -> (r: Self)
        ensures
            r.data@ == data@,
            r.disconnect,
    {
        Self { data, disconnect: true }
    }
}

/// How long one tick lasts, in whole milliseconds, at `tickrate` ticks per
/// second.
pub fn tick_period_ms(tickrate: usize) -> (ms: usize)
    requires
        tickrate > 0,
    ensures
        ms == 1000nat / (tickrate as nat),
{
    1000 / tickrate
}

/// Whether a tick is due once `elapsed_ns` nanoseconds have passed since
/// the last one, at `tickrate` ticks per second: more than one tick period
/// has passed.
pub fn tick_due(elapsed_ns: u128, tickrate: usize) -> (due: bool)
    requires
        tickrate > 0,
    ensures
        due == (elapsed_ns > (1000nat / (tickrate as nat)) * 1_000_000),
{
    let period = tick_period_ms(tickrate) as u128;
    elapsed_ns > period * 1_000_000
}

/// The side of the server that decides what clients are told: the network
/// loop calls it on each tick, connection, line and disconnection.
pub trait ClientHandler {
    /// The handler's state is one that its operations accept.
    spec fn handler_ok(&self) -> bool;

    /// Advances time by one tick; returns the text to send to each
    /// connection.
    fn tick(&mut self) -> (replies: HashMap<i32, String>)
        requires
            old(self).handler_ok(),
        ensures
            final(self).handler_ok(),
    ;

    /// A client connected; returns the greeting to send it.
    fn on_connect(&mut self, client_fd: u64) -> (greeting: Vec<u8>)
        requires
            old(self).handler_ok(),
        ensures
            final(self).handler_ok(),
    ;

    /// A client sent one line; returns what to answer at once, if anything.
    fn client_message(&mut self, client_fd: u64, data: &str) -> (reply: Option<ClientReply>)
        requires
            old(self).handler_ok(),
        ensures
            final(self).handler_ok(),
    ;

    /// A client went away.
    fn client_disconnect(&mut self, client_fd: u64)
        requires
            old(self).handler_ok(),
        ensures
            final(self).handler_ok(),
    ;
}

} // verus!
