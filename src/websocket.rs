//! WebSocket message handling that needs no host callback: the echo-style
//! turbo handler and the per-message rate and size limits.

use vstd::prelude::*;

verus! {

/// Limits for a WebSocket route.
#[derive(Debug, Clone, Copy)]
pub struct WebSocketConfig {
    /// The largest text message accepted, in bytes.
    pub max_message_size: Option<usize>,
    /// The most messages accepted per second.
    pub rate_limit: Option<u64>,
    /// Seconds between heartbeats.
    pub heartbeat_interval: Option<u64>,
    /// Seconds of silence after which a client is dropped.
    pub timeout: Option<u64>,
}

impl WebSocketConfig {
    pub fn new(
        max_message_size: Option<usize>,
        rate_limit: Option<u64>,
        heartbeat_interval: Option<u64>,
        timeout: Option<u64>,
    ) -> (r: WebSocketConfig)
        ensures
            r.max_message_size == max_message_size,
            r.rate_limit == rate_limit,
            r.heartbeat_interval == heartbeat_interval,
            r.timeout == timeout,
    {
        WebSocketConfig { max_message_size, rate_limit, heartbeat_interval, timeout }
    }
}

/// What to do with an incoming message.
#[derive(Debug, Clone, Copy, PartialEq, Eq)]
pub enum WsAction {
    /// Close the connection: too many messages this second.
    CloseRateLimited,
    /// Close the connection: the text message is too large.
    CloseTooBig,
    /// Handle the message.
    Accept,
}

/// Counts the messages of the current one-second window of a connection.
#[derive(Debug)]
pub struct MessageGate {
    pub count: u64,
}

impl MessageGate {
    pub fn new() -> (r: MessageGate)
        ensures
            r.count == 0,
    {
        MessageGate { count: 0 }
    }

    /// The count after a message arrives: with a rate limit, the window
    /// restarts when a second has passed and the message is counted.
    pub open spec fn next_count(count: u64, config: WebSocketConfig, window_over: bool) -> u64 {
        if config.rate_limit is Some {
            let base = if window_over { 0 } else { count };
            if base < u64::MAX { (base + 1) as u64 } else { base }
        } else {
            count
        }
    }

    /// Decides on a message; `window_over` says whether a second has passed
    /// since the window started, `text_len` is the size of a text message.
    pub fn on_message(&mut self, config: &WebSocketConfig, window_over: bool, text_len: Option<usize>) -> (r: WsAction)
        ensures
            final(self).count == Self::next_count(old(self).count, *config, window_over),
            r == if config.rate_limit matches Some(l) && final(self).count > l {
                WsAction::CloseRateLimited
            } else if text_len matches Some(n) && config.max_message_size matches Some(m) && n > m {
                WsAction::CloseTooBig
            } else {
                WsAction::Accept
            },
    {
        match config.rate_limit {
            Some(limit) => {
                if window_over {
                    self.count = 0;
                }
                if self.count < u64::MAX {
                    self.count = self.count + 1;
                }
                if self.count > limit {
                    return WsAction::CloseRateLimited;
                }
            },
            None => {},
        }
        match (text_len, config.max_message_size) {
            (Some(n), Some(m)) => if n > m {
                WsAction::CloseTooBig
            } else {
                WsAction::Accept
            },
            _ => WsAction::Accept,
        }
    }
}

/// Answers every text message with a fixed prefix followed by the message.
#[derive(Debug)]
pub struct TurboWebSocketHandler {
    response_prefix: String,
}

impl TurboWebSocketHandler {
    pub closed spec fn prefix_spec(&self) -> Seq<char> {
        self.response_prefix@
    }

    pub fn new(response_prefix: String) -> (r: TurboWebSocketHandler)
        ensures
            r.prefix_spec() == response_prefix@,
    {
        TurboWebSocketHandler { response_prefix }
    }

    /// The reply to a text message.
    pub fn format_response(&self, message: &str) -> (r: String)
        ensures
            r@ == self.prefix_spec() + message@,
    {
        let mut out = self.response_prefix.clone();
        out.append(message);
        out
    }
}

} // verus!
