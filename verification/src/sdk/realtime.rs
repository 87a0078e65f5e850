use vstd::prelude::*;

use crate::text::{chars_of, chars_starts_with, push_chars, push_str, starts_with, string_of};

verus! {

/// A subscription topic.
#[derive(Debug, Clone)]
pub struct RealtimeChannel {
    pub topic: String,
}

impl RealtimeChannel {
    /// Listens for `event` on the channel.
    pub fn on(&self, _event: &str) -> (c: &Self)
        ensures
            c == self,
    {
        self
    }

    /// Subscribes to the channel.
    pub fn subscribe(&self) -> (c: &Self)
        ensures
            c == self,
    {
        self
    }
}

/// Client for the realtime service.
#[derive(Debug, Clone)]
pub struct RealtimeClient {
    pub base_url: String,
    pub api_key: String,
}

/// The WebSocket form of an HTTP address: `http://` becomes `ws://`, `https://` becomes
/// `wss://`, anything else stays.
pub open spec fn websocket_url(base: Seq<char>) -> Seq<char> {
    if starts_with(base, "http://"@) {
        "ws://"@ + base.skip(7)
    } else if starts_with(base, "https://"@) {
        "wss://"@ + base.skip(8)
    } else {
        base
    }
}

impl RealtimeClient {
    /// A client for the realtime service of the server at `base_url`.
    pub fn new(base_url: String, api_key: String) -> (c: Self)
        ensures
            c.base_url@ == websocket_url(base_url@) + "/v1/realtime"@,
            c.api_key == api_key,
    {
        let cs = chars_of(base_url.as_str());
        let http = chars_of("http://");
        let https = chars_of("https://");
        proof {
            reveal_strlit("http://");
            reveal_strlit("https://");
        }
        let mut url: Vec<char> = Vec::new();
        if chars_starts_with(cs.as_slice(), http.as_slice()) {
            push_str(&mut url, "ws://");
            push_chars(&mut url, cs.as_slice().split_at(7).1);
        } else if chars_starts_with(cs.as_slice(), https.as_slice()) {
            push_str(&mut url, "wss://");
            push_chars(&mut url, cs.as_slice().split_at(8).1);
        } else {
            push_chars(&mut url, cs.as_slice());
        }
        push_str(&mut url, "/v1/realtime");
        RealtimeClient { base_url: string_of(url.as_slice()), api_key }
    }

    /// The channel for `topic`.
    pub fn channel(&self, topic: &str) -> (c: RealtimeChannel)
        ensures
            c.topic@ == topic@,
    {
        RealtimeChannel { topic: topic.to_string() }
    }
}

} // verus!
