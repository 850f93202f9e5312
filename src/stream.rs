//! The streaming channel multiplexer: one connection, logical channels by
//! sequential identifier, the frames that open and close them, and the
//! routing of inbound events.
use vstd::prelude::*;

use crate::model::{channel_name, MisskeyChannel};
use crate::text::{decimal, parse_u32, push_decimal, push_str, str_eq};
use crate::text::{all_digits, decimal_value};

verus! {

/// The keepalive payload, sent every `KEEPALIVE_MS` milliseconds.
pub const PING_TEXT: &'static str = "h";

pub const KEEPALIVE_MS: u64 = 60000;

/// What the connection owner does next.
#[derive(Clone, Copy, Debug, PartialEq, Eq)]
pub enum StreamAction {
    /// Establish the connection.
    Connect,
    /// Send the connect frame of a channel with this identifier.
    Open(MisskeyChannel, u32),
    /// Send the disconnect frame of this channel.
    Close(u32),
    /// Stop the keepalive and close the connection.
    CloseConnection,
}

/// Where an inbound frame goes.
#[derive(Clone, Copy, Debug, PartialEq, Eq)]
pub enum Route {
    /// A note event of an open channel: to the synchronizer.
    Note(u32),
    /// An event of a channel that is not open: dropped.
    UnknownChannel(u32),
    /// Anything else: dropped.
    Ignore,
}

/// The multiplexer: whether a connection is up, the channel that streams,
/// the next channel identifier, and the channels whose events are accepted.
pub struct StreamState {
    connected: bool,
    channel: Option<u32>,
    next_id: u32,
    open: Vec<u32>,
}

/// The connect frame of a channel.
pub open spec fn connect_frame_text(c: MisskeyChannel, id: u32) -> Seq<char> {
    "{\"type\":\"connect\",\"body\":{\"channel\":\""@ + channel_name(c) + "\",\"id\":\""@ + decimal(id as nat)
        + "\",\"params\":{\"withRenotes\":true,\"withCats\":false}}}"@
}

/// The disconnect frame of a channel.
pub open spec fn disconnect_frame_text(id: u32) -> Seq<char> {
    "{\"type\":\"disconnect\",\"body\":{\"id\":\""@ + decimal(id as nat) + "\"}}"@
}

/// The frame that opens channel `id` of kind `c`.
pub fn connect_frame(c: MisskeyChannel, id: u32) -> (r: String)
    ensures
        r@ == connect_frame_text(c, id),
{
    let mut s = String::new();
    push_str(&mut s, "{\"type\":\"connect\",\"body\":{\"channel\":\"");
    push_str(&mut s, c.id());
    push_str(&mut s, "\",\"id\":\"");
    push_decimal(&mut s, id as u64);
    push_str(&mut s, "\",\"params\":{\"withRenotes\":true,\"withCats\":false}}}");
    assert(s@ =~= connect_frame_text(c, id));
    s
}

/// The frame that closes channel `id`.
pub fn disconnect_frame(id: u32) -> (r: String)
    ensures
        r@ == disconnect_frame_text(id),
{
    let mut s = String::new();
    push_str(&mut s, "{\"type\":\"disconnect\",\"body\":{\"id\":\"");
    push_decimal(&mut s, id as u64);
    push_str(&mut s, "\"}}");
    assert(s@ =~= disconnect_frame_text(id));
    s
}

/// The identifier that follows `id`, wrapping at the end of the range.
pub open spec fn next_channel_id(id: u32) -> u32 {
    if id == u32::MAX { 0 } else { (id + 1) as u32 }
}

impl StreamState {
    pub closed spec fn spec_connected(&self) -> bool {
        self.connected
    }

    pub closed spec fn spec_channel(&self) -> Option<u32> {
        self.channel
    }

    pub closed spec fn spec_next_id(&self) -> u32 {
        self.next_id
    }

    pub closed spec fn spec_open(&self) -> Seq<u32> {
        self.open@
    }

    pub fn new() -> (r: Self)
        ensures
            !r.spec_connected(),
            r.spec_channel() is None,
            r.spec_next_id() == 0,
            r.spec_open().len() == 0,
    {
        StreamState { connected: false, channel: None, next_id: 0, open: Vec::new() }
    }

    /// Applies a timeline request: `Some(kind)` streams that kind, `None`
    /// stops streaming. Streaming connects where there is no connection,
    /// opens a channel under the next identifier and then closes the channel
    /// that streamed before; stopping closes that channel and keeps the
    /// connection for the next subscription.
    pub fn on_request(&mut self, want: Option<MisskeyChannel>) -> (r: Vec<StreamAction>)
        ensures
            match want {
                Some(c) => {
                    &&& r@ == (if old(self).spec_connected() { Seq::empty() } else { seq![StreamAction::Connect] })
                        + seq![StreamAction::Open(c, old(self).spec_next_id())] + match old(self).spec_channel() {
                        Some(o) => seq![StreamAction::Close(o)],
                        None => Seq::empty(),
                    }
                    &&& final(self).spec_connected()
                    &&& final(self).spec_channel() == Some(old(self).spec_next_id())
                    &&& final(self).spec_next_id() == next_channel_id(old(self).spec_next_id())
                    &&& final(self).spec_open().contains(old(self).spec_next_id())
                },
                None => {
                    &&& r@ == match old(self).spec_channel() {
                        Some(o) => seq![StreamAction::Close(o)],
                        None => Seq::empty(),
                    }
                    &&& final(self).spec_connected() == old(self).spec_connected()
                    &&& final(self).spec_channel() is None
                    &&& final(self).spec_next_id() == old(self).spec_next_id()
                    &&& final(self).spec_open().len() == 0
                },
            },
    {
        let mut r: Vec<StreamAction> = Vec::new();
        match want {
            Some(c) => {
                if !self.connected {
                    r.push(StreamAction::Connect);
                    self.connected = true;
                }
                let id = self.next_id;
                r.push(StreamAction::Open(c, id));
                self.next_id = if id == u32::MAX { 0 } else { id + 1 };
                let mut open: Vec<u32> = Vec::new();
                open.push(id);
                match self.channel {
                    Some(o) => {
                        r.push(StreamAction::Close(o));
                    },
                    None => {},
                }
                self.open = open;
                self.channel = Some(id);
                assert(self.open@[0] == id);
                proof {
                    let pre: Seq<StreamAction> = if old(self).spec_connected() { Seq::empty() } else { seq![StreamAction::Connect] };
                    let post: Seq<StreamAction> = match old(self).spec_channel() {
                        Some(o) => seq![StreamAction::Close(o)],
                        None => Seq::empty(),
                    };
                    assert(r@ =~= pre + seq![StreamAction::Open(c, id)] + post);
                }
            },
            None => {
                match self.channel {
                    Some(o) => {
                        r.push(StreamAction::Close(o));
                    },
                    None => {},
                }
                self.channel = None;
                self.open = Vec::new();
                proof {
                    let pre: Seq<StreamAction> = match old(self).spec_channel() {
                        Some(o) => seq![StreamAction::Close(o)],
                        None => Seq::empty(),
                    };
                    assert(r@ =~= pre);
                }
            },
        }
        r
    }

    /// Tears the connection down: closes the channel that streams, then the
    /// connection, where there are.
    pub fn close_connection(&mut self) -> (r: Vec<StreamAction>)
        ensures
            r@ == match old(self).spec_channel() {
                Some(o) => seq![StreamAction::Close(o)],
                None => Seq::empty(),
            } + (if old(self).spec_connected() { seq![StreamAction::CloseConnection] } else { Seq::empty() }),
            !final(self).spec_connected(),
            final(self).spec_channel() is None,
            final(self).spec_next_id() == old(self).spec_next_id(),
            final(self).spec_open().len() == 0,
    {
        let mut r = self.on_request(None);
        let ghost pre = r@;
        if self.connected {
            r.push(StreamAction::CloseConnection);
        }
        self.connected = false;
        assert(r@ =~= pre + (if old(self).spec_connected() { seq![StreamAction::CloseConnection] } else { Seq::<StreamAction>::empty() }));
        r
    }

    /// The connection could not be established: no connection and no
    /// channel; the synchronizer goes on polling.
    pub fn on_connect_failed(&mut self)
        ensures
            !final(self).spec_connected(),
            final(self).spec_channel() is None,
            final(self).spec_next_id() == old(self).spec_next_id(),
            final(self).spec_open().len() == 0,
    {
        self.connected = false;
        self.channel = None;
        self.open = Vec::new();
    }

    /// Whether channel `id` is open.
    pub fn is_open(&self, id: u32) -> (r: bool)
        ensures
            r == self.spec_open().contains(id),
    {
        let mut i: usize = 0;
        while i < self.open.len()
            invariant
                i <= self.open@.len(),
                forall|j: int| 0 <= j < i ==> self.open@[j] != id,
            decreases self.open@.len() - i,
        {
            if self.open[i] == id {
                assert(self.open@[i as int] == id);
                return true;
            }
            i = i + 1;
        }
        false
    }

    /// Routes an inbound frame by its outer type, its channel identifier
    /// text and its event type: a note event of an open channel goes to the
    /// synchronizer; any frame that is not a channel event, or whose
    /// identifier is no decimal `u32`, is dropped.
    pub fn route(&self, frame_type: &str, channel_id: &str, event_type: &str) -> (r: Route)
        ensures
            frame_type@ != "channel"@ ==> r == Route::Ignore,
            frame_type@ == "channel"@ && !(channel_id@.len() > 0 && all_digits(channel_id@) && decimal_value(channel_id@) <= u32::MAX)
                ==> r == Route::Ignore,
            frame_type@ == "channel"@ && channel_id@.len() > 0 && all_digits(channel_id@) && decimal_value(channel_id@) <= u32::MAX ==> {
                let id = decimal_value(channel_id@) as u32;
                if !self.spec_open().contains(id) {
                    r == Route::UnknownChannel(id)
                } else if event_type@ == "note"@ {
                    r == Route::Note(id)
                } else {
                    r == Route::Ignore
                }
            },
    {
        if !str_eq(frame_type, "channel") {
            return Route::Ignore;
        }
        match parse_u32(channel_id) {
            None => Route::Ignore,
            Some(id) => {
                if !self.is_open(id) {
                    Route::UnknownChannel(id)
                } else if str_eq(event_type, "note") {
                    Route::Note(id)
                } else {
                    Route::Ignore
                }
            },
        }
    }
}

} // verus!
