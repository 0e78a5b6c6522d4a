use vstd::prelude::*;
use vstd::string::StringExecFns;
use crate::events::{DomainEvent, EventFields};
use crate::json::{decode_event_json, encode_event_json, event_json_dec, event_json_enc};
use crate::text::copy_range;
use crate::wire::{decode_event_bin, encode_event_bin, event_bin_dec, event_bin_enc};
use crate::x_accept::ContentType;

verus! {

/// The sending half of a subscriber's channel (tokio's bounded mpsc).
#[verifier::external_type_specification]
#[verifier::external_body]
#[verifier::reject_recursive_types(T)]
pub struct ExSender<T>(tokio::sync::mpsc::Sender<T>);

/// The receiving half of a subscriber's channel (tokio's bounded mpsc).
#[verifier::external_type_specification]
#[verifier::external_body]
#[verifier::reject_recursive_types(T)]
pub struct ExReceiver<T>(tokio::sync::mpsc::Receiver<T>);

/// What a non-blocking delivery attempt came to. Which outcome comes
/// back depends on the receiver's state at that moment; nothing is
/// promised of it.
#[derive(Clone, Copy, PartialEq, Eq, Structural, Debug)]
pub enum SendOutcome {
    Sent,
    Full,
    Closed,
}

/// Error raised by the broadcaster; delivery failures to single clients
/// are contained, so only a failed initial enqueue surfaces.
#[derive(Debug)]
pub enum SseError {
    Send,
}

/// Relies on tokio's `mpsc::channel`: a fresh connected pair. The
/// constructor panics on a zero buffer, so that is ruled out.
#[verifier::external_body]
fn new_channel(buffer: usize) -> (r: (tokio::sync::mpsc::Sender<Vec<u8>>, tokio::sync::mpsc::Receiver<Vec<u8>>))
    requires
        buffer > 0,
{
    tokio::sync::mpsc::channel(buffer)
}

/// Relies on `Sender::try_send`: the frame is either accepted, or
/// refused without blocking because the channel is full or closed.
#[verifier::external_body]
fn try_send_frame(sender: &tokio::sync::mpsc::Sender<Vec<u8>>, frame: Vec<u8>) -> (r: SendOutcome) {
    match sender.try_send(frame) {
        Ok(()) => SendOutcome::Sent,
        Err(tokio::sync::mpsc::error::TrySendError::Full(_)) => SendOutcome::Full,
        Err(tokio::sync::mpsc::error::TrySendError::Closed(_)) => SendOutcome::Closed,
    }
}

/// Relies on `Sender::is_closed`: whether the receiving half is gone.
#[verifier::external_body]
fn sender_is_closed(sender: &tokio::sync::mpsc::Sender<Vec<u8>>) -> (r: bool) {
    sender.is_closed()
}

/// One registered subscriber: its outbound channel and the encoding it
/// negotiated at subscribe time.
pub struct SseTxClient {
    pub sender: tokio::sync::mpsc::Sender<Vec<u8>>,
    pub content_type: ContentType,
}

/// The receiving half handed to the transport: a lazy sequence of
/// self-contained frames, ending only when the sending half is dropped.
pub struct SseRxClient {
    pub receiver: tokio::sync::mpsc::Receiver<Vec<u8>>,
    pub content_type: ContentType,
}

impl SseRxClient {
    /// Relies on `Receiver::try_recv`: the next frame already delivered,
    /// if any is waiting.
    #[verifier::external_body]
    pub fn try_next(&mut self) -> (r: Option<Vec<u8>>) {
        self.receiver.try_recv().ok()
    }
}

/// The frame an event takes on the wire under a negotiated encoding.
pub open spec fn frame_bytes(ev: DomainEvent, ct: ContentType) -> Seq<u8> {
    match ct {
        ContentType::Json => event_json_enc(ev),
        ContentType::Protobuf => event_bin_enc(ev),
    }
}

/// Reads a frame back into the event's mathematical image.
pub open spec fn frame_parse(s: Seq<u8>, ct: ContentType) -> Option<EventFields> {
    match ct {
        ContentType::Json => event_json_dec(s),
        ContentType::Protobuf => event_bin_dec(s),
    }
}

/// Encodes one event for one encoding.
pub fn encode_event(ev: &DomainEvent, ct: ContentType) -> (r: Vec<u8>)
    ensures
        r@ == frame_bytes(*ev, ct),
{
    match ct {
        ContentType::Json => encode_event_json(ev),
        ContentType::Protobuf => encode_event_bin(ev),
    }
}

/// Decodes one frame under the encoding it was sent in.
pub fn decode_event(s: &Vec<u8>, ct: ContentType) -> (r: Option<DomainEvent>)
    ensures
        match r {
            Some(ev) => frame_parse(s@, ct) == Some(ev.view_fields()),
            None => frame_parse(s@, ct) is None,
        },
{
    match ct {
        ContentType::Json => decode_event_json(s),
        ContentType::Protobuf => decode_event_bin(s),
    }
}

/// Round trip in either supported encoding: decoding an encoded domain
/// event reproduces the event kind and every payload field.
pub proof fn lemma_event_roundtrip(ev: DomainEvent, ct: ContentType)
    ensures
        frame_parse(frame_bytes(ev, ct), ct) == Some(ev.view_fields()),
{
    match ct {
        ContentType::Json => crate::json::lemma_event_json_roundtrip(ev),
        ContentType::Protobuf => crate::wire::lemma_event_bin_roundtrip(ev),
    }
}

/// The clients of `s` whose flag in `f` is set, in their original order.
pub open spec fn filter_by_flags(s: Seq<SseTxClient>, f: Seq<bool>) -> Seq<SseTxClient>
    decreases s.len(),
{
    if s.len() == 0 || f.len() == 0 {
        Seq::<SseTxClient>::empty()
    } else {
        let rest = filter_by_flags(s.drop_last(), f.drop_last());
        if f.last() {
            rest.push(s.last())
        } else {
            rest
        }
    }
}

/// The capacity of a subscriber's channel, in pending frames.
pub const CLIENT_CHANNEL_CAPACITY: usize = 100;

/// The per-room hub: fans events out to every registered client,
/// non-blocking, and reaps clients on the heartbeat cycle.
pub struct Broadcaster {
    pub clients: Vec<SseTxClient>,
    pub uuid: u128,
}

impl Broadcaster {
    /// A hub with no clients yet. The caller owns the heartbeat task
    /// that drives `remove_stale_clients`.
    pub fn new(uuid: u128) -> (b: Broadcaster)
        ensures
            b.clients@.len() == 0,
            b.uuid == uuid,
    {
        Broadcaster { clients: Vec::new(), uuid }
    }

    /// How many clients are registered.
    pub fn client_count(&self) -> (n: usize)
        ensures
            n == self.clients@.len(),
    {
        self.clients.len()
    }

    /// Allocates a bounded channel, enqueues the connect signal encoded
    /// for the client's negotiated type, and registers the client; the
    /// receiving half goes to the caller. Fails only if the initial
    /// enqueue is refused, and then registers nothing.
    pub fn new_client(&mut self, content_type: ContentType) -> (r: Result<SseRxClient, SseError>)
        ensures
            final(self).uuid == old(self).uuid,
            match r {
                Ok(rx) => {
                    &&& rx.content_type == content_type
                    &&& final(self).clients@.len() == old(self).clients@.len() + 1
                    &&& final(self).clients@.subrange(0, old(self).clients@.len() as int) == old(
                        self,
                    ).clients@
                    &&& final(self).clients@.last().content_type == content_type
                },
                Err(_) => final(self).clients@ == old(self).clients@,
            },
    {
        let (tx, rx) = new_channel(CLIENT_CHANNEL_CAPACITY);
        let connected = DomainEvent::Status(String::from_str("Connected"));
        let frame = encode_event(&connected, content_type);
        match try_send_frame(&tx, frame) {
            SendOutcome::Sent => {
                self.clients.push(SseTxClient { sender: tx, content_type });
                proof {
                    assert(final(self).clients@.subrange(0, old(self).clients@.len() as int)
                        =~= old(self).clients@);
                }
                Ok(SseRxClient { receiver: rx, content_type })
            },
            _ => Err(SseError::Send),
        }
    }

    /// Encodes the event once per supported encoding and attempts a
    /// non-blocking delivery to every client: a closed channel is
    /// skipped, a full one drops this event for that client, and neither
    /// fails the call or touches the client set. The outcome of each
    /// client's attempt is reported in order. What each attempt hands a
    /// channel is the event under that client's encoding, pinned by
    /// `encode_event`'s contract; whether the channel accepted it is
    /// runtime state, so the contract fixes only the outcomes.
    pub fn send(&self, event: &DomainEvent) -> (outcomes: Vec<SendOutcome>)
        ensures
            outcomes@.len() == self.clients@.len(),
    {
        let json_frame = encode_event(event, ContentType::Json);
        let bin_frame = encode_event(event, ContentType::Protobuf);
        let mut outcomes: Vec<SendOutcome> = Vec::new();
        let n = self.clients.len();
        let mut i: usize = 0;
        #[verifier::loop_isolation(false)]
        while i < n
            invariant
                i <= n,
                outcomes@.len() == i,
            decreases n - i,
        {
            let client = &self.clients[i];
            let outcome = if sender_is_closed(&client.sender) {
                SendOutcome::Closed
            } else {
                let frame = match client.content_type {
                    ContentType::Json => copy_range(&json_frame, 0, json_frame.len()),
                    ContentType::Protobuf => copy_range(&bin_frame, 0, bin_frame.len()),
                };
                try_send_frame(&client.sender, frame)
            };
            outcomes.push(outcome);
            i += 1;
        }
        outcomes
    }

    /// The heartbeat cycle: encodes the ping once per encoding, attempts
    /// a non-blocking delivery to every client, and permanently removes
    /// each client whose attempt was refused — the sole reaping
    /// mechanism. Reports which clients stayed, in order.
    pub fn remove_stale_clients(&mut self) -> (kept: Vec<bool>)
        ensures
            final(self).uuid == old(self).uuid,
            kept@.len() == old(self).clients@.len(),
            final(self).clients@ == filter_by_flags(old(self).clients@, kept@),
    {
        let ping = DomainEvent::Status(String::from_str("Ping"));
        let json_frame = encode_event(&ping, ContentType::Json);
        let bin_frame = encode_event(&ping, ContentType::Protobuf);
        let ghost orig = self.clients@;
        let mut rest: Vec<SseTxClient> = Vec::new();
        core::mem::swap(&mut self.clients, &mut rest);
        let mut kept_clients: Vec<SseTxClient> = Vec::new();
        let mut kept: Vec<bool> = Vec::new();
        let n = rest.len();
        let mut i: usize = 0;
        #[verifier::loop_isolation(false)]
        while i < n
            invariant
                i <= n,
                rest@ == orig.subrange(i as int, n as int),
                kept@.len() == i,
                kept_clients@ == filter_by_flags(orig.subrange(0, i as int), kept@),
            decreases n - i,
        {
            let client = rest.remove(0);
            let frame = match client.content_type {
                ContentType::Json => copy_range(&json_frame, 0, json_frame.len()),
                ContentType::Protobuf => copy_range(&bin_frame, 0, bin_frame.len()),
            };
            let outcome = try_send_frame(&client.sender, frame);
            let keep = match outcome {
                SendOutcome::Sent => true,
                _ => false,
            };
            let ghost prev_kept = kept@;
            let ghost prev_clients = kept_clients@;
            if keep {
                kept_clients.push(client);
            }
            kept.push(keep);
            i += 1;
            proof {
                assert(rest@ =~= orig.subrange(i as int, n as int));
                let pre = orig.subrange(0, i as int);
                assert(pre.drop_last() =~= orig.subrange(0, i - 1));
                assert(kept@.drop_last() =~= prev_kept);
                assert(pre.last() == orig[i - 1]);
                assert(kept_clients@ == filter_by_flags(pre, kept@));
            }
        }
        self.clients = kept_clients;
        proof {
            assert(orig.subrange(0, n as int) =~= orig);
        }
        kept
    }
}

} // verus!
