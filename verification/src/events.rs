use vstd::prelude::*;

verus! {

/// The closed set of event kinds on the wire.
#[derive(Clone, Copy, PartialEq, Eq, Structural)]
pub enum SsePacketEvent {
    InternalStatus,
    Data,
}

/// A binary wire frame: an event kind and an opaque payload.
pub struct SsePacket {
    pub event: SsePacketEvent,
    pub data: Vec<u8>,
}

/// The queue-mutation payload a `Data` event carries: the track that was
/// just enqueued, with its assigned position.
pub struct TrackPayload {
    pub track_uuid: String,
    pub track_name: String,
    pub artist_name: String,
    pub track_duration: i64,
    pub thumbnail_url: String,
    pub track_idx: i64,
}

/// A domain event: a liveness or connect signal carrying a status
/// string, or a queue mutation carrying a track record.
pub enum DomainEvent {
    Status(String),
    Track(TrackPayload),
}

/// The mathematical image of a track payload: every field the clients
/// depend on, as plain sequences and integers.
pub struct TrackFields {
    pub track_uuid: Seq<char>,
    pub track_name: Seq<char>,
    pub artist_name: Seq<char>,
    pub track_duration: int,
    pub thumbnail_url: Seq<char>,
    pub track_idx: int,
}

/// The mathematical image of a domain event.
pub enum EventFields {
    Status(Seq<char>),
    Track(TrackFields),
}

impl TrackPayload {
    pub open spec fn view_fields(self) -> TrackFields {
        TrackFields {
            track_uuid: self.track_uuid@,
            track_name: self.track_name@,
            artist_name: self.artist_name@,
            track_duration: self.track_duration as int,
            thumbnail_url: self.thumbnail_url@,
            track_idx: self.track_idx as int,
        }
    }
}

impl DomainEvent {
    /// Which wire kind the event travels under.
    pub open spec fn kind(self) -> SsePacketEvent {
        match self {
            DomainEvent::Status(_) => SsePacketEvent::InternalStatus,
            DomainEvent::Track(_) => SsePacketEvent::Data,
        }
    }

    pub open spec fn view_fields(self) -> EventFields {
        match self {
            DomainEvent::Status(s) => EventFields::Status(s@),
            DomainEvent::Track(t) => EventFields::Track(t.view_fields()),
        }
    }
}

} // verus!
