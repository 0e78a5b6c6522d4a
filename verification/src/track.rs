use vstd::prelude::*;
use crate::entropy::fresh_uuid;
use crate::pretrack::{Pretrack, PretrackSourcePlatform};

verus! {

/// A track admitted to a room's queue, carrying the metadata that was
/// validated on its pretrack.
pub struct Track {
    pub uuid: u128,
    pub room_uuid: u128,
    pub name: String,
    pub artist: String,
    pub duration: i64,
    pub thumbnail_url: String,
    pub platform: PretrackSourcePlatform,
}

/// Promotion input: the pretrack to consume and the room the track
/// belongs to.
pub struct TrackBuildable {
    pub pretrack: Pretrack,
    pub room_uuid: u128,
}

impl Track {
    /// Promotes a pretrack into a track of the given room under a fresh
    /// identifier. The pretrack is taken by value and consumed: it can be
    /// promoted exactly once.
    pub fn create(buildable: TrackBuildable) -> (r: Track)
        ensures
            r.room_uuid == buildable.room_uuid,
            r.name == buildable.pretrack.name,
            r.artist == buildable.pretrack.artist,
            r.duration == buildable.pretrack.duration,
            r.thumbnail_url == buildable.pretrack.thumbnail_url,
            r.platform == buildable.pretrack.platform,
    {
        let TrackBuildable { pretrack, room_uuid } = buildable;
        Track {
            uuid: fresh_uuid(),
            room_uuid,
            name: pretrack.name,
            artist: pretrack.artist,
            duration: pretrack.duration,
            thumbnail_url: pretrack.thumbnail_url,
            platform: pretrack.platform,
        }
    }
}

} // verus!
