use vstd::prelude::*;
use vstd::string::StringExecFns;
use crate::entropy::fresh_uuid;

verus! {

broadcast use vstd::string::group_string_axioms;

/// Source platform of a candidate track, together with the
/// platform-native identifier of the track.
#[derive(Clone)]
pub enum PretrackSourcePlatform {
    YouTube(String),
    Spotify(String),
}

impl PretrackSourcePlatform {
    /// The platform-native track identifier carried by the tag.
    pub open spec fn spec_track_id(self) -> Seq<char> {
        match self {
            PretrackSourcePlatform::YouTube(s) => s@,
            PretrackSourcePlatform::Spotify(s) => s@,
        }
    }

    /// Builds the tag from a platform name; only the closed set of
    /// platform names is accepted.
    pub fn new(platform: String, track_id: String) -> (r: Option<Self>)
        ensures
            platform@ == "YouTube"@ ==> r == Some(PretrackSourcePlatform::YouTube(track_id)),
            platform@ == "Spotify"@ ==> r == Some(PretrackSourcePlatform::Spotify(track_id)),
            platform@ != "YouTube"@ && platform@ != "Spotify"@ ==> r is None,
    {
        proof {
            reveal_strlit("YouTube");
            reveal_strlit("Spotify");
            assert("YouTube"@[0] == 'Y' && "Spotify"@[0] == 'S');
            assert("YouTube"@ != "Spotify"@);
        }
        if platform == String::from_str("YouTube") {
            Some(PretrackSourcePlatform::YouTube(track_id))
        } else if platform == String::from_str("Spotify") {
            Some(PretrackSourcePlatform::Spotify(track_id))
        } else {
            None
        }
    }

    pub fn get_track_id(&self) -> (r: String)
        ensures
            r@ == self.spec_track_id(),
    {
        match self {
            PretrackSourcePlatform::YouTube(s) => s.clone(),
            PretrackSourcePlatform::Spotify(s) => s.clone(),
        }
    }

    /// The platform's name, as stored beside the platform-native id.
    pub fn platform_name(&self) -> (r: String)
        ensures
            self is YouTube ==> r@ == "YouTube"@,
            self is Spotify ==> r@ == "Spotify"@,
    {
        match self {
            PretrackSourcePlatform::YouTube(_) => String::from_str("YouTube"),
            PretrackSourcePlatform::Spotify(_) => String::from_str("Spotify"),
        }
    }
}

/// Unvalidated candidate track metadata; consumed exactly once when
/// promoted into a queue track.
pub struct Pretrack {
    pub uuid: u128,
    pub name: String,
    pub artist: String,
    pub duration: i64,
    pub thumbnail_url: String,
    pub platform: PretrackSourcePlatform,
}

/// The fields a caller supplies to mint a new pretrack.
pub struct PretrackBuildable {
    pub name: String,
    pub artist: String,
    pub duration: i64,
    pub thumbnail_url: String,
    pub platform: PretrackSourcePlatform,
}

impl Pretrack {
    /// Mints a pretrack from candidate metadata under a fresh identifier.
    pub fn create(buildable: PretrackBuildable) -> (r: Pretrack)
        ensures
            r.name == buildable.name,
            r.artist == buildable.artist,
            r.duration == buildable.duration,
            r.thumbnail_url == buildable.thumbnail_url,
            r.platform == buildable.platform,
    {
        Pretrack {
            uuid: fresh_uuid(),
            name: buildable.name,
            artist: buildable.artist,
            duration: buildable.duration,
            thumbnail_url: buildable.thumbnail_url,
            platform: buildable.platform,
        }
    }
}

} // verus!
