use roomcast::pretrack::{Pretrack, PretrackBuildable, PretrackSourcePlatform};
use roomcast::track::{Track, TrackBuildable};
use roomcast::user::{User, UserBuildable};
use roomcast::youtube::{VideoResourceSnippet, VideoThumbnail};

#[test]
fn platform_accepts_only_the_closed_set() {
    let yt = PretrackSourcePlatform::new(String::from("YouTube"), String::from("dQw4"));
    assert!(matches!(yt, Some(PretrackSourcePlatform::YouTube(_))));
    let sp = PretrackSourcePlatform::new(String::from("Spotify"), String::from("7xGf"));
    assert!(matches!(sp, Some(PretrackSourcePlatform::Spotify(_))));
    assert!(PretrackSourcePlatform::new(String::from("SoundCloud"), String::from("x")).is_none());
    assert!(PretrackSourcePlatform::new(String::from("youtube"), String::from("x")).is_none());
}

#[test]
fn platform_keeps_track_id_and_name() {
    let yt = PretrackSourcePlatform::new(String::from("YouTube"), String::from("dQw4")).unwrap();
    assert_eq!(yt.get_track_id(), "dQw4");
    assert_eq!(yt.platform_name(), "YouTube");
    let sp = PretrackSourcePlatform::new(String::from("Spotify"), String::from("7xGf")).unwrap();
    assert_eq!(sp.get_track_id(), "7xGf");
    assert_eq!(sp.platform_name(), "Spotify");
}

#[test]
fn pretrack_promotion_consumes_and_carries_metadata() {
    let pre = Pretrack::create(PretrackBuildable {
        name: String::from("Song"),
        artist: String::from("Artist"),
        duration: 180,
        thumbnail_url: String::from("https://example.test/s.jpg"),
        platform: PretrackSourcePlatform::YouTube(String::from("vid1")),
    });
    assert_eq!(pre.name, "Song");
    let track = Track::create(TrackBuildable { pretrack: pre, room_uuid: 9 });
    assert_eq!(track.room_uuid, 9);
    assert_eq!(track.name, "Song");
    assert_eq!(track.artist, "Artist");
    assert_eq!(track.duration, 180);
    assert_eq!(track.thumbnail_url, "https://example.test/s.jpg");
    assert!(matches!(track.platform, PretrackSourcePlatform::YouTube(_)));
}

#[test]
fn user_create_carries_name() {
    let u = User::create(UserBuildable { name: String::from("ada") });
    assert_eq!(u.name, "ada");
}

#[test]
fn fresh_identifiers_differ() {
    let a = User::create(UserBuildable { name: String::from("a") });
    let b = User::create(UserBuildable { name: String::from("b") });
    assert_ne!(a.uuid, b.uuid);
}

fn snippet(title: &str, thumbs: Vec<(&str, &str)>) -> VideoResourceSnippet {
    VideoResourceSnippet {
        title: String::from(title),
        thumbnails: thumbs
            .into_iter()
            .map(|(k, u)| (String::from(k), VideoThumbnail { url: String::from(u) }))
            .collect(),
        channel_title: String::from("channel"),
    }
}

#[test]
fn get_title_strips_topic_marker() {
    let s = snippet("Artist - Topic", vec![("default", "u")]);
    assert_eq!(s.get_title(), "Artist ");
    let s = snippet("- Topic- TopicSong", vec![("default", "u")]);
    assert_eq!(s.get_title(), "Song");
    let s = snippet("Plain Title", vec![("default", "u")]);
    assert_eq!(s.get_title(), "Plain Title");
}

#[test]
fn best_thumbnail_takes_largest_class() {
    let s = snippet(
        "t",
        vec![("default", "d"), ("maxres", "m"), ("high", "h")],
    );
    assert_eq!(s.get_best_thumbnail(), "m");
    let s = snippet("t", vec![("default", "d"), ("high", "h")]);
    assert_eq!(s.get_best_thumbnail(), "h");
    let s = snippet("t", vec![("default", "d")]);
    assert_eq!(s.get_best_thumbnail(), "d");
}

#[test]
fn duration_reads_time_components() {
    let dur = |s: &str| {
        roomcast::youtube::VideoResourceContentDetails { duration: String::from(s) }.duration()
    };
    assert_eq!(dur("PT4M13S"), Some(253));
    assert_eq!(dur("PT1H2M3S"), Some(3723));
    assert_eq!(dur("PT30S"), Some(30));
    assert_eq!(dur("PT2H"), Some(7200));
    assert_eq!(dur("P1DT2H"), Some(93600));
    assert_eq!(dur("P2W"), Some(1209600));
    assert_eq!(dur("P3D"), Some(259200));
}

#[test]
fn duration_rejects_what_is_not_a_plain_duration() {
    let dur = |s: &str| {
        roomcast::youtube::VideoResourceContentDetails { duration: String::from(s) }.duration()
    };
    assert_eq!(dur(""), None);
    assert_eq!(dur("P"), None);
    assert_eq!(dur("PT"), None);
    assert_eq!(dur("4M13S"), None);
    assert_eq!(dur("PT4M13"), None);
    assert_eq!(dur("PT4X"), None);
    // calendar-dependent designators have no fixed second count
    assert_eq!(dur("P1Y"), None);
    assert_eq!(dur("P2M"), None);
    // beyond the representable second count
    assert_eq!(dur("PT99999999999999999999S"), None);
}
