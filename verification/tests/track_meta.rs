use playlog::track::{Metadata, TrackInfo, TrackInfoError, parse_u32};

fn md(pairs: &[(&str, &str)]) -> Metadata {
    let mut m = Metadata::new();
    for (k, v) in pairs {
        m.insert(k.to_string(), v.to_string());
    }
    m
}

#[test]
fn metadata_later_entry_shadows_earlier() {
    let m = md(&[("artist", "first"), ("artist", "second")]);
    assert_eq!(m.get(&"artist".to_string()).unwrap(), "second");
    assert!(m.get(&"album".to_string()).is_none());
}

#[test]
fn parse_u32_accepts_plain_and_signed_digits() {
    assert_eq!(parse_u32("0"), Some(0));
    assert_eq!(parse_u32("1999"), Some(1999));
    assert_eq!(parse_u32("+12"), Some(12));
    assert_eq!(parse_u32("4294967295"), Some(u32::MAX));
}

#[test]
fn parse_u32_rejects_garbage_and_overflow() {
    assert_eq!(parse_u32(""), None);
    assert_eq!(parse_u32("+"), None);
    assert_eq!(parse_u32("12a"), None);
    assert_eq!(parse_u32("-3"), None);
    assert_eq!(parse_u32(" 7"), None);
    assert_eq!(parse_u32("4294967296"), None);
    assert_eq!(parse_u32("99999999999999999999"), None);
}

#[test]
fn from_metadata_maps_all_fields() {
    let m = md(&[
        ("artist", "Artist"),
        ("album", "Album"),
        ("title", "Title"),
        ("band", "Band"),
        ("year", "1984"),
        ("disc", "1"),
        ("numdiscs", "2"),
        ("track", "3"),
        ("numtracks", "12"),
    ]);
    let t = TrackInfo::from_metadata(&m, 200_500).unwrap();
    assert_eq!(t.artist, "Artist");
    assert_eq!(t.album, "Album");
    assert_eq!(t.title, "Title");
    assert_eq!(t.album_artist.as_deref(), Some("Band"));
    assert_eq!(t.year, Some(1984));
    assert_eq!(t.disc_number, Some(1));
    assert_eq!(t.total_discs, Some(2));
    assert_eq!(t.track_number, Some(3));
    assert_eq!(t.total_tracks, Some(12));
    assert_eq!(t.duration_millis, 200_500);
}

#[test]
fn album_artist_resolved_in_priority_order() {
    let base = [("artist", "a"), ("album", "b"), ("title", "c")];

    let mut pairs = base.to_vec();
    pairs.push(("albumartist", "third"));
    pairs.push(("album artist", "second"));
    pairs.push(("band", "first"));
    let t = TrackInfo::from_metadata(&md(&pairs), 0).unwrap();
    assert_eq!(t.album_artist.as_deref(), Some("first"));

    let mut pairs = base.to_vec();
    pairs.push(("albumartist", "third"));
    pairs.push(("album artist", "second"));
    let t = TrackInfo::from_metadata(&md(&pairs), 0).unwrap();
    assert_eq!(t.album_artist.as_deref(), Some("second"));

    let mut pairs = base.to_vec();
    pairs.push(("albumartist", "third"));
    let t = TrackInfo::from_metadata(&md(&pairs), 0).unwrap();
    assert_eq!(t.album_artist.as_deref(), Some("third"));

    let t = TrackInfo::from_metadata(&md(&base), 0).unwrap();
    assert!(t.album_artist.is_none());
}

#[test]
fn unparsable_numbers_are_dropped_not_fatal() {
    let m = md(&[
        ("artist", "a"),
        ("album", "b"),
        ("title", "c"),
        ("year", "199x"),
        ("track", "007"),
    ]);
    let t = TrackInfo::from_metadata(&m, 1).unwrap();
    assert_eq!(t.year, None);
    assert_eq!(t.track_number, Some(7));
}

#[test]
fn missing_required_keys_reported_in_order() {
    let e = TrackInfo::from_metadata(&md(&[("album", "b"), ("title", "c")]), 0).unwrap_err();
    match e {
        TrackInfoError::MetadataKeyNotFound(k) => assert_eq!(k, "artist"),
        other => panic!("unexpected error: {:?}", other),
    }

    let e = TrackInfo::from_metadata(&md(&[("artist", "a"), ("title", "c")]), 0).unwrap_err();
    match e {
        TrackInfoError::MetadataKeyNotFound(k) => assert_eq!(k, "album"),
        other => panic!("unexpected error: {:?}", other),
    }

    let e = TrackInfo::from_metadata(&md(&[("artist", "a"), ("album", "b")]), 0).unwrap_err();
    match e {
        TrackInfoError::MetadataKeyNotFound(k) => assert_eq!(k, "title"),
        other => panic!("unexpected error: {:?}", other),
    }
}
