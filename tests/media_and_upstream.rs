use tunes_core::headers::{headers_with_date, request_headers};
use tunes_core::images::{cache_path_for_hash, data_uri_for, image_cache_path, jpeg_data_uri, square_crop};
use tunes_core::media::{download_quality, is_audio_extension, parse_range, AudioQuality, RangeError};
use tunes_core::spotify::{
    minify_track, minify_tracks, search_url_for, session_json, spotify_search_url, SpotifyAuth,
    SpotifyTrack,
};

fn track(id: &str, name: &str, ms: u32, artists: &[&str], images: &[&str]) -> SpotifyTrack {
    SpotifyTrack {
        id: id.to_string(),
        name: name.to_string(),
        duration_ms: ms,
        artist_names: artists.iter().map(|s| s.to_string()).collect(),
        image_urls: images.iter().map(|s| s.to_string()).collect(),
    }
}

#[test]
fn range_with_both_bounds() {
    assert_eq!(parse_range("bytes=0-99", 1000), Ok((0, 99)));
    assert_eq!(parse_range("bytes=100-", 1000), Ok((100, 999)));
    assert_eq!(parse_range("bytes=-", 1000), Ok((0, 999)));
    assert_eq!(parse_range("bytes=+5-+7", 1000), Ok((5, 7)));
    assert_eq!(parse_range("5-7", 10), Ok((5, 7)));
    assert_eq!(parse_range("bytes=bytes=5-7", 10), Ok((5, 7)));
}

#[test]
fn range_without_dash_or_numbers() {
    assert_eq!(parse_range("bytes=7", 10), Ok((7, 9)));
    assert_eq!(parse_range("bytes=x-y", 10), Ok((0, 9)));
    assert_eq!(parse_range("bytes=2-4-6", 10), Ok((2, 4)));
}

#[test]
fn range_outside_file_is_refused() {
    assert_eq!(parse_range("bytes=10-", 10), Err(RangeError::NotSatisfiable));
    assert_eq!(parse_range("bytes=0-10", 10), Err(RangeError::NotSatisfiable));
    assert_eq!(parse_range("bytes=5-4", 10), Err(RangeError::NotSatisfiable));
    assert_eq!(parse_range("bytes=0-0", 0), Err(RangeError::NotSatisfiable));
    assert_eq!(parse_range("bytes=99999999999999999999-", 10), Ok((0, 9)));
}

#[test]
fn audio_quality_and_format() {
    assert_eq!(AudioQuality::from_param("compressed"), Some(AudioQuality::Compressed));
    assert_eq!(AudioQuality::from_param("lossless"), Some(AudioQuality::Lossless));
    assert_eq!(AudioQuality::from_param("best"), None);
    assert_eq!(AudioQuality::for_stream("best"), AudioQuality::Lossless);
    assert_eq!(AudioQuality::Compressed.extension(), "mp3");
    assert_eq!(AudioQuality::Lossless.extension(), "flac");
    assert_eq!(AudioQuality::Compressed.content_type(), "audio/mpeg");
    assert_eq!(AudioQuality::Lossless.dir_name(), "lossless");
    assert_eq!(download_quality("", "compressed"), None);
    assert_eq!(download_quality("abc", "lossless"), Some(AudioQuality::Lossless));
    assert_eq!(download_quality("abc", "other"), None);
}

#[test]
fn search_url_encodes_query() {
    assert_eq!(search_url_for("a%20b"), "https://api.spotify.com/v1/search?q=a%20b&type=track");
    assert_eq!(
        spotify_search_url("daft punk & co"),
        "https://api.spotify.com/v1/search?q=daft%20punk%20%26%20co&type=track"
    );
}

#[test]
fn session_data_is_found_in_page() {
    let page = "<html><script id=\"session\" data-testid=\"session\" type=\"application/json\">{\"accessToken\":\"t\"}</script></html>";
    assert_eq!(session_json(page), Some("{\"accessToken\":\"t\"}".to_string()));
    assert_eq!(session_json("<html></html>"), None);
}

#[test]
fn token_validity() {
    let mut auth = SpotifyAuth::new();
    assert!(!auth.is_valid(0));
    auth.accept_session("tok".to_string(), "cid".to_string(), 1000);
    assert_eq!(auth.token_expiration_time, Some(4600));
    assert!(auth.is_valid(4599));
    assert!(!auth.is_valid(4600));
    auth.accept_session("tok".to_string(), "cid".to_string(), i64::MAX - 1);
    assert_eq!(auth.token_expiration_time, Some(i64::MAX));
}

#[test]
fn tracks_are_minified() {
    let m = minify_track(track("id1", "Song", 215_999, &["First", "Second"], &["big.jpg", "small.jpg"]));
    assert_eq!(m.artist, "First");
    assert_eq!(m.duration, 215);
    assert_eq!(m.thumbnail_url, "big.jpg");
    assert_eq!(m.title, "Song");
    let m = minify_track(track("id2", "Bare", 999, &[], &[]));
    assert_eq!(m.artist, "");
    assert_eq!(m.duration, 0);
    assert_eq!(m.thumbnail_url, "");
}

#[test]
fn minified_tracks_by_id() {
    let map = minify_tracks(vec![
        track("a", "one", 1000, &["x"], &[]),
        track("b", "two", 2000, &["y"], &[]),
        track("a", "three", 3000, &["z"], &[]),
    ]);
    assert_eq!(map.len(), 2);
    assert_eq!(map.get("a").unwrap().title, "three");
    assert_eq!(map.get("b").unwrap().duration, 2);
}

#[test]
fn image_cache_names() {
    assert_eq!(cache_path_for_hash("abc"), "./cache/images/abc");
    assert_eq!(image_cache_path(""), "./cache/images/d41d8cd98f00b204e9800998ecf8427e");
    assert_eq!(data_uri_for("QQ=="), "data:image/jpeg;base64,QQ==");
    assert_eq!(jpeg_data_uri(&b"abc".to_vec()), "data:image/jpeg;base64,YWJj");
    assert_eq!(jpeg_data_uri(&vec![]), "data:image/jpeg;base64,");
}

#[test]
fn upstream_headers_with_date() {
    let h = headers_with_date(Some("Sun, 06 Nov 1994 08:49:37 GMT".to_string()));
    assert_eq!(h.len(), 15);
    assert_eq!(h[0], ("date".to_string(), "Sun, 06 Nov 1994 08:49:37 GMT".to_string()));
    assert_eq!(h[1], ("content-type".to_string(), "application/json".to_string()));
    assert_eq!(h[14].0, "last-modified");
    assert_eq!(headers_with_date(None).len(), 13);
    let h = request_headers(784111777);
    assert_eq!(h[0], ("date".to_string(), "Sun, 06 Nov 1994 08:49:37 GMT".to_string()));
    assert_eq!(h[13].0, "user-agent");
}

#[test]
fn thumbnail_crop_is_centred_square() {
    assert_eq!(square_crop(1280, 720), (280, 0, 720));
    assert_eq!(square_crop(720, 1280), (0, 280, 720));
    assert_eq!(square_crop(5, 5), (0, 0, 5));
}

#[test]
fn finished_audio_extensions() {
    assert!(is_audio_extension("flac"));
    assert!(is_audio_extension("mp3"));
    assert!(!is_audio_extension("opus"));
    assert!(!is_audio_extension(""));
}
