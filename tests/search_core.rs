use tunes_core::coordinator::{Completion, SearchCacheItem, SearchCoordinator, SearchStart};
use tunes_core::ranking::{sort_and_weight, text_less, WeightTable};
use tunes_core::search::{
    attach_avatar, attach_tracks, filters_to_search, is_json_content_type, merge_responses,
    respond, response_items, response_serves, songs_from_streams, BodyDecode, Filter,
    ListingKind, Mode, SearchError, SearchQuery, UpstreamItem,
};
use tunes_core::store::TextMap;
use tunes_core::text::{extract_id, last_segment_exec, same_text};
use tunes_core::types::{Album, Playlist, SearchResponse, Song};

fn song(id: &str) -> Song {
    Song {
        id: id.to_string(),
        title: format!("title {}", id),
        artist: String::new(),
        artist_cover: String::new(),
        album: String::new(),
        cover: String::new(),
        duration: 0,
    }
}

fn item(url: &str, name: &str) -> UpstreamItem {
    UpstreamItem {
        url: url.to_string(),
        name: name.to_string(),
        title: format!("{} title", name),
        uploader_name: format!("{} uploader", name),
        uploader_url: format!("/channel/UC{}", name),
        thumbnail: format!("https://img/{}.jpg", name),
        artist_cover: format!("https://img/{}-artist.jpg", name),
        duration: 215,
    }
}

fn ids_of(songs: &[Song]) -> Vec<String> {
    songs.iter().map(|s| s.id.clone()).collect()
}

fn query(text: &str, filter: Option<Filter>, mode: Mode) -> SearchQuery {
    SearchQuery { text: text.to_string(), filter, mode }
}

fn full_response() -> SearchResponse {
    let responses = vec![
        (Filter::Albums, vec![item("/playlist?list=OLAK1", "a1")]),
        (Filter::Playlists, vec![item("/playlist?list=PL1", "pl")]),
        (Filter::Songs, vec![item("/watch?v=s1", "s1")]),
    ];
    merge_responses(responses, Mode::Minimal).results
}

#[test]
fn extract_id_from_watch_url() {
    assert_eq!(extract_id("https://music.example/watch?v=abc123"), "abc123");
}

#[test]
fn extract_id_from_playlist_url() {
    assert_eq!(extract_id("https://music.example/playlist?list=xyz789"), "xyz789");
}

#[test]
fn extract_id_from_final_segment() {
    assert_eq!(extract_id("https://music.example/channel/UC42"), "UC42");
    assert_eq!(extract_id("noslash"), "noslash");
    assert_eq!(extract_id("https://music.example/channel/"), "");
}

#[test]
fn extract_id_prefers_list_marker_and_stops_at_next() {
    assert_eq!(extract_id("/watch?v=abc&list=PL9"), "PL9");
    assert_eq!(extract_id("/x?list=one&list=two"), "one&");
    assert_eq!(extract_id("/x?v=one&v=two"), "one&");
}

#[test]
fn last_segment_and_same_text() {
    assert_eq!(last_segment_exec("/channel/UCabc"), "UCabc");
    assert!(same_text("abc", "abc"));
    assert!(!same_text("abc", "abd"));
    assert!(!same_text("abc", "ab"));
}

#[test]
fn text_less_is_lexicographic() {
    assert!(text_less("id1", "id2"));
    assert!(!text_less("id2", "id1"));
    assert!(text_less("id", "id1"));
    assert!(!text_less("id", "id"));
    assert!(text_less("Z", "a"));
}

#[test]
fn ranking_by_weight_then_id() {
    let mut weights: TextMap<u32> = TextMap::new();
    weights.insert("id1".to_string(), 3);
    weights.insert("id2".to_string(), 7);
    let ranked = sort_and_weight(vec![song("id1"), song("id2"), song("id3")], &weights);
    assert_eq!(ids_of(&ranked), vec!["id2", "id1", "id3"]);
}

#[test]
fn ranking_ties_by_ascending_id() {
    let weights: TextMap<u32> = TextMap::new();
    let ranked = sort_and_weight(vec![song("c"), song("a"), song("b")], &weights);
    assert_eq!(ids_of(&ranked), vec!["a", "b", "c"]);
}

#[test]
fn ranking_keeps_order_of_equal_ids() {
    let weights: TextMap<u32> = TextMap::new();
    let mut first = song("x");
    first.title = "first".to_string();
    let mut second = song("x");
    second.title = "second".to_string();
    let ranked = sort_and_weight(vec![first, song("a"), second], &weights);
    assert_eq!(ids_of(&ranked), vec!["a", "x", "x"]);
    assert_eq!(ranked[1].title, "first");
    assert_eq!(ranked[2].title, "second");
}

#[test]
fn ranking_empty_list() {
    let weights: TextMap<u32> = TextMap::new();
    assert!(sort_and_weight(Vec::<Song>::new(), &weights).is_empty());
}

#[test]
fn weight_table_counts_selections() {
    let mut table = WeightTable::new();
    assert!(table.query_weights("queryX").is_none());
    table.record_selection("queryX".to_string(), "id1".to_string());
    table.record_selection("queryX".to_string(), "id1".to_string());
    table.record_selection("queryX".to_string(), "id2".to_string());
    let w = table.query_weights("queryX").unwrap();
    assert_eq!(w.get("id1"), Some(&2));
    assert_eq!(w.get("id2"), Some(&1));
    assert_eq!(w.get("id3"), None);
    assert!(table.query_weights("other").is_none());
}

#[test]
fn weight_table_ranks_query_results() {
    let mut table = WeightTable::new();
    for _ in 0..3 {
        table.record_selection("queryX".to_string(), "id1".to_string());
    }
    for _ in 0..7 {
        table.record_selection("queryX".to_string(), "id2".to_string());
    }
    let mut results = SearchResponse::empty();
    results.songs = vec![song("id1"), song("id2"), song("id3")];
    let out = respond(results, table.query_weights("queryX"), None);
    assert_eq!(ids_of(&out.songs), vec!["id2", "id1", "id3"]);
}

#[test]
fn weight_table_from_entries_keeps_last() {
    let table = WeightTable::from_entries(vec![
        ("q".to_string(), vec![("a".to_string(), 1), ("a".to_string(), 5)]),
    ]);
    assert_eq!(table.query_weights("q").unwrap().get("a"), Some(&5));
}

#[test]
fn filters_and_modes() {
    assert_eq!(filters_to_search(None), vec![Filter::Albums, Filter::Playlists, Filter::Songs]);
    assert_eq!(filters_to_search(Some(Filter::Songs)), vec![Filter::Songs]);
    assert_eq!(Filter::from_name("playlists"), Some(Filter::Playlists));
    assert_eq!(Filter::from_name("videos"), None);
    assert_eq!(Filter::Albums.upstream_name(), "music_albums");
    assert_eq!(Filter::Songs.name(), "songs");
    assert_eq!(Mode::from_param(Some("minimal")), Mode::Minimal);
    assert_eq!(Mode::from_param(Some("full")), Mode::Full);
    assert_eq!(Mode::from_param(None), Mode::Full);
}

#[test]
fn content_type_check() {
    assert!(is_json_content_type("application/json"));
    assert!(is_json_content_type("application/json; charset=utf-8"));
    assert!(!is_json_content_type("text/html"));
    assert!(!is_json_content_type(""));
}

#[test]
fn non_json_response_counts_as_no_items() {
    let r = response_items("text/html", BodyDecode::Unparsable);
    assert!(matches!(r, Ok(ref v) if v.is_empty()));
}

#[test]
fn corrupt_json_fails_the_search() {
    let r = response_items("application/json", BodyDecode::Unparsable);
    assert!(matches!(r, Err(SearchError::MalformedJson)));
    let r = response_items("application/json", BodyDecode::NoItems);
    assert!(matches!(r, Ok(ref v) if v.is_empty()));
    let r = response_items("application/json", BodyDecode::Items(vec![item("/watch?v=a", "a")]));
    assert!(matches!(r, Ok(ref v) if v.len() == 1));
}

#[test]
fn merge_maps_items_and_drops_missing_ids() {
    let responses = vec![
        (Filter::Albums, vec![item("/playlist?list=OLAK1", "a1"), item("/channel/", "bad")]),
        (Filter::Songs, vec![item("/watch?v=s1", "s1")]),
        (Filter::Playlists, vec![item("/playlist?list=PL1", "pl")]),
    ];
    let m = merge_responses(responses, Mode::Full);
    assert_eq!(m.results.albums.len(), 1);
    let a = &m.results.albums[0];
    assert_eq!(a.id, "OLAK1");
    assert_eq!(a.name, "a1");
    assert_eq!(a.artist, "a1 uploader");
    assert_eq!(a.artist_cover, "");
    assert_eq!(a.cover, "https://img/a1.jpg");
    let p = &m.results.playlists[0];
    assert_eq!(p.id, "PL1");
    assert_eq!(p.artist_cover, "https://img/pl-artist.jpg");
    let s = &m.results.songs[0];
    assert_eq!(s.id, "s1");
    assert_eq!(s.title, "s1 title");
    assert_eq!(s.duration, 215);
    let tracks: Vec<(String, ListingKind)> = m.tracks.iter().map(|t| (t.id.clone(), t.kind)).collect();
    assert_eq!(tracks, vec![("OLAK1".to_string(), ListingKind::Album), ("PL1".to_string(), ListingKind::Playlist)]);
    assert_eq!(m.avatars.len(), 1);
    assert_eq!(m.avatars[0].album_id, "OLAK1");
    assert_eq!(m.avatars[0].channel_id, "UCa1");
}

#[test]
fn minimal_merge_requests_nothing_more() {
    let responses = vec![(Filter::Albums, vec![item("/playlist?list=OLAK1", "a1")])];
    let m = merge_responses(responses, Mode::Minimal);
    assert_eq!(m.results.albums.len(), 1);
    assert!(m.tracks.is_empty());
    assert!(m.avatars.is_empty());
}

#[test]
fn track_listing_songs() {
    let streams = vec![item("/watch?v=t1", "t1"), item("/watch?v=t2", "t2")];
    let songs = songs_from_streams(ListingKind::Album, "Album Name", streams);
    assert_eq!(ids_of(&songs), vec!["t1", "t2"]);
    assert_eq!(songs[0].album, "Album Name");
    assert_eq!(songs[0].artist_cover, "");
    let songs = songs_from_streams(ListingKind::Playlist, "Mix", vec![item("", "gone"), item("/watch?v=t3", "t3")]);
    assert_eq!(songs.len(), 1);
    assert_eq!(songs[0].album, "");
    assert_eq!(songs[0].title, "t3 title");
}

#[test]
fn attaching_secondary_results() {
    let mut results = full_response();
    attach_tracks(&mut results, ListingKind::Album, "OLAK1", vec![song("t1")]);
    assert_eq!(ids_of(&results.albums[0].songs), vec!["t1"]);
    attach_tracks(&mut results, ListingKind::Playlist, "PL1", vec![song("t2"), song("t3")]);
    assert_eq!(ids_of(&results.playlists[0].songs), vec!["t2", "t3"]);
    attach_tracks(&mut results, ListingKind::Album, "missing", vec![song("t9")]);
    assert_eq!(results.albums[0].songs.len(), 1);
    attach_avatar(&mut results, "OLAK1", "https://img/avatar.jpg".to_string());
    assert_eq!(results.albums[0].artist_cover, "https://img/avatar.jpg");
}

#[test]
fn respond_scopes_to_filter() {
    let out = respond(full_response(), None, Some(Filter::Playlists));
    assert!(out.albums.is_empty());
    assert_eq!(out.playlists.len(), 1);
    assert!(out.songs.is_empty());
    let out = respond(full_response(), None, None);
    assert_eq!((out.albums.len(), out.playlists.len(), out.songs.len()), (1, 1, 1));
}

#[test]
fn serving_needs_every_requested_category() {
    let r = full_response();
    assert!(response_serves(&r, &filters_to_search(None)));
    let mut r2 = full_response();
    r2.playlists.clear();
    assert!(!response_serves(&r2, &filters_to_search(None)));
    assert!(response_serves(&r2, &filters_to_search(Some(Filter::Songs))));
}

#[test]
fn repeat_search_is_served_from_cache() {
    let mut c = SearchCoordinator::new();
    let q = query("queryX", None, Mode::Full);
    let ticket = match c.begin(&q) {
        SearchStart::Fetch(t) => t,
        SearchStart::Cached(_) => panic!("empty cache answered"),
    };
    assert_eq!(ticket.filters, vec![Filter::Albums, Filter::Playlists, Filter::Songs]);
    assert!(c.is_current(&ticket));
    match c.finish(ticket, full_response(), 1_700_000_000) {
        Completion::Done(r) => assert_eq!(r.albums.len(), 1),
        Completion::Superseded => panic!("superseded"),
    }
    match c.begin(&q) {
        SearchStart::Cached(r) => {
            assert_eq!(r.albums[0].id, "OLAK1");
            assert_eq!(r.playlists[0].id, "PL1");
            assert_eq!(r.songs[0].id, "s1");
        }
        SearchStart::Fetch(_) => panic!("expected a cache hit"),
    }
    let stored: &SearchCacheItem = c.cache().get("queryX").unwrap();
    assert_eq!(stored.timestamp, 1_700_000_000);
}

#[test]
fn empty_category_is_fetched_again() {
    let mut c = SearchCoordinator::new();
    let t = match c.begin(&query("q", None, Mode::Full)) {
        SearchStart::Fetch(t) => t,
        SearchStart::Cached(_) => panic!("empty cache answered"),
    };
    let mut r = full_response();
    r.playlists.clear();
    assert!(matches!(c.finish(t, r, 5), Completion::Done(_)));
    assert!(matches!(c.begin(&query("q", Some(Filter::Playlists), Mode::Full)), SearchStart::Fetch(_)));
    assert!(matches!(c.begin(&query("q", Some(Filter::Songs), Mode::Full)), SearchStart::Cached(_)));
}

#[test]
fn newer_search_supersedes_older() {
    let mut c = SearchCoordinator::new();
    let a = match c.begin(&query("A", None, Mode::Full)) {
        SearchStart::Fetch(t) => t,
        SearchStart::Cached(_) => panic!("empty cache answered"),
    };
    let b = match c.begin(&query("B", None, Mode::Full)) {
        SearchStart::Fetch(t) => t,
        SearchStart::Cached(_) => panic!("empty cache answered"),
    };
    assert!(!c.is_current(&a));
    assert!(c.is_current(&b));
    assert!(matches!(c.finish(a, full_response(), 1), Completion::Superseded));
    assert!(matches!(c.finish(b, full_response(), 2), Completion::Done(_)));
    assert!(c.cache().get("A").is_none());
    assert_eq!(c.cache().get("B").unwrap().timestamp, 2);
    assert_eq!(c.cache().len(), 1);
}

#[test]
fn coordinator_loads_persisted_entries() {
    let item = SearchCacheItem { results: full_response(), timestamp: 9 };
    let mut c = SearchCoordinator::from_entries(vec![("saved".to_string(), item)]);
    assert!(matches!(c.begin(&query("saved", None, Mode::Minimal)), SearchStart::Cached(_)));
}

#[test]
fn albums_and_playlists_clone() {
    let a = Album {
        id: "a".to_string(),
        name: "n".to_string(),
        artist: String::new(),
        artist_cover: String::new(),
        cover: String::new(),
        songs: vec![song("t")],
    };
    let b = a.clone();
    assert_eq!(b.songs[0].id, "t");
    let p = Playlist {
        id: "p".to_string(),
        name: "n".to_string(),
        artist: String::new(),
        artist_cover: String::new(),
        cover: String::new(),
        songs: vec![],
    };
    assert_eq!(p.clone().id, "p");
}
