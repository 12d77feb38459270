//! The decisions of a search: which categories to query, how an upstream
//! response is read, how items become results, which secondary lookups a
//! full search makes and where their answers go, and how the response is
//! ranked and scoped.

use vstd::prelude::*;
use crate::ranking::{is_ranked, same_results_in_order, sort_and_weight};
use crate::store::TextMap;
use crate::text::{extract_id, id_from_url, last_segment, last_segment_exec, occurs_at, same_text, matches_at};
use crate::types::{
    albums_view, playlists_view, songs_view, Album, CollectionView, Playlist, SearchResponse,
    SearchResponseView, Song, SongView,
};

verus! {

/// A content category that scopes a search.
#[derive(Clone, Copy, Debug, PartialEq, Eq, Structural)]
pub enum Filter {
    Albums,
    Playlists,
    Songs,
}

/// Whether a search enriches albums and playlists with their tracks.
#[derive(Clone, Copy, Debug, PartialEq, Eq, Structural)]
pub enum Mode {
    Full,
    Minimal,
}

/// The kind of listing whose tracks are fetched.
#[derive(Clone, Copy, Debug, PartialEq, Eq, Structural)]
pub enum ListingKind {
    Album,
    Playlist,
}

/// Why a search failed.
#[derive(Clone, Copy, Debug, PartialEq, Eq, Structural)]
pub enum SearchError {
    /// No upstream instance has been selected yet.
    NoInstance,
    /// A response declared as JSON did not parse.
    MalformedJson,
}

/// A search request.
pub struct SearchQuery {
    pub text: String,
    pub filter: Option<Filter>,
    pub mode: Mode,
}

/// One item of an upstream listing, its fields read with empty or zero
/// defaults.
pub struct UpstreamItem {
    pub url: String,
    pub name: String,
    pub title: String,
    pub uploader_name: String,
    pub uploader_url: String,
    pub thumbnail: String,
    pub artist_cover: String,
    pub duration: i64,
}

/// What the body of an upstream search response decoded to.
pub enum BodyDecode {
    /// The body is not valid JSON.
    Unparsable,
    /// The body is JSON without an `items` array: no items.
    NoItems,
    /// The items of the `items` array.
    Items(Vec<UpstreamItem>),
}

pub open spec fn filter_name(f: Filter) -> Seq<char> {
    match f {
        Filter::Albums => "albums"@,
        Filter::Playlists => "playlists"@,
        Filter::Songs => "songs"@,
    }
}

pub open spec fn upstream_filter_name(f: Filter) -> Seq<char> {
    match f {
        Filter::Albums => "music_albums"@,
        Filter::Playlists => "music_playlists"@,
        Filter::Songs => "music_songs"@,
    }
}

impl Filter {
    /// The category named `name` (`albums`, `playlists` or `songs`).
    pub fn from_name(name: &str) -> (r: Option<Filter>)
        ensures
            r == if name@ == filter_name(Filter::Albums) {
                Some(Filter::Albums)
            } else if name@ == filter_name(Filter::Playlists) {
                Some(Filter::Playlists)
            } else if name@ == filter_name(Filter::Songs) {
                Some(Filter::Songs)
            } else {
                None
            },
    {
        if same_text(name, "albums") {
            Some(Filter::Albums)
        } else if same_text(name, "playlists") {
            Some(Filter::Playlists)
        } else if same_text(name, "songs") {
            Some(Filter::Songs)
        } else {
            None
        }
    }

    /// The category's own name.
    pub fn name(&self) -> (r: &'static str)
        ensures
            r@ == filter_name(*self),
    {
        match self {
            Filter::Albums => "albums",
            Filter::Playlists => "playlists",
            Filter::Songs => "songs",
        }
    }

    /// The name the upstream search API takes for the category.
    pub fn upstream_name(&self) -> (r: &'static str)
        ensures
            r@ == upstream_filter_name(*self),
    {
        match self {
            Filter::Albums => "music_albums",
            Filter::Playlists => "music_playlists",
            Filter::Songs => "music_songs",
        }
    }
}

impl Mode {
    /// The mode a request asks for: minimal only when it says `minimal`.
    pub fn from_param(param: Option<&str>) -> (r: Mode)
        ensures
            r == match param {
                Some(p) => if p@ == "minimal"@ {
                    Mode::Minimal
                } else {
                    Mode::Full
                },
                None => Mode::Full,
            },
    {
        match param {
            Some(p) => if same_text(p, "minimal") {
                Mode::Minimal
            } else {
                Mode::Full
            },
            None => Mode::Full,
        }
    }
}

/// The categories a search queries: the requested one, or all three.
pub open spec fn filters_for(filter: Option<Filter>) -> Seq<Filter> {
    match filter {
        Some(f) => seq![f],
        None => seq![Filter::Albums, Filter::Playlists, Filter::Songs],
    }
}

/// The categories a search queries: the requested one, or all three.
pub fn filters_to_search(filter: Option<Filter>) -> (r: Vec<Filter>)
    ensures
        r@ == filters_for(filter),
{
    let r = match filter {
        Some(f) => vec![f],
        None => vec![Filter::Albums, Filter::Playlists, Filter::Songs],
    };
    assert(r@ =~= filters_for(filter));
    r
}

/// The list of category `f` in a response is non-empty.
pub open spec fn has_items(r: SearchResponseView, f: Filter) -> bool {
    match f {
        Filter::Albums => r.albums.len() > 0,
        Filter::Playlists => r.playlists.len() > 0,
        Filter::Songs => r.songs.len() > 0,
    }
}

/// A stored response serves a request for `filters` only when each of those
/// categories holds at least one item.
pub open spec fn serves(r: SearchResponseView, filters: Seq<Filter>) -> bool {
    forall|i: int| 0 <= i < filters.len() ==> has_items(r, #[trigger] filters[i])
}

/// Whether a stored response serves a request for `filters`.
pub fn response_serves(r: &SearchResponse, filters: &Vec<Filter>) -> (b: bool)
    ensures
        b == serves(r@, filters@),
{
    let mut i: usize = 0;
    while i < filters.len()
        invariant
            i <= filters@.len(),
            forall|j: int| 0 <= j < i ==> has_items(r@, #[trigger] filters@[j]),
        decreases filters@.len() - i,
    {
        let ok = match filters[i] {
            Filter::Albums => r.albums.len() > 0,
            Filter::Playlists => r.playlists.len() > 0,
            Filter::Songs => r.songs.len() > 0,
        };
        if !ok {
            return false;
        }
        i = i + 1;
    }
    true
}

pub open spec fn json_media_type() -> Seq<char> {
    "application/json"@
}

/// Whether a content type declares JSON.
pub fn is_json_content_type(content_type: &str) -> (r: bool)
    ensures
        r == occurs_at(content_type@, json_media_type(), 0),
{
    matches_at(content_type, "application/json", 0)
}

/// The items of one category's upstream response. A body that is not
/// declared as JSON, or JSON without an `items` array, counts as no items;
/// one declared as JSON that does not parse fails the search.
pub fn response_items(content_type: &str, body: BodyDecode) -> (r: Result<Vec<UpstreamItem>, SearchError>)
    ensures
        !occurs_at(content_type@, json_media_type(), 0) ==> (r matches Ok(v) && v@.len() == 0),
        occurs_at(content_type@, json_media_type(), 0) ==> match body {
            BodyDecode::Unparsable => r == Err::<Vec<UpstreamItem>, SearchError>(SearchError::MalformedJson),
            BodyDecode::NoItems => (r matches Ok(v) && v@.len() == 0),
            BodyDecode::Items(items) => (r matches Ok(v) && v@ == items@),
        },
{
    if !is_json_content_type(content_type) {
        return Ok(Vec::new());
    }
    match body {
        BodyDecode::Unparsable => Err(SearchError::MalformedJson),
        BodyDecode::NoItems => Ok(Vec::new()),
        BodyDecode::Items(items) => Ok(items),
    }
}

/// An item has a usable id.
pub open spec fn has_id(it: UpstreamItem) -> bool {
    id_from_url(it.url@).len() > 0
}

/// The album an upstream item stands for.
pub open spec fn album_of(it: UpstreamItem) -> CollectionView {
    CollectionView {
        id: id_from_url(it.url@),
        name: it.name@,
        artist: it.uploader_name@,
        artist_cover: Seq::empty(),
        cover: it.thumbnail@,
        songs: Seq::empty(),
    }
}

/// The playlist an upstream item stands for.
pub open spec fn playlist_of(it: UpstreamItem) -> CollectionView {
    CollectionView {
        id: id_from_url(it.url@),
        name: it.name@,
        artist: it.uploader_name@,
        artist_cover: it.artist_cover@,
        cover: it.thumbnail@,
        songs: Seq::empty(),
    }
}

/// The song an upstream item stands for; its duration truncated to 32 bits.
pub open spec fn song_of(it: UpstreamItem) -> SongView {
    SongView {
        id: id_from_url(it.url@),
        title: it.title@,
        artist: it.uploader_name@,
        artist_cover: it.artist_cover@,
        album: Seq::empty(),
        cover: it.thumbnail@,
        duration: #[verifier::truncate] (it.duration as i32),
    }
}

/// The items of `s` that have a usable id.
pub open spec fn with_usable_id(s: Seq<UpstreamItem>) -> Seq<UpstreamItem> {
    s.filter(|it: UpstreamItem| has_id(it))
}

/// What a full search looks up for each album it found: the uploader's
/// avatar, by channel id.
pub struct AvatarRequest {
    pub album_id: String,
    pub channel_id: String,
}

/// A listing whose tracks a full search fetches.
pub struct TrackRequest {
    pub id: String,
    pub kind: ListingKind,
}

/// The merged results of one search, with the secondary lookups that a full
/// search makes.
pub struct Merged {
    pub results: SearchResponse,
    pub tracks: Vec<TrackRequest>,
    pub avatars: Vec<AvatarRequest>,
}

/// The results that the items of a category's response add to `r`.
pub open spec fn add_items(r: SearchResponseView, f: Filter, items: Seq<UpstreamItem>) -> SearchResponseView {
    let kept = with_usable_id(items);
    match f {
        Filter::Albums => SearchResponseView { albums: r.albums + kept.map_values(|it: UpstreamItem| album_of(it)), ..r },
        Filter::Playlists => SearchResponseView { playlists: r.playlists + kept.map_values(|it: UpstreamItem| playlist_of(it)), ..r },
        Filter::Songs => SearchResponseView { songs: r.songs + kept.map_values(|it: UpstreamItem| song_of(it)), ..r },
    }
}

pub open spec fn empty_view() -> SearchResponseView {
    SearchResponseView { albums: Seq::empty(), playlists: Seq::empty(), songs: Seq::empty() }
}

/// The results of a sequence of category responses, in order.
pub open spec fn merged_view(rs: Seq<(Filter, Vec<UpstreamItem>)>) -> SearchResponseView
    decreases rs.len(),
{
    if rs.len() == 0 {
        empty_view()
    } else {
        add_items(merged_view(rs.drop_last()), rs.last().0, rs.last().1@)
    }
}

/// The avatar lookup for an album item: its id and its uploader's channel id.
pub open spec fn avatar_of(it: UpstreamItem) -> (Seq<char>, Seq<char>) {
    (id_from_url(it.url@), last_segment(it.uploader_url@))
}

pub open spec fn avatars_view(v: Seq<AvatarRequest>) -> Seq<(Seq<char>, Seq<char>)> {
    v.map_values(|a: AvatarRequest| (a.album_id@, a.channel_id@))
}

pub open spec fn tracks_view(v: Seq<TrackRequest>) -> Seq<(Seq<char>, ListingKind)> {
    v.map_values(|t: TrackRequest| (t.id@, t.kind))
}

/// The avatar lookups for the albums among a category's items.
pub open spec fn avatars_for(f: Filter, items: Seq<UpstreamItem>) -> Seq<(Seq<char>, Seq<char>)> {
    if f == Filter::Albums {
        with_usable_id(items).map_values(|it: UpstreamItem| avatar_of(it))
    } else {
        Seq::empty()
    }
}

/// The avatar lookups for the albums of a sequence of category responses.
pub open spec fn merged_avatars(rs: Seq<(Filter, Vec<UpstreamItem>)>) -> Seq<(Seq<char>, Seq<char>)>
    decreases rs.len(),
{
    if rs.len() == 0 {
        Seq::empty()
    } else {
        merged_avatars(rs.drop_last()) + avatars_for(rs.last().0, rs.last().1@)
    }
}

/// The track listings for the albums, then the playlists, of a response.
pub open spec fn track_lookups(r: SearchResponseView) -> Seq<(Seq<char>, ListingKind)> {
    r.albums.map_values(|a: CollectionView| (a.id, ListingKind::Album)) + r.playlists.map_values(
        |p: CollectionView| (p.id, ListingKind::Playlist),
    )
}

proof fn lemma_usable_push(s: Seq<UpstreamItem>, x: UpstreamItem)
    ensures
        with_usable_id(s.push(x)) == if has_id(x) {
            with_usable_id(s).push(x)
        } else {
            with_usable_id(s)
        },
{
    reveal(Seq::filter);
    assert(s.push(x).drop_last() =~= s);
}

/// Adds the results of one category's items to `results`, and for albums
/// of a full search the avatar lookups.
fn add_response(
    results: &mut SearchResponse,
    avatars: &mut Vec<AvatarRequest>,
    f: Filter,
    items: Vec<UpstreamItem>,
    full: bool,
)
    ensures
        final(results)@ == add_items(old(results)@, f, items@),
        avatars_view(final(avatars)@) == avatars_view(old(avatars)@) + if full {
            avatars_for(f, items@)
        } else {
            Seq::empty()
        },
{
    let ghost r0 = results@;
    let ghost a0 = avatars_view(avatars@);
    let ghost all = items@;
    let n = items.len();
    let mut rest = items;
    assert(all.subrange(0, 0) =~= Seq::<UpstreamItem>::empty());
    proof {
        reveal(Seq::filter);
        assert(add_items(r0, f, Seq::empty()) =~= r0);
        assert(avatars_for(f, Seq::empty()) =~= Seq::empty());
    }
    assert(a0 + Seq::<(Seq<char>, Seq<char>)>::empty() =~= a0);
    while rest.len() > 0
        invariant
            n == all.len(),
            rest.len() <= n,
            rest@ == all.subrange(n - rest.len(), n as int),
            results@ == add_items(r0, f, all.subrange(0, n - rest.len())),
            avatars_view(avatars@) == a0 + if full {
                avatars_for(f, all.subrange(0, n - rest.len()))
            } else {
                Seq::empty()
            },
        decreases rest.len(),
    {
        let ghost done = n - rest.len();
        let it = rest.remove(0);
        assert(it == all[done]);
        assert(rest@ =~= all.subrange(n - rest.len(), n as int));
        let ghost prev = all.subrange(0, done);
        assert(all.subrange(0, done + 1) =~= prev.push(it));
        proof {
            lemma_usable_push(prev, it);
        }
        let ghost kept_prev = with_usable_id(prev);
        let id = extract_id(it.url.as_str());
        if id.unicode_len() > 0 {
            assert(with_usable_id(prev.push(it)) == kept_prev.push(it));
            match f {
                Filter::Albums => {
                    if full {
                        let channel_id = last_segment_exec(it.uploader_url.as_str());
                        let ghost av_before = avatars@;
                        avatars.push(AvatarRequest { album_id: id.clone(), channel_id });
                        assert(avatars_view(avatars@) =~= avatars_view(av_before).push(avatar_of(it)));
                    }
                    let ghost before = results.albums@;
                    let album = Album {
                        id,
                        name: it.name,
                        artist: it.uploader_name,
                        artist_cover: String::new(),
                        cover: it.thumbnail,
                        songs: Vec::new(),
                    };
                    assert(songs_view(album.songs@) =~= Seq::<SongView>::empty());
                    assert(album@ == album_of(it));
                    results.albums.push(album);
                    assert(albums_view(results.albums@) =~= albums_view(before).push(album_of(it)));
                    assert(kept_prev.push(it).map_values(|x: UpstreamItem| album_of(x))
                        =~= kept_prev.map_values(|x: UpstreamItem| album_of(x)).push(album_of(it)));
                    assert(kept_prev.push(it).map_values(|x: UpstreamItem| avatar_of(x))
                        =~= kept_prev.map_values(|x: UpstreamItem| avatar_of(x)).push(avatar_of(it)));
                    assert(a0 + kept_prev.push(it).map_values(|x: UpstreamItem| avatar_of(x)) =~= (a0
                        + kept_prev.map_values(|x: UpstreamItem| avatar_of(x))).push(avatar_of(it)));
                },
                Filter::Playlists => {
                    let ghost before = results.playlists@;
                    let playlist = Playlist {
                        id,
                        name: it.name,
                        artist: it.uploader_name,
                        artist_cover: it.artist_cover,
                        cover: it.thumbnail,
                        songs: Vec::new(),
                    };
                    assert(songs_view(playlist.songs@) =~= Seq::<SongView>::empty());
                    results.playlists.push(playlist);
                    assert(playlists_view(results.playlists@) =~= playlists_view(before).push(playlist_of(it)));
                    assert(kept_prev.push(it).map_values(|x: UpstreamItem| playlist_of(x))
                        =~= kept_prev.map_values(|x: UpstreamItem| playlist_of(x)).push(playlist_of(it)));
                },
                Filter::Songs => {
                    let ghost before = results.songs@;
                    results.songs.push(
                        Song {
                            id,
                            title: it.title,
                            artist: it.uploader_name,
                            artist_cover: it.artist_cover,
                            album: String::new(),
                            cover: it.thumbnail,
                            duration: #[verifier::truncate] (it.duration as i32),
                        },
                    );
                    assert(songs_view(results.songs@) =~= songs_view(before).push(song_of(it)));
                    assert(kept_prev.push(it).map_values(|x: UpstreamItem| song_of(x))
                        =~= kept_prev.map_values(|x: UpstreamItem| song_of(x)).push(song_of(it)));
                },
            }
        } else {
            assert(with_usable_id(prev.push(it)) == kept_prev);
        }
    }
    assert(all.subrange(0, n as int) =~= all);
}

/// Merges the items of each category's response, in order, into one
/// response; items without a usable id are dropped. A full search also
/// lists the track listings to fetch (every album, then every playlist) and
/// the avatar lookups (one per album).
pub fn merge_responses(responses: Vec<(Filter, Vec<UpstreamItem>)>, mode: Mode) -> (m: Merged)
    ensures
        m.results@ == merged_view(responses@),
        tracks_view(m.tracks@) == if mode == Mode::Full {
            track_lookups(m.results@)
        } else {
            Seq::empty()
        },
        avatars_view(m.avatars@) == if mode == Mode::Full {
            merged_avatars(responses@)
        } else {
            Seq::empty()
        },
{
    let full = mode == Mode::Full;
    let ghost all = responses@;
    let n = responses.len();
    let mut rest = responses;
    let mut results = SearchResponse::empty();
    let mut avatars: Vec<AvatarRequest> = Vec::new();
    assert(all.subrange(0, 0) =~= Seq::<(Filter, Vec<UpstreamItem>)>::empty());
    assert(results@.albums =~= Seq::<CollectionView>::empty());
    assert(results@.playlists =~= Seq::<CollectionView>::empty());
    assert(results@.songs =~= Seq::<SongView>::empty());
    assert(avatars_view(avatars@) =~= Seq::empty());
    while rest.len() > 0
        invariant
            full == (mode == Mode::Full),
            n == all.len(),
            rest.len() <= n,
            rest@ == all.subrange(n - rest.len(), n as int),
            results@ == merged_view(all.subrange(0, n - rest.len())),
            avatars_view(avatars@) == if full {
                merged_avatars(all.subrange(0, n - rest.len()))
            } else {
                Seq::empty()
            },
        decreases rest.len(),
    {
        let ghost done = n - rest.len();
        let (f, items) = rest.remove(0);
        assert((f, items) == all[done]);
        assert(rest@ =~= all.subrange(n - rest.len(), n as int));
        let ghost prev = all.subrange(0, done);
        assert(all.subrange(0, done + 1).drop_last() =~= prev);
        assert(all.subrange(0, done + 1).last() == (f, items));
        let ghost a_before = avatars_view(avatars@);
        add_response(&mut results, &mut avatars, f, items, full);
        assert(a_before + Seq::<(Seq<char>, Seq<char>)>::empty() =~= a_before);
    }
    assert(all.subrange(0, n as int) =~= all);
    let mut tracks: Vec<TrackRequest> = Vec::new();
    let ghost la = albums_view(results.albums@).map_values(|a: CollectionView| (a.id, ListingKind::Album));
    let ghost lp = playlists_view(results.playlists@).map_values(
        |p: CollectionView| (p.id, ListingKind::Playlist),
    );
    if full {
        for i in 0..results.albums.len()
            invariant
                la == albums_view(results.albums@).map_values(|a: CollectionView| (a.id, ListingKind::Album)),
                tracks_view(tracks@) == la.subrange(0, i as int),
        {
            let ghost before = tracks@;
            tracks.push(TrackRequest { id: results.albums[i].id.clone(), kind: ListingKind::Album });
            assert(tracks_view(tracks@) =~= tracks_view(before).push(
                (results.albums@[i as int].id@, ListingKind::Album),
            ));
            assert(la[i as int] == (results.albums@[i as int].id@, ListingKind::Album));
            assert(tracks_view(tracks@) =~= la.subrange(0, i + 1));
        }
        assert(la.subrange(0, la.len() as int) =~= la);
        for i in 0..results.playlists.len()
            invariant
                lp == playlists_view(results.playlists@).map_values(
                    |p: CollectionView| (p.id, ListingKind::Playlist),
                ),
                tracks_view(tracks@) == la + lp.subrange(0, i as int),
        {
            let ghost before = tracks@;
            tracks.push(TrackRequest { id: results.playlists[i].id.clone(), kind: ListingKind::Playlist });
            assert(tracks_view(tracks@) =~= tracks_view(before).push(
                (results.playlists@[i as int].id@, ListingKind::Playlist),
            ));
            assert(lp[i as int] == (results.playlists@[i as int].id@, ListingKind::Playlist));
            assert(tracks_view(tracks@) =~= la + lp.subrange(0, i + 1));
        }
        assert(lp.subrange(0, lp.len() as int) =~= lp);
    } else {
        assert(tracks_view(tracks@) =~= Seq::empty());
    }
    Merged { results, tracks, avatars }
}

/// A track of an album or playlist listing; only an album's tracks carry
/// the listing's name as their album.
pub open spec fn track_of(kind: ListingKind, listing_name: Seq<char>, it: UpstreamItem) -> SongView {
    SongView {
        id: id_from_url(it.url@),
        title: it.title@,
        artist: it.uploader_name@,
        artist_cover: Seq::empty(),
        album: if kind == ListingKind::Album {
            listing_name
        } else {
            Seq::empty()
        },
        cover: it.thumbnail@,
        duration: #[verifier::truncate] (it.duration as i32),
    }
}

/// The tracks of an album or playlist listing named `listing_name`, one per
/// stream with a usable id, in order; streams without one are dropped.
pub fn songs_from_streams(kind: ListingKind, listing_name: &str, streams: Vec<UpstreamItem>) -> (r: Vec<Song>)
    ensures
        songs_view(r@) == with_usable_id(streams@).map_values(
            |it: UpstreamItem| track_of(kind, listing_name@, it),
        ),
{
    let ghost all = streams@;
    let n = streams.len();
    let mut rest = streams;
    let mut r: Vec<Song> = Vec::new();
    assert(all.subrange(0, 0) =~= Seq::<UpstreamItem>::empty());
    proof {
        reveal(Seq::filter);
    }
    assert(songs_view(r@) =~= with_usable_id(all.subrange(0, 0)).map_values(
        |it: UpstreamItem| track_of(kind, listing_name@, it),
    ));
    while rest.len() > 0
        invariant
            n == all.len(),
            rest.len() <= n,
            rest@ == all.subrange(n - rest.len(), n as int),
            songs_view(r@) == with_usable_id(all.subrange(0, n - rest.len())).map_values(
                |it: UpstreamItem| track_of(kind, listing_name@, it),
            ),
        decreases rest.len(),
    {
        let ghost done = n - rest.len();
        let it = rest.remove(0);
        assert(it == all[done]);
        assert(rest@ =~= all.subrange(n - rest.len(), n as int));
        let ghost prev = all.subrange(0, done);
        assert(all.subrange(0, done + 1) =~= prev.push(it));
        proof {
            lemma_usable_push(prev, it);
        }
        let ghost kept_prev = with_usable_id(prev);
        let id = extract_id(it.url.as_str());
        if id.unicode_len() > 0 {
            let album = if kind == ListingKind::Album {
                String::from_str(listing_name)
            } else {
                String::new()
            };
            let song = Song {
                id,
                title: it.title,
                artist: it.uploader_name,
                artist_cover: String::new(),
                album,
                cover: it.thumbnail,
                duration: #[verifier::truncate] (it.duration as i32),
            };
            let ghost before = r@;
            r.push(song);
            assert(songs_view(r@) =~= songs_view(before).push(track_of(kind, listing_name@, it)));
            assert(kept_prev.push(it).map_values(|x: UpstreamItem| track_of(kind, listing_name@, x))
                =~= kept_prev.map_values(|x: UpstreamItem| track_of(kind, listing_name@, x)).push(
                track_of(kind, listing_name@, it),
            ));
        }
    }
    assert(all.subrange(0, n as int) =~= all);
    r
}

/// Index of the first listing with id `id` at or after `k`; `-1` if none.
pub open spec fn first_with_id(s: Seq<CollectionView>, id: Seq<char>, k: int) -> int
    decreases s.len() - k,
{
    if k < 0 || k >= s.len() {
        -1
    } else if s[k].id == id {
        k
    } else {
        first_with_id(s, id, k + 1)
    }
}

/// A listing with its tracks replaced.
pub open spec fn with_songs(c: CollectionView, songs: Seq<SongView>) -> CollectionView {
    CollectionView { songs, ..c }
}

/// A listing with its artist cover replaced.
pub open spec fn with_artist_cover(c: CollectionView, cover: Seq<char>) -> CollectionView {
    CollectionView { artist_cover: cover, ..c }
}

/// `s` with the tracks of its first listing with id `id` set to `songs`.
pub open spec fn set_songs(s: Seq<CollectionView>, id: Seq<char>, songs: Seq<SongView>) -> Seq<CollectionView> {
    let p = first_with_id(s, id, 0);
    if p < 0 {
        s
    } else {
        s.update(p, with_songs(s[p], songs))
    }
}

/// `s` with the artist cover of its first listing with id `id` set to `cover`.
pub open spec fn set_artist_cover(s: Seq<CollectionView>, id: Seq<char>, cover: Seq<char>) -> Seq<CollectionView> {
    let p = first_with_id(s, id, 0);
    if p < 0 {
        s
    } else {
        s.update(p, with_artist_cover(s[p], cover))
    }
}

fn album_position(albums: &Vec<Album>, id: &str) -> (r: Option<usize>)
    ensures
        match r {
            Some(p) => p < albums@.len() && first_with_id(albums_view(albums@), id@, 0) == p as int,
            None => first_with_id(albums_view(albums@), id@, 0) == -1,
        },
{
    let ghost v = albums_view(albums@);
    let mut i: usize = 0;
    while i < albums.len()
        invariant
            v == albums_view(albums@),
            i <= albums@.len(),
            first_with_id(v, id@, 0) == first_with_id(v, id@, i as int),
        decreases albums@.len() - i,
    {
        if same_text(albums[i].id.as_str(), id) {
            return Some(i);
        }
        i = i + 1;
    }
    None
}

fn playlist_position(playlists: &Vec<Playlist>, id: &str) -> (r: Option<usize>)
    ensures
        match r {
            Some(p) => p < playlists@.len() && first_with_id(playlists_view(playlists@), id@, 0) == p as int,
            None => first_with_id(playlists_view(playlists@), id@, 0) == -1,
        },
{
    let ghost v = playlists_view(playlists@);
    let mut i: usize = 0;
    while i < playlists.len()
        invariant
            v == playlists_view(playlists@),
            i <= playlists@.len(),
            first_with_id(v, id@, 0) == first_with_id(v, id@, i as int),
        decreases playlists@.len() - i,
    {
        if same_text(playlists[i].id.as_str(), id) {
            return Some(i);
        }
        i = i + 1;
    }
    None
}

/// Gives the first album (or playlist) with id `id` the fetched tracks;
/// nothing changes where there is none.
pub fn attach_tracks(results: &mut SearchResponse, kind: ListingKind, id: &str, songs: Vec<Song>)
    ensures
        kind == ListingKind::Album ==> {
            &&& final(results)@.albums == set_songs(old(results)@.albums, id@, songs_view(songs@))
            &&& final(results)@.playlists == old(results)@.playlists
        },
        kind == ListingKind::Playlist ==> {
            &&& final(results)@.playlists == set_songs(old(results)@.playlists, id@, songs_view(songs@))
            &&& final(results)@.albums == old(results)@.albums
        },
        final(results)@.songs == old(results)@.songs,
{
    let ghost tracks = songs_view(songs@);
    match kind {
        ListingKind::Album => {
            match album_position(&results.albums, id) {
                Some(p) => {
                    let ghost before = albums_view(results.albums@);
                    let mut a = results.albums.remove(p);
                    a.songs = songs;
                    results.albums.insert(p, a);
                    assert(albums_view(results.albums@) =~= before.update(p as int, with_songs(before[p as int], tracks)));
                },
                None => {},
            }
        },
        ListingKind::Playlist => {
            match playlist_position(&results.playlists, id) {
                Some(p) => {
                    let ghost before = playlists_view(results.playlists@);
                    let mut a = results.playlists.remove(p);
                    a.songs = songs;
                    results.playlists.insert(p, a);
                    assert(playlists_view(results.playlists@) =~= before.update(p as int, with_songs(before[p as int], tracks)));
                },
                None => {},
            }
        },
    }
}

/// Gives the first album with id `album_id` the uploader's avatar; nothing
/// changes where there is none.
pub fn attach_avatar(results: &mut SearchResponse, album_id: &str, avatar_url: String)
    ensures
        final(results)@.albums == set_artist_cover(old(results)@.albums, album_id@, avatar_url@),
        final(results)@.playlists == old(results)@.playlists,
        final(results)@.songs == old(results)@.songs,
{
    let ghost cover = avatar_url@;
    match album_position(&results.albums, album_id) {
        Some(p) => {
            let ghost before = albums_view(results.albums@);
            let mut a = results.albums.remove(p);
            a.artist_cover = avatar_url;
            results.albums.insert(p, a);
            assert(albums_view(results.albums@) =~= before.update(p as int, with_artist_cover(before[p as int], cover)));
        },
        None => {},
    }
}

/// The category `f` is in the scope of a request for `filter`.
pub open spec fn in_scope(filter: Option<Filter>, f: Filter) -> bool {
    match filter {
        Some(g) => g == f,
        None => true,
    }
}

/// The response to a request: each list ranked by the query's weights
/// (`None`: no weights recorded), then, for a request of one category, the
/// other two lists emptied.
pub fn respond(results: SearchResponse, weights: Option<&TextMap<u32>>, filter: Option<Filter>) -> (r: SearchResponse)
    requires
        weights matches Some(w) ==> w.wf(),
    ensures
        ({
            let w = match weights {
                Some(m) => m@,
                None => Map::<Seq<char>, u32>::empty(),
            };
            &&& if in_scope(filter, Filter::Albums) {
                is_ranked(r.albums@, w) && same_results_in_order(r.albums@, results.albums@)
            } else {
                r.albums@.len() == 0
            }
            &&& if in_scope(filter, Filter::Playlists) {
                is_ranked(r.playlists@, w) && same_results_in_order(r.playlists@, results.playlists@)
            } else {
                r.playlists@.len() == 0
            }
            &&& if in_scope(filter, Filter::Songs) {
                is_ranked(r.songs@, w) && same_results_in_order(r.songs@, results.songs@)
            } else {
                r.songs@.len() == 0
            }
        }),
{
    let none: TextMap<u32> = TextMap::new();
    let w = match weights {
        Some(m) => m,
        None => &none,
    };
    let SearchResponse { albums, playlists, songs } = results;
    let albums = if in_scope_exec(filter, Filter::Albums) {
        sort_and_weight(albums, w)
    } else {
        Vec::new()
    };
    let playlists = if in_scope_exec(filter, Filter::Playlists) {
        sort_and_weight(playlists, w)
    } else {
        Vec::new()
    };
    let songs = if in_scope_exec(filter, Filter::Songs) {
        sort_and_weight(songs, w)
    } else {
        Vec::new()
    };
    SearchResponse { albums, playlists, songs }
}

fn in_scope_exec(filter: Option<Filter>, f: Filter) -> (r: bool)
    ensures
        r == in_scope(filter, f),
{
    match filter {
        Some(g) => g == f,
        None => true,
    }
}

} // verus!
