//! The secondary metadata API: its session token, the track search URL,
//! and the compact form of the tracks it returns.

use vstd::prelude::*;
use crate::store::TextMap;

verus! {

/// What percent-encoding `s` for a query string gives.
pub uninterp spec fn url_encoded(s: Seq<char>) -> Seq<char>;

/// Relies on `urlencoding::encode`: percent-encodes every byte but ASCII
/// letters, digits and `-_.~`; the result depends on the text alone.
#[verifier::external_body]
fn url_encode(s: &str) -> (r: String)
    ensures
        r@ == url_encoded(s@),
{
    urlencoding::encode(s).into_owned()
}

/// The text of the first capture group of the first match of `pattern` in
/// `text`; none where the pattern does not compile, does not match, or the
/// group takes no part in the match.
pub uninterp spec fn first_group(pattern: Seq<char>, text: Seq<char>) -> Option<Seq<char>>;

/// Relies on `regex::Regex::new` and `Regex::captures`, with `Captures::get(1)`:
/// the first capture group of the first match; the result depends on the
/// pattern and the text alone.
#[verifier::external_body]
fn regex_first_group(pattern: &str, text: &str) -> (r: Option<String>)
    ensures
        match r {
            Some(g) => first_group(pattern@, text@) == Some(g@),
            None => first_group(pattern@, text@) is None,
        },
{
    match regex::Regex::new(pattern) {
        Ok(re) => match re.captures(text) {
            Some(caps) => match caps.get(1) {
                Some(m) => Some(m.as_str().to_string()),
                None => None,
            },
            None => None,
        },
        Err(_) => None,
    }
}

pub open spec fn search_url_prefix() -> Seq<char> {
    "https://api.spotify.com/v1/search?q="@
}

pub open spec fn search_url_suffix() -> Seq<char> {
    "&type=track"@
}

/// The track search URL for a query that is already percent-encoded.
pub fn search_url_for(encoded: &str) -> (r: String)
    ensures
        r@ == search_url_prefix() + encoded@ + search_url_suffix(),
{
    let mut r = String::from_str("https://api.spotify.com/v1/search?q=");
    r.append(encoded);
    r.append("&type=track");
    r
}

/// The track search URL for a query.
pub fn spotify_search_url(query: &str) -> (r: String)
    ensures
        r@ == search_url_prefix() + url_encoded(query@) + search_url_suffix(),
{
    let encoded = url_encode(query);
    search_url_for(encoded.as_str())
}

/// The pattern of the script element that carries the session data on the
/// web player's search page; the braces of the captured object are escaped,
/// as a bare `{` there does not compile.
pub open spec fn session_pattern() -> Seq<char> {
    "<script id=\"session\" data-testid=\"session\" type=\"application/json\">(\\{.*?\\})</script>"@
}

/// The session data (a JSON object) embedded in the web player's page.
pub fn session_json(page: &str) -> (r: Option<String>)
    ensures
        match r {
            Some(s) => first_group(session_pattern(), page@) == Some(s@),
            None => first_group(session_pattern(), page@) is None,
        },
{
    regex_first_group(
        "<script id=\"session\" data-testid=\"session\" type=\"application/json\">(\\{.*?\\})</script>",
        page,
    )
}

/// How long a session token is used, in seconds.
pub const TOKEN_LIFETIME_SECONDS: i64 = 3600;

/// The session token of the secondary API; times in seconds since the Unix
/// epoch.
pub struct SpotifyAuth {
    pub access_token: Option<String>,
    pub client_id: Option<String>,
    pub token_expiration_time: Option<i64>,
}

impl SpotifyAuth {
    /// No session yet.
    pub fn new() -> (r: SpotifyAuth)
        ensures
            r.access_token is None,
            r.client_id is None,
            r.token_expiration_time is None,
    {
        SpotifyAuth { access_token: None, client_id: None, token_expiration_time: None }
    }

    /// Whether the token can still be used at time `now`.
    pub fn is_valid(&self, now: i64) -> (r: bool)
        ensures
            r == (self.access_token is Some && (self.token_expiration_time matches Some(e) && now < e)),
    {
        match (&self.access_token, self.token_expiration_time) {
            (Some(_), Some(e)) => now < e,
            _ => false,
        }
    }

    /// Takes a fresh session at time `now`: it expires an hour later (at the
    /// end of time where that would pass it).
    pub fn accept_session(&mut self, access_token: String, client_id: String, now: i64)
        ensures
            final(self).access_token == Some(access_token),
            final(self).client_id == Some(client_id),
            final(self).token_expiration_time == Some(
                if now + TOKEN_LIFETIME_SECONDS > i64::MAX {
                    i64::MAX
                } else {
                    (now + TOKEN_LIFETIME_SECONDS) as i64
                },
            ),
    {
        self.access_token = Some(access_token);
        self.client_id = Some(client_id);
        let expiry = if now > i64::MAX - TOKEN_LIFETIME_SECONDS {
            i64::MAX
        } else {
            now + TOKEN_LIFETIME_SECONDS
        };
        self.token_expiration_time = Some(expiry);
    }
}

/// A track as the secondary API returns it: its artists' names and its
/// album's image URLs, in order.
pub struct SpotifyTrack {
    pub id: String,
    pub name: String,
    pub duration_ms: u32,
    pub artist_names: Vec<String>,
    pub image_urls: Vec<String>,
}

/// The compact form of a track that is cached and returned.
pub struct MinifiedTrack {
    pub artist: String,
    pub duration: u32,
    pub id: String,
    pub thumbnail_url: String,
    pub title: String,
}

pub struct MinifiedView {
    pub artist: Seq<char>,
    pub duration: u32,
    pub id: Seq<char>,
    pub thumbnail_url: Seq<char>,
    pub title: Seq<char>,
}

impl View for MinifiedTrack {
    type V = MinifiedView;

    open spec fn view(&self) -> MinifiedView {
        MinifiedView {
            artist: self.artist@,
            duration: self.duration,
            id: self.id@,
            thumbnail_url: self.thumbnail_url@,
            title: self.title@,
        }
    }
}

/// The compact form of a track: its first artist, its length in whole
/// seconds, and its album's first image.
pub open spec fn minified(t: SpotifyTrack) -> MinifiedView {
    MinifiedView {
        artist: if t.artist_names@.len() > 0 {
            t.artist_names@[0]@
        } else {
            Seq::empty()
        },
        duration: t.duration_ms / 1000,
        id: t.id@,
        thumbnail_url: if t.image_urls@.len() > 0 {
            t.image_urls@[0]@
        } else {
            Seq::empty()
        },
        title: t.name@,
    }
}

/// The compact form of a track.
pub fn minify_track(track: SpotifyTrack) -> (r: MinifiedTrack)
    ensures
        r@ == minified(track),
{
    let ghost t = track;
    let SpotifyTrack { id, name, duration_ms, artist_names, image_urls } = track;
    let mut artist_names = artist_names;
    let mut image_urls = image_urls;
    let artist = if artist_names.len() > 0 {
        artist_names.remove(0)
    } else {
        String::new()
    };
    let thumbnail_url = if image_urls.len() > 0 {
        image_urls.remove(0)
    } else {
        String::new()
    };
    MinifiedTrack { artist, duration: duration_ms / 1000, id, thumbnail_url, title: name }
}

/// The compact tracks by id; a later track replaces an earlier one with the
/// same id.
pub open spec fn tracks_by_id(ts: Seq<SpotifyTrack>) -> Map<Seq<char>, MinifiedView>
    decreases ts.len(),
{
    if ts.len() == 0 {
        Map::empty()
    } else {
        tracks_by_id(ts.drop_last()).insert(ts.last().id@, minified(ts.last()))
    }
}

/// The compact tracks of a search, by id.
pub fn minify_tracks(tracks: Vec<SpotifyTrack>) -> (r: TextMap<MinifiedTrack>)
    ensures
        r.wf(),
        r@.map_values(|m: MinifiedTrack| m@) == tracks_by_id(tracks@),
{
    let ghost all = tracks@;
    let n = tracks.len();
    let mut rest = tracks;
    let mut r: TextMap<MinifiedTrack> = TextMap::new();
    assert(all.subrange(0, 0) =~= Seq::<SpotifyTrack>::empty());
    assert(r@.map_values(|m: MinifiedTrack| m@) =~= Map::<Seq<char>, MinifiedView>::empty());
    while rest.len() > 0
        invariant
            n == all.len(),
            rest.len() <= n,
            rest@ == all.subrange(n - rest.len(), n as int),
            r.wf(),
            r@.map_values(|m: MinifiedTrack| m@) == tracks_by_id(all.subrange(0, n - rest.len())),
        decreases rest.len(),
    {
        let ghost done = n - rest.len();
        let t = rest.remove(0);
        assert(t == all[done]);
        assert(rest@ =~= all.subrange(n - rest.len(), n as int));
        let ghost before = r@;
        let m = minify_track(t);
        let id = m.id.clone();
        r.insert(id, m);
        assert(all.subrange(0, done + 1).drop_last() =~= all.subrange(0, done));
        assert(r@.map_values(|m: MinifiedTrack| m@) =~= before.map_values(|m: MinifiedTrack| m@).insert(
            t.id@,
            minified(t),
        ));
    }
    assert(all.subrange(0, n as int) =~= all);
    r
}

} // verus!
