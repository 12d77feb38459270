//! The entities a search returns, and their mathematical views.

use vstd::prelude::*;

verus! {

/// A track.
pub struct Song {
    pub id: String,
    pub title: String,
    pub artist: String,
    pub artist_cover: String,
    pub album: String,
    pub cover: String,
    pub duration: i32,
}

/// An album, with its tracks once they are fetched.
pub struct Album {
    pub id: String,
    pub name: String,
    pub artist: String,
    pub artist_cover: String,
    pub cover: String,
    pub songs: Vec<Song>,
}

/// A playlist, with its tracks once they are fetched.
pub struct Playlist {
    pub id: String,
    pub name: String,
    pub artist: String,
    pub artist_cover: String,
    pub cover: String,
    pub songs: Vec<Song>,
}

/// The merged result of a search: one list per content category.
pub struct SearchResponse {
    pub albums: Vec<Album>,
    pub playlists: Vec<Playlist>,
    pub songs: Vec<Song>,
}

pub struct SongView {
    pub id: Seq<char>,
    pub title: Seq<char>,
    pub artist: Seq<char>,
    pub artist_cover: Seq<char>,
    pub album: Seq<char>,
    pub cover: Seq<char>,
    pub duration: i32,
}

pub struct CollectionView {
    pub id: Seq<char>,
    pub name: Seq<char>,
    pub artist: Seq<char>,
    pub artist_cover: Seq<char>,
    pub cover: Seq<char>,
    pub songs: Seq<SongView>,
}

pub struct SearchResponseView {
    pub albums: Seq<CollectionView>,
    pub playlists: Seq<CollectionView>,
    pub songs: Seq<SongView>,
}

pub open spec fn songs_view(s: Seq<Song>) -> Seq<SongView> {
    s.map_values(|x: Song| x@)
}

pub open spec fn albums_view(s: Seq<Album>) -> Seq<CollectionView> {
    s.map_values(|x: Album| x@)
}

pub open spec fn playlists_view(s: Seq<Playlist>) -> Seq<CollectionView> {
    s.map_values(|x: Playlist| x@)
}

impl View for Song {
    type V = SongView;

    open spec fn view(&self) -> SongView {
        SongView {
            id: self.id@,
            title: self.title@,
            artist: self.artist@,
            artist_cover: self.artist_cover@,
            album: self.album@,
            cover: self.cover@,
            duration: self.duration,
        }
    }
}

impl View for Album {
    type V = CollectionView;

    open spec fn view(&self) -> CollectionView {
        CollectionView {
            id: self.id@,
            name: self.name@,
            artist: self.artist@,
            artist_cover: self.artist_cover@,
            cover: self.cover@,
            songs: songs_view(self.songs@),
        }
    }
}

impl View for Playlist {
    type V = CollectionView;

    open spec fn view(&self) -> CollectionView {
        CollectionView {
            id: self.id@,
            name: self.name@,
            artist: self.artist@,
            artist_cover: self.artist_cover@,
            cover: self.cover@,
            songs: songs_view(self.songs@),
        }
    }
}

impl View for SearchResponse {
    type V = SearchResponseView;

    open spec fn view(&self) -> SearchResponseView {
        SearchResponseView {
            albums: albums_view(self.albums@),
            playlists: playlists_view(self.playlists@),
            songs: songs_view(self.songs@),
        }
    }
}

impl Clone for Song {
    fn clone(&self) -> (r: Song)
        ensures
            r == *self,
    {
        Song {
            id: self.id.clone(),
            title: self.title.clone(),
            artist: self.artist.clone(),
            artist_cover: self.artist_cover.clone(),
            album: self.album.clone(),
            cover: self.cover.clone(),
            duration: self.duration,
        }
    }
}

/// A copy of a list of songs.
pub fn copy_songs(v: &Vec<Song>) -> (r: Vec<Song>)
    ensures
        r@ == v@,
{
    let mut r: Vec<Song> = Vec::new();
    for i in 0..v.len()
        invariant
            r@ == v@.subrange(0, i as int),
    {
        r.push(v[i].clone());
        assert(r@ =~= v@.subrange(0, i + 1));
    }
    assert(r@ =~= v@);
    r
}

impl Clone for Album {
    fn clone(&self) -> (r: Album)
        ensures
            r@ == self@,
    {
        Album {
            id: self.id.clone(),
            name: self.name.clone(),
            artist: self.artist.clone(),
            artist_cover: self.artist_cover.clone(),
            cover: self.cover.clone(),
            songs: copy_songs(&self.songs),
        }
    }
}

impl Clone for Playlist {
    fn clone(&self) -> (r: Playlist)
        ensures
            r@ == self@,
    {
        Playlist {
            id: self.id.clone(),
            name: self.name.clone(),
            artist: self.artist.clone(),
            artist_cover: self.artist_cover.clone(),
            cover: self.cover.clone(),
            songs: copy_songs(&self.songs),
        }
    }
}

impl Clone for SearchResponse {
    fn clone(&self) -> (r: SearchResponse)
        ensures
            r@ == self@,
    {
        let mut albums: Vec<Album> = Vec::new();
        for i in 0..self.albums.len()
            invariant
                albums@.len() == i,
                forall|j: int| 0 <= j < i ==> albums@[j]@ == self.albums@[j]@,
        {
            albums.push(self.albums[i].clone());
        }
        let mut playlists: Vec<Playlist> = Vec::new();
        for i in 0..self.playlists.len()
            invariant
                playlists@.len() == i,
                forall|j: int| 0 <= j < i ==> playlists@[j]@ == self.playlists@[j]@,
        {
            playlists.push(self.playlists[i].clone());
        }
        assert(albums_view(albums@) =~= albums_view(self.albums@));
        assert(playlists_view(playlists@) =~= playlists_view(self.playlists@));
        SearchResponse { albums, playlists, songs: copy_songs(&self.songs) }
    }
}

impl SearchResponse {
    /// A response with no items.
    pub fn empty() -> (r: SearchResponse)
        ensures
            r.albums@.len() == 0,
            r.playlists@.len() == 0,
            r.songs@.len() == 0,
    {
        SearchResponse { albums: Vec::new(), playlists: Vec::new(), songs: Vec::new() }
    }
}

} // verus!
