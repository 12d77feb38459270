//! The search cache and the cancellation of superseded searches, as a state
//! machine: a search starts (answered from the cache, or given a ticket to
//! fetch with) and later finishes (its results stored and returned, unless a
//! newer search started meanwhile).

use vstd::prelude::*;
use crate::search::{Filter, Mode, SearchQuery, filters_for, filters_to_search, has_items, response_serves, serves};
use crate::store::{insert_all, TextMap};
use crate::types::{SearchResponse, SearchResponseView};

verus! {

/// A stored search result with the time it was written, in seconds since
/// the Unix epoch.
pub struct SearchCacheItem {
    pub results: SearchResponse,
    pub timestamp: i64,
}

/// A stored search result, as a mathematical value.
pub struct CacheEntryView {
    pub results: SearchResponseView,
    pub timestamp: i64,
}

impl View for SearchCacheItem {
    type V = CacheEntryView;

    open spec fn view(&self) -> CacheEntryView {
        CacheEntryView { results: self.results@, timestamp: self.timestamp }
    }
}

/// The state of the coordinator: the cache by query text, and the number of
/// the newest search that went to fetch.
pub struct CoordinatorView {
    pub cache: Map<Seq<char>, CacheEntryView>,
    pub generation: u64,
}

/// The number after `g`, wrapping around.
pub open spec fn next_generation(g: u64) -> u64 {
    if g == u64::MAX {
        0
    } else {
        (g + 1) as u64
    }
}

/// The stored result that answers a request for `text` and `filters`: only
/// one that has items in each requested category.
pub open spec fn cached_answer(
    cache: Map<Seq<char>, CacheEntryView>,
    text: Seq<char>,
    filters: Seq<Filter>,
) -> Option<SearchResponseView> {
    if cache.contains_key(text) && serves(cache[text].results, filters) {
        Some(cache[text].results)
    } else {
        None
    }
}

/// The state after a search that missed the cache starts: every search
/// still in flight is superseded.
pub open spec fn after_start(s: CoordinatorView) -> CoordinatorView {
    CoordinatorView { cache: s.cache, generation: next_generation(s.generation) }
}

/// The state after the search with ticket number `ticket` finishes with
/// `entry` for `text`: stored only if no newer search started.
pub open spec fn after_finish(
    s: CoordinatorView,
    ticket: u64,
    text: Seq<char>,
    entry: CacheEntryView,
) -> CoordinatorView {
    if ticket == s.generation {
        CoordinatorView { cache: s.cache.insert(text, entry), generation: s.generation }
    } else {
        s
    }
}

/// What a search that missed the cache carries while it fetches.
pub struct SearchTicket {
    pub generation: u64,
    pub query: String,
    pub filter: Option<Filter>,
    pub mode: Mode,
    pub filters: Vec<Filter>,
}

/// How a search starts.
pub enum SearchStart {
    /// Answered from the cache.
    Cached(SearchResponse),
    /// To be fetched upstream under this ticket.
    Fetch(SearchTicket),
}

/// How a fetching search ends.
pub enum Completion {
    /// Its results, now stored in the cache.
    Done(SearchResponse),
    /// A newer search started meanwhile; nothing was stored.
    Superseded,
}

/// The search cache and the cancellation signal.
pub struct SearchCoordinator {
    cache: TextMap<SearchCacheItem>,
    generation: u64,
}

impl View for SearchCoordinator {
    type V = CoordinatorView;

    closed spec fn view(&self) -> CoordinatorView {
        CoordinatorView {
            cache: self.cache@.map_values(|e: SearchCacheItem| e@),
            generation: self.generation,
        }
    }
}

impl SearchCoordinator {
    /// The cache holds each query text once.
    pub closed spec fn wf(&self) -> bool {
        self.cache.wf()
    }

    /// A coordinator with an empty cache.
    pub fn new() -> (r: SearchCoordinator)
        ensures
            r.wf(),
            r@.cache == Map::<Seq<char>, CacheEntryView>::empty(),
            r@.generation == 0,
    {
        let r = SearchCoordinator { cache: TextMap::new(), generation: 0 };
        assert(r@.cache =~= Map::<Seq<char>, CacheEntryView>::empty());
        r
    }

    /// Starts a search: answered from the cache where a stored result has
    /// items in each requested category, else every search in flight is
    /// superseded and this one gets a ticket to fetch with.
    pub fn begin(&mut self, query: &SearchQuery) -> (r: SearchStart)
        requires
            old(self).wf(),
        ensures
            final(self).wf(),
            match cached_answer(old(self)@.cache, query.text@, filters_for(query.filter)) {
                Some(v) => {
                    &&& r matches SearchStart::Cached(res) && res@ == v
                    &&& final(self)@ == old(self)@
                },
                None => {
                    &&& r matches SearchStart::Fetch(t) && {
                        &&& t.generation == final(self)@.generation
                        &&& t.query@ == query.text@
                        &&& t.filter == query.filter
                        &&& t.mode == query.mode
                        &&& t.filters@ == filters_for(query.filter)
                    }
                    &&& final(self)@ == after_start(old(self)@)
                },
            },
    {
        let filters = filters_to_search(query.filter);
        match self.cache.get(query.text.as_str()) {
            Some(item) => {
                if response_serves(&item.results, &filters) {
                    return SearchStart::Cached(item.results.clone());
                }
            },
            None => {},
        }
        self.generation = self.generation.wrapping_add(1);
        assert(self@ =~= after_start(old(self)@));
        SearchStart::Fetch(
            SearchTicket {
                generation: self.generation,
                query: query.text.clone(),
                filter: query.filter,
                mode: query.mode,
                filters,
            },
        )
    }

    /// Whether no newer search has started since the ticket was given.
    pub fn is_current(&self, ticket: &SearchTicket) -> (r: bool)
        ensures
            r == (ticket.generation == self@.generation),
    {
        ticket.generation == self.generation
    }

    /// Finishes a fetching search: unless a newer search started, its
    /// results are stored for its query text with time `now` and returned.
    pub fn finish(&mut self, ticket: SearchTicket, results: SearchResponse, now: i64) -> (r: Completion)
        requires
            old(self).wf(),
        ensures
            final(self).wf(),
            final(self)@ == after_finish(
                old(self)@,
                ticket.generation,
                ticket.query@,
                CacheEntryView { results: results@, timestamp: now },
            ),
            ticket.generation == old(self)@.generation ==> (r matches Completion::Done(res)
                && res@ == results@),
            ticket.generation != old(self)@.generation ==> r matches Completion::Superseded,
    {
        if ticket.generation != self.generation {
            return Completion::Superseded;
        }
        let ghost rv = results@;
        let answer = results.clone();
        self.cache.insert(ticket.query, SearchCacheItem { results, timestamp: now });
        assert(self@.cache =~= old(self)@.cache.insert(
            ticket.query@,
            CacheEntryView { results: rv, timestamp: now },
        ));
        Completion::Done(answer)
    }

    /// The cache, for persisting it.
    pub fn cache(&self) -> (r: &TextMap<SearchCacheItem>)
        requires
            self.wf(),
        ensures
            r.wf(),
            r@.map_values(|e: SearchCacheItem| e@) == self@.cache,
    {
        &self.cache
    }

    /// A coordinator whose cache holds persisted entries; later entries for
    /// the same query text replace earlier ones.
    pub fn from_entries(entries: Vec<(String, SearchCacheItem)>) -> (r: SearchCoordinator)
        ensures
            r.wf(),
            r@.cache == insert_all(Map::empty(), entries@).map_values(|e: SearchCacheItem| e@),
            r@.generation == 0,
    {
        let mut cache: TextMap<SearchCacheItem> = TextMap::new();
        cache.insert_all(entries);
        SearchCoordinator { cache, generation: 0 }
    }
}

/// Searching twice in a row with the same text, filter and mode: when the
/// first search missed the cache, fetched, finished uncontested and found
/// items in each requested category, the second is answered from the cache
/// with the same results, stamped with the first search's time.
pub proof fn lemma_repeat_search_hits_cache(
    s: CoordinatorView,
    text: Seq<char>,
    filter: Option<Filter>,
    results: SearchResponseView,
    now: i64,
)
    requires
        serves(results, filters_for(filter)),
    ensures
        ({
            let s1 = after_start(s);
            let s2 = after_finish(s1, s1.generation, text, CacheEntryView { results, timestamp: now });
            &&& cached_answer(s2.cache, text, filters_for(filter)) == Some(results)
            &&& s2.cache[text].timestamp == now
        }),
{
}

/// A stored result with no items in a requested category does not answer
/// the request: the search fetches again. (So a full search that found no
/// playlists is not served to a later request for playlists.)
pub proof fn lemma_empty_category_refetches(
    cache: Map<Seq<char>, CacheEntryView>,
    text: Seq<char>,
    filter: Filter,
)
    requires
        cache.contains_key(text),
        !has_items(cache[text].results, filter),
    ensures
        cached_answer(cache, text, filters_for(Some(filter))) is None,
{
    assert(filters_for(Some(filter))[0] == filter);
}

/// Last request wins: when search A starts fetching and then search B
/// starts fetching before A finishes, A finishes superseded and stores
/// nothing, whichever of the two finishes first, and the cache ends up with
/// B's entry for B's text and is otherwise as before.
pub proof fn lemma_last_request_wins(
    s: CoordinatorView,
    text_a: Seq<char>,
    entry_a: CacheEntryView,
    text_b: Seq<char>,
    entry_b: CacheEntryView,
)
    ensures
        ({
            let s1 = after_start(s);
            let ticket_a = s1.generation;
            let s2 = after_start(s1);
            let ticket_b = s2.generation;
            &&& ticket_a != s2.generation
            &&& ticket_b == s2.generation
            &&& after_finish(s2, ticket_a, text_a, entry_a) == s2
            &&& after_finish(after_finish(s2, ticket_a, text_a, entry_a), ticket_b, text_b, entry_b).cache
                == s.cache.insert(text_b, entry_b)
            &&& ticket_a != after_finish(s2, ticket_b, text_b, entry_b).generation
            &&& after_finish(after_finish(s2, ticket_b, text_b, entry_b), ticket_a, text_a, entry_a).cache
                == s.cache.insert(text_b, entry_b)
        }),
{
}

} // verus!
