//! The catalog of upstream mirrors and the latency race that selects one.

use vstd::prelude::*;
use crate::search::SearchError;

verus! {

/// An upstream mirror: where its API answers, its name, and where it runs.
pub struct PipedInstance {
    pub api_url: String,
    pub name: String,
    pub country: Vec<String>,
}

pub struct InstanceView {
    pub api_url: Seq<char>,
    pub name: Seq<char>,
    pub country: Seq<Seq<char>>,
}

impl View for PipedInstance {
    type V = InstanceView;

    open spec fn view(&self) -> InstanceView {
        InstanceView {
            api_url: self.api_url@,
            name: self.name@,
            country: self.country@.map_values(|c: String| c@),
        }
    }
}

pub open spec fn entry(api_url: Seq<char>, name: Seq<char>, country: Seq<char>) -> InstanceView {
    InstanceView { api_url, name, country: seq![country] }
}

/// The mirrors raced at startup, in order.
pub open spec fn catalog() -> Seq<InstanceView> {
    seq![
        entry("https://api.piped.privacydev.net"@, "privacydev.net"@, "france"@),
        entry("https://pipedapi.adminforge.de"@, "adminforge.de"@, "germany"@),
        entry("https://pipedapi.leptons.xyz"@, "leptons.xyz"@, "austria"@),
        entry("https://api.piped.private.coffee"@, "private.coffee"@, "austria"@),
        entry("https://pipedapi.lunar.icu"@, "lunar.icu"@, "germany"@),
        entry("https://pipedapi.wireway.ch"@, "wireway.ch"@, "switzerland"@),
        entry("https://piped.smnz.de"@, "smnz.de"@, "germany"@),
        entry("https://api.piped.yt"@, "piped.yt"@, "germany"@),
        entry("https://pipedapi.reallyaweso.me"@, "reallyaweso.me"@, "germany"@),
        entry("https://pipedapi-libre.kavin.rocks/"@, "kavin.rocks"@, "netherlands"@),
        entry("https://pipedapi.ducks.party"@, "ducks.party"@, "netherlands"@),
        entry("https://piped-api.codespace.cz"@, "codespace.cz"@, "czech"@),
        entry("https://pipedapi.drgns.space"@, "drgns.space"@, "us"@),
        entry("https://piapi.ggtyler.dev"@, "ggtyler.dev"@, "us"@),
    ]
}

/// The mirror used when no mirror answered a health check.
pub open spec fn fallback_url() -> Seq<char> {
    "https://pipedapi.wireway.ch"@
}

pub open spec fn instances_view(s: Seq<PipedInstance>) -> Seq<InstanceView> {
    s.map_values(|i: PipedInstance| i@)
}

fn make_instance(api_url: &str, name: &str, country: &str) -> (r: PipedInstance)
    ensures
        r@ == entry(api_url@, name@, country@),
{
    let r = PipedInstance {
        api_url: String::from_str(api_url),
        name: String::from_str(name),
        country: vec![String::from_str(country)],
    };
    assert(r@.country =~= seq![country@]);
    r
}

/// The mirrors raced at startup.
pub fn get_instances() -> (r: Vec<PipedInstance>)
    ensures
        instances_view(r@) == catalog(),
{
    let r = vec![
        make_instance("https://api.piped.privacydev.net", "privacydev.net", "france"),
        make_instance("https://pipedapi.adminforge.de", "adminforge.de", "germany"),
        make_instance("https://pipedapi.leptons.xyz", "leptons.xyz", "austria"),
        make_instance("https://api.piped.private.coffee", "private.coffee", "austria"),
        make_instance("https://pipedapi.lunar.icu", "lunar.icu", "germany"),
        make_instance("https://pipedapi.wireway.ch", "wireway.ch", "switzerland"),
        make_instance("https://piped.smnz.de", "smnz.de", "germany"),
        make_instance("https://api.piped.yt", "piped.yt", "germany"),
        make_instance("https://pipedapi.reallyaweso.me", "reallyaweso.me", "germany"),
        make_instance("https://pipedapi-libre.kavin.rocks/", "kavin.rocks", "netherlands"),
        make_instance("https://pipedapi.ducks.party", "ducks.party", "netherlands"),
        make_instance("https://piped-api.codespace.cz", "codespace.cz", "czech"),
        make_instance("https://pipedapi.drgns.space", "drgns.space", "us"),
        make_instance("https://piapi.ggtyler.dev", "ggtyler.dev", "us"),
    ];
    assert(instances_view(r@) =~= catalog());
    r
}

/// The sum of the latencies of the health checks that succeeded.
pub open spec fn latency_sum(samples: Seq<Option<u64>>) -> int
    decreases samples.len(),
{
    if samples.len() == 0 {
        0
    } else {
        latency_sum(samples.drop_last()) + match samples.last() {
            Some(ms) => ms as int,
            None => 0,
        }
    }
}

/// The number of health checks that succeeded.
pub open spec fn success_count(samples: Seq<Option<u64>>) -> int
    decreases samples.len(),
{
    if samples.len() == 0 {
        0
    } else {
        success_count(samples.drop_last()) + if samples.last() is Some {
            1int
        } else {
            0
        }
    }
}

/// An instance's score: the mean latency of its successful health checks,
/// in whole milliseconds; none when no check succeeded.
pub open spec fn mean_latency(samples: Seq<Option<u64>>) -> Option<u64> {
    if success_count(samples) == 0 {
        None
    } else {
        Some((latency_sum(samples) / success_count(samples)) as u64)
    }
}

/// The mean latency of the health checks that succeeded (`None`: a failed
/// or timed-out check), rounded down to whole milliseconds.
pub fn average_ping(samples: &Vec<Option<u64>>) -> (r: Option<u64>)
    ensures
        r == mean_latency(samples@),
{
    let mut sum: u128 = 0;
    let mut count: u64 = 0;
    let mut i: usize = 0;
    while i < samples.len()
        invariant
            i <= samples@.len(),
            sum == latency_sum(samples@.subrange(0, i as int)),
            count == success_count(samples@.subrange(0, i as int)),
            count <= i,
            sum <= count * (u64::MAX as int),
        decreases samples@.len() - i,
    {
        assert(samples@.subrange(0, i + 1).drop_last() =~= samples@.subrange(0, i as int));
        match samples[i] {
            Some(ms) => {
                assert(sum + ms <= (count + 1) * (u64::MAX as int)) by (nonlinear_arith)
                    requires
                        sum <= count * (u64::MAX as int),
                        ms <= u64::MAX,
                ;
                assert((count + 1) * (u64::MAX as int) < u128::MAX) by (nonlinear_arith)
                    requires
                        count < u64::MAX,
                ;
                sum = sum + ms as u128;
                count = count + 1;
            },
            None => {},
        }
        i = i + 1;
    }
    assert(samples@.subrange(0, i as int) =~= samples@);
    if count == 0 {
        None
    } else {
        assert((sum as int) / (count as int) <= u64::MAX) by (nonlinear_arith)
            requires
                sum <= count * (u64::MAX as int),
                count > 0,
        ;
        Some((sum / (count as u128)) as u64)
    }
}

/// Instance `i` wins the race: it has a score, no score is lower, and no
/// earlier instance has the same score.
pub open spec fn is_winner(scores: Seq<Option<u64>>, i: int) -> bool {
    &&& 0 <= i < scores.len()
    &&& scores[i] is Some
    &&& forall|j: int| 0 <= j < scores.len() && #[trigger] scores[j] is Some ==> scores[i]->0 <= scores[j]->0
    &&& forall|j: int| 0 <= j < i && #[trigger] scores[j] is Some ==> scores[i]->0 < scores[j]->0
}

/// Some instance has a score.
pub open spec fn any_scored(scores: Seq<Option<u64>>) -> bool {
    exists|i: int| 0 <= i < scores.len() && #[trigger] scores[i] is Some
}

/// The base URL that a race with these scores selects.
pub open spec fn race_choice(urls: Seq<Seq<char>>, scores: Seq<Option<u64>>) -> Seq<char> {
    if any_scored(scores) {
        urls[choose|i: int| is_winner(scores, i)]
    } else {
        fallback_url()
    }
}

/// A race in which some instance has a score has exactly one winner, and
/// selects that instance: the one with the lowest mean latency among those
/// with a successful check, the first of them on a tie.
pub proof fn lemma_race_selects_fastest(urls: Seq<Seq<char>>, scores: Seq<Option<u64>>)
    requires
        any_scored(scores),
    ensures
        exists|i: int| #[trigger] is_winner(scores, i) && race_choice(urls, scores) == urls[i],
        forall|i: int, j: int| is_winner(scores, i) && is_winner(scores, j) ==> i == j,
{
    lemma_winner_exists(scores);
    let w = choose|i: int| is_winner(scores, i);
    assert(is_winner(scores, w) && race_choice(urls, scores) == urls[w]);
    assert forall|i: int, j: int| is_winner(scores, i) && is_winner(scores, j) implies i == j by {
        lemma_winner_unique(scores, i, j);
    }
}

proof fn lemma_winner_exists(scores: Seq<Option<u64>>)
    requires
        any_scored(scores),
    ensures
        exists|i: int| is_winner(scores, i),
    decreases scores.len(),
{
    let n = scores.len() as int;
    let prev = scores.drop_last();
    if any_scored(prev) {
        lemma_winner_exists(prev);
        let w = choose|i: int| is_winner(prev, i);
        assert(prev[w] == scores[w]);
        if scores[n - 1] is Some && scores[n - 1]->0 < scores[w]->0 {
            assert(is_winner(scores, n - 1)) by {
                assert forall|j: int| 0 <= j < n && #[trigger] scores[j] is Some implies scores[n - 1]->0 <= scores[j]->0 by {
                    if j < n - 1 {
                        assert(prev[j] == scores[j]);
                    }
                }
                assert forall|j: int| 0 <= j < n - 1 && #[trigger] scores[j] is Some implies scores[n - 1]->0 < scores[j]->0 by {
                    assert(prev[j] == scores[j]);
                }
            }
        } else {
            assert(is_winner(scores, w)) by {
                assert forall|j: int| 0 <= j < n && #[trigger] scores[j] is Some implies scores[w]->0 <= scores[j]->0 by {
                    if j < n - 1 {
                        assert(prev[j] == scores[j]);
                    }
                }
                assert forall|j: int| 0 <= j < w && #[trigger] scores[j] is Some implies scores[w]->0 < scores[j]->0 by {
                    assert(prev[j] == scores[j]);
                }
            }
        }
    } else {
        let k = choose|i: int| 0 <= i < scores.len() && #[trigger] scores[i] is Some;
        assert(k == n - 1) by {
            if k < n - 1 {
                assert(prev[k] == scores[k]);
            }
        }
        assert(is_winner(scores, n - 1)) by {
            assert forall|j: int| 0 <= j < n - 1 implies !(#[trigger] scores[j] is Some) by {
                assert(prev[j] == scores[j]);
                if scores[j] is Some {
                    assert(prev[j] is Some);
                }
            }
        }
    }
}

proof fn lemma_winner_unique(scores: Seq<Option<u64>>, i: int, j: int)
    requires
        is_winner(scores, i),
        is_winner(scores, j),
    ensures
        i == j,
{
    if i < j {
        assert(scores[j] is Some);
    } else if j < i {
        assert(scores[i] is Some);
    }
}

/// The base URL of the instance with the lowest score, the first of them on
/// a tie; the fallback URL when no instance has a score.
pub fn select_best_instance(instances: &Vec<PipedInstance>, scores: &Vec<Option<u64>>) -> (r: String)
    requires
        instances@.len() == scores@.len(),
    ensures
        r@ == race_choice(instances_view(instances@).map_values(|v: InstanceView| v.api_url), scores@),
{
    let ghost urls = instances_view(instances@).map_values(|v: InstanceView| v.api_url);
    let mut best: Option<usize> = None;
    let mut i: usize = 0;
    while i < scores.len()
        invariant
            i <= scores@.len(),
            match best {
                Some(b) => is_winner(scores@.subrange(0, i as int), b as int),
                None => forall|j: int| 0 <= j < i ==> !(#[trigger] scores@[j] is Some),
            },
        decreases scores@.len() - i,
    {
        let ghost prev = scores@.subrange(0, i as int);
        let ghost next = scores@.subrange(0, i + 1);
        match scores[i] {
            Some(ms) => {
                match best {
                    Some(b) => {
                        let bm = scores[b].unwrap();
                        if ms < bm {
                            best = Some(i);
                            assert(is_winner(next, i as int)) by {
                                assert forall|j: int| 0 <= j < next.len() && #[trigger] next[j] is Some implies next[i as int]->0 <= next[j]->0 by {
                                    if j < i {
                                        assert(prev[j] == next[j]);
                                    }
                                }
                                assert forall|j: int| 0 <= j < i && #[trigger] next[j] is Some implies next[i as int]->0 < next[j]->0 by {
                                    assert(prev[j] == next[j]);
                                }
                            }
                        } else {
                            assert(is_winner(next, b as int)) by {
                                assert(prev[b as int] == next[b as int]);
                                assert forall|j: int| 0 <= j < next.len() && #[trigger] next[j] is Some implies next[b as int]->0 <= next[j]->0 by {
                                    if j < i {
                                        assert(prev[j] == next[j]);
                                    }
                                }
                                assert forall|j: int| 0 <= j < b && #[trigger] next[j] is Some implies next[b as int]->0 < next[j]->0 by {
                                    assert(prev[j] == next[j]);
                                }
                            }
                        }
                    },
                    None => {
                        best = Some(i);
                        assert(is_winner(next, i as int)) by {
                            assert forall|j: int| 0 <= j < next.len() && #[trigger] next[j] is Some implies next[i as int]->0 <= next[j]->0 by {
                                if j < i {
                                    assert(prev[j] == next[j]);
                                }
                            }
                        }
                    },
                }
            },
            None => {
                match best {
                    Some(b) => {
                        assert(is_winner(next, b as int)) by {
                            assert(prev[b as int] == next[b as int]);
                            assert forall|j: int| 0 <= j < next.len() && #[trigger] next[j] is Some implies next[b as int]->0 <= next[j]->0 by {
                                if j < i {
                                    assert(prev[j] == next[j]);
                                }
                            }
                            assert forall|j: int| 0 <= j < b && #[trigger] next[j] is Some implies next[b as int]->0 < next[j]->0 by {
                                assert(prev[j] == next[j]);
                            }
                        }
                    },
                    None => {},
                }
            },
        }
        i = i + 1;
    }
    assert(scores@.subrange(0, i as int) =~= scores@);
    match best {
        Some(b) => {
            proof {
                assert(scores@[b as int] is Some);
                assert(any_scored(scores@));
                let c = choose|k: int| is_winner(scores@, k);
                lemma_winner_unique(scores@, c, b as int);
            }
            instances[b].api_url.clone()
        },
        None => {
            let r = String::from_str("https://pipedapi.wireway.ch");
            r
        },
    }
}

/// The currently selected mirror, if a race has finished.
pub struct InstanceSelection {
    selected: Option<String>,
}

impl View for InstanceSelection {
    type V = Option<Seq<char>>;

    closed spec fn view(&self) -> Option<Seq<char>> {
        match self.selected {
            Some(s) => Some(s@),
            None => None,
        }
    }
}

impl InstanceSelection {
    /// No mirror selected yet.
    pub fn new() -> (r: InstanceSelection)
        ensures
            r@ is None,
    {
        InstanceSelection { selected: None }
    }
}

/// A snapshot of the selected mirror's base URL.
pub fn get_selected_instance(selection: &InstanceSelection) -> (r: Option<String>)
    ensures
        match r {
            Some(s) => selection@ == Some(s@),
            None => selection@ is None,
        },
{
    match &selection.selected {
        Some(s) => Some(s.clone()),
        None => None,
    }
}

/// The mirror a search goes to: the selected one, or an error before the
/// first probing round has finished.
pub fn instance_for_search(selection: &InstanceSelection) -> (r: Result<String, SearchError>)
    ensures
        match r {
            Ok(s) => selection@ == Some(s@),
            Err(e) => selection@ is None && e == SearchError::NoInstance,
        },
{
    match get_selected_instance(selection) {
        Some(s) => Ok(s),
        None => Err(SearchError::NoInstance),
    }
}

/// A mirror none of whose health checks succeeded is never selected while
/// some mirror has a successful check (mirrors told apart by their URLs).
pub proof fn lemma_unanswered_never_selected(urls: Seq<Seq<char>>, scores: Seq<Option<u64>>, k: int)
    requires
        urls.no_duplicates(),
        urls.len() == scores.len(),
        0 <= k < scores.len(),
        scores[k] is None,
        any_scored(scores),
    ensures
        race_choice(urls, scores) != urls[k],
{
    lemma_race_selects_fastest(urls, scores);
    let w = choose|i: int| #[trigger] is_winner(scores, i) && race_choice(urls, scores) == urls[i];
    assert(w != k);
}

/// The catalog's mirrors have distinct URLs.
pub proof fn lemma_catalog_urls_distinct()
    ensures
        catalog().map_values(|v: InstanceView| v.api_url).no_duplicates(),
{
        reveal_strlit("https://api.piped.privacydev.net");
        reveal_strlit("https://pipedapi.adminforge.de");
        reveal_strlit("https://pipedapi.leptons.xyz");
        reveal_strlit("https://api.piped.private.coffee");
        reveal_strlit("https://pipedapi.lunar.icu");
        reveal_strlit("https://pipedapi.wireway.ch");
        reveal_strlit("https://piped.smnz.de");
        reveal_strlit("https://api.piped.yt");
        reveal_strlit("https://pipedapi.reallyaweso.me");
        reveal_strlit("https://pipedapi-libre.kavin.rocks/");
        reveal_strlit("https://pipedapi.ducks.party");
        reveal_strlit("https://piped-api.codespace.cz");
        reveal_strlit("https://pipedapi.drgns.space");
        reveal_strlit("https://piapi.ggtyler.dev");
    let urls = catalog().map_values(|v: InstanceView| v.api_url);
    assert(urls[0].len() != urls[1].len());
    assert(urls[0].len() != urls[2].len());
    assert(urls[0][23] != urls[3][23]);
    assert(urls[0].len() != urls[4].len());
    assert(urls[0].len() != urls[5].len());
    assert(urls[0].len() != urls[6].len());
    assert(urls[0].len() != urls[7].len());
    assert(urls[0].len() != urls[8].len());
    assert(urls[0].len() != urls[9].len());
    assert(urls[0].len() != urls[10].len());
    assert(urls[0].len() != urls[11].len());
    assert(urls[0].len() != urls[12].len());
    assert(urls[0].len() != urls[13].len());
    assert(urls[1].len() != urls[2].len());
    assert(urls[1].len() != urls[3].len());
    assert(urls[1].len() != urls[4].len());
    assert(urls[1].len() != urls[5].len());
    assert(urls[1].len() != urls[6].len());
    assert(urls[1].len() != urls[7].len());
    assert(urls[1].len() != urls[8].len());
    assert(urls[1].len() != urls[9].len());
    assert(urls[1].len() != urls[10].len());
    assert(urls[1][13] != urls[11][13]);
    assert(urls[1].len() != urls[12].len());
    assert(urls[1].len() != urls[13].len());
    assert(urls[2].len() != urls[3].len());
    assert(urls[2].len() != urls[4].len());
    assert(urls[2].len() != urls[5].len());
    assert(urls[2].len() != urls[6].len());
    assert(urls[2].len() != urls[7].len());
    assert(urls[2].len() != urls[8].len());
    assert(urls[2].len() != urls[9].len());
    assert(urls[2][17] != urls[10][17]);
    assert(urls[2].len() != urls[11].len());
    assert(urls[2][17] != urls[12][17]);
    assert(urls[2].len() != urls[13].len());
    assert(urls[3].len() != urls[4].len());
    assert(urls[3].len() != urls[5].len());
    assert(urls[3].len() != urls[6].len());
    assert(urls[3].len() != urls[7].len());
    assert(urls[3].len() != urls[8].len());
    assert(urls[3].len() != urls[9].len());
    assert(urls[3].len() != urls[10].len());
    assert(urls[3].len() != urls[11].len());
    assert(urls[3].len() != urls[12].len());
    assert(urls[3].len() != urls[13].len());
    assert(urls[4].len() != urls[5].len());
    assert(urls[4].len() != urls[6].len());
    assert(urls[4].len() != urls[7].len());
    assert(urls[4].len() != urls[8].len());
    assert(urls[4].len() != urls[9].len());
    assert(urls[4].len() != urls[10].len());
    assert(urls[4].len() != urls[11].len());
    assert(urls[4].len() != urls[12].len());
    assert(urls[4].len() != urls[13].len());
    assert(urls[5].len() != urls[6].len());
    assert(urls[5].len() != urls[7].len());
    assert(urls[5].len() != urls[8].len());
    assert(urls[5].len() != urls[9].len());
    assert(urls[5].len() != urls[10].len());
    assert(urls[5].len() != urls[11].len());
    assert(urls[5].len() != urls[12].len());
    assert(urls[5].len() != urls[13].len());
    assert(urls[6].len() != urls[7].len());
    assert(urls[6].len() != urls[8].len());
    assert(urls[6].len() != urls[9].len());
    assert(urls[6].len() != urls[10].len());
    assert(urls[6].len() != urls[11].len());
    assert(urls[6].len() != urls[12].len());
    assert(urls[6].len() != urls[13].len());
    assert(urls[7].len() != urls[8].len());
    assert(urls[7].len() != urls[9].len());
    assert(urls[7].len() != urls[10].len());
    assert(urls[7].len() != urls[11].len());
    assert(urls[7].len() != urls[12].len());
    assert(urls[7].len() != urls[13].len());
    assert(urls[8].len() != urls[9].len());
    assert(urls[8].len() != urls[10].len());
    assert(urls[8].len() != urls[11].len());
    assert(urls[8].len() != urls[12].len());
    assert(urls[8].len() != urls[13].len());
    assert(urls[9].len() != urls[10].len());
    assert(urls[9].len() != urls[11].len());
    assert(urls[9].len() != urls[12].len());
    assert(urls[9].len() != urls[13].len());
    assert(urls[10].len() != urls[11].len());
    assert(urls[10][18] != urls[12][18]);
    assert(urls[10].len() != urls[13].len());
    assert(urls[11].len() != urls[12].len());
    assert(urls[11].len() != urls[13].len());
    assert(urls[12].len() != urls[13].len());
    assert forall|i: int, j: int| 0 <= i < urls.len() && 0 <= j < urls.len() && i != j implies urls[i]
        != urls[j] by {
        assert(i == 0 || i == 1 || i == 2 || i == 3 || i == 4 || i == 5 || i == 6 || i == 7 || i == 8
            || i == 9 || i == 10 || i == 11 || i == 12 || i == 13);
        assert(j == 0 || j == 1 || j == 2 || j == 3 || j == 4 || j == 5 || j == 6 || j == 7 || j == 8
            || j == 9 || j == 10 || j == 11 || j == 12 || j == 13);
    }
}

/// Completes a probing round from the outcomes of each instance's health
/// checks (`samples[i]` for `instances[i]`: a latency in milliseconds, or
/// `None` for a check that failed or timed out): the selection becomes the
/// instance with the lowest mean latency among those with a successful
/// check (the first of them on a tie), or the fallback mirror when no check
/// succeeded.
pub fn select_best_piped_instance(
    selection: &mut InstanceSelection,
    instances: &Vec<PipedInstance>,
    samples: &Vec<Vec<Option<u64>>>,
)
    requires
        instances@.len() == samples@.len(),
    ensures
        final(selection)@ == Some(
            race_choice(
                instances_view(instances@).map_values(|v: InstanceView| v.api_url),
                samples@.map_values(|s: Vec<Option<u64>>| mean_latency(s@)),
            ),
        ),
{
    let mut scores: Vec<Option<u64>> = Vec::new();
    for i in 0..samples.len()
        invariant
            scores@ == samples@.subrange(0, i as int).map_values(|s: Vec<Option<u64>>| mean_latency(s@)),
    {
        let ghost before = scores@;
        scores.push(average_ping(&samples[i]));
        assert(scores@ =~= samples@.subrange(0, i + 1).map_values(|s: Vec<Option<u64>>| mean_latency(s@)));
    }
    assert(samples@.subrange(0, samples@.len() as int) =~= samples@);
    let url = select_best_instance(instances, &scores);
    selection.selected = Some(url);
}

} // verus!
