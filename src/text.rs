//! Character-level helpers on strings, and the extraction of an item id
//! from its canonical URL.

use vstd::prelude::*;

verus! {

/// `pat` occurs in `s` starting at index `i`.
pub open spec fn occurs_at(s: Seq<char>, pat: Seq<char>, i: int) -> bool {
    0 <= i && i + pat.len() <= s.len() && s.subrange(i, i + pat.len()) == pat
}

/// Index of the first occurrence of `pat` in `s` at or after `from`; `-1` if none.
pub open spec fn find_from(s: Seq<char>, pat: Seq<char>, from: int) -> int
    decreases s.len() + 1 - from,
{
    if from < 0 || from + pat.len() > s.len() {
        -1
    } else if occurs_at(s, pat, from) {
        from
    } else {
        find_from(s, pat, from + 1)
    }
}

/// `pat` occurs somewhere in `s`.
pub open spec fn contains_pat(s: Seq<char>, pat: Seq<char>) -> bool {
    find_from(s, pat, 0) >= 0
}

/// The text between the first occurrence of `pat` and the next one (or the
/// end): the second piece of `s` split on `pat`.
pub open spec fn piece_after(s: Seq<char>, pat: Seq<char>) -> Seq<char> {
    let start = find_from(s, pat, 0) + pat.len();
    let next = find_from(s, pat, start);
    s.subrange(start, if next < 0 { s.len() as int } else { next })
}

/// Index of the last `c` among the first `end` characters of `s`; `-1` if none.
pub open spec fn last_index_of(s: Seq<char>, c: char, end: int) -> int
    decreases end,
{
    if end <= 0 {
        -1
    } else if s[end - 1] == c {
        end - 1
    } else {
        last_index_of(s, c, end - 1)
    }
}

/// The last piece of `s` split on `/` (all of `s` when it holds no `/`).
pub open spec fn last_segment(s: Seq<char>) -> Seq<char> {
    s.subrange(last_index_of(s, '/', s.len() as int) + 1, s.len() as int)
}

pub open spec fn list_marker() -> Seq<char> {
    seq!['l', 'i', 's', 't', '=']
}

pub open spec fn video_marker() -> Seq<char> {
    seq!['v', '=']
}

/// The id of an item, read from its canonical URL: what follows `list=`,
/// else what follows `v=`, else the final path segment.
pub open spec fn id_from_url(url: Seq<char>) -> Seq<char> {
    if contains_pat(url, list_marker()) {
        piece_after(url, list_marker())
    } else if contains_pat(url, video_marker()) {
        piece_after(url, video_marker())
    } else {
        last_segment(url)
    }
}

/// Whether `pat` occurs in `s` at index `i`.
pub fn matches_at(s: &str, pat: &str, i: usize) -> (r: bool)
    ensures
        r == occurs_at(s@, pat@, i as int),
{
    let slen = s.unicode_len();
    let plen = pat.unicode_len();
    if i > slen || plen > slen - i {
        return false;
    }
    let mut k: usize = 0;
    while k < plen
        invariant
            slen == s@.len(),
            plen == pat@.len(),
            i + plen <= slen,
            k <= plen,
            forall|j: int| 0 <= j < k ==> s@[i + j] == pat@[j],
        decreases plen - k,
    {
        if s.get_char(i + k) != pat.get_char(k) {
            assert(s@.subrange(i as int, i + plen)[k as int] != pat@[k as int]);
            return false;
        }
        k = k + 1;
    }
    assert(s@.subrange(i as int, i + plen) =~= pat@);
    true
}

/// The first occurrence of `pat` in `s` at or after `from`.
pub fn find_at_or_after(s: &str, pat: &str, from: usize) -> (r: Option<usize>)
    ensures
        match r {
            Some(i) => find_from(s@, pat@, from as int) == i as int,
            None => find_from(s@, pat@, from as int) == -1,
        },
{
    let slen = s.unicode_len();
    let plen = pat.unicode_len();
    let mut i: usize = from;
    while i <= slen && plen <= slen - i
        invariant
            slen == s@.len(),
            plen == pat@.len(),
            from <= i,
            find_from(s@, pat@, from as int) == find_from(s@, pat@, i as int),
        decreases slen + 1 - i,
    {
        if matches_at(s, pat, i) {
            return Some(i);
        }
        if i == slen {
            assert(find_from(s@, pat@, i + 1) == -1);
            return None;
        }
        i = i + 1;
    }
    None
}

/// The second piece of `s` split on `pat`, when `pat` occurs in it.
fn piece_after_exec(s: &str, pat: &str) -> (r: String)
    requires
        contains_pat(s@, pat@),
    ensures
        r@ == piece_after(s@, pat@),
{
    let first = find_at_or_after(s, pat, 0);
    match first {
        Some(i) => {
            let plen = pat.unicode_len();
            let slen = s.unicode_len();
            assert(occurs_at(s@, pat@, i as int)) by {
                lemma_find_from_occurs(s@, pat@, 0);
            }
            let start = i + plen;
            let end = match find_at_or_after(s, pat, start) {
                Some(j) => {
                    proof {
                        lemma_find_from_occurs(s@, pat@, start as int);
                    }
                    j
                },
                None => slen,
            };
            String::from_str(s.substring_char(start, end))
        },
        None => String::new(),
    }
}

/// What `find_from` returns is an occurrence at or after `from`.
pub proof fn lemma_find_from_occurs(s: Seq<char>, pat: Seq<char>, from: int)
    requires
        find_from(s, pat, from) >= 0,
    ensures
        from <= find_from(s, pat, from),
        occurs_at(s, pat, find_from(s, pat, from)),
    decreases s.len() + 1 - from,
{
    if from < 0 || from + pat.len() > s.len() {
    } else if occurs_at(s, pat, from) {
    } else {
        lemma_find_from_occurs(s, pat, from + 1);
    }
}

/// The last piece of `s` split on `/`.
pub fn last_segment_exec(s: &str) -> (r: String)
    ensures
        r@ == last_segment(s@),
{
    let slen = s.unicode_len();
    let mut end: usize = slen;
    while end > 0 && s.get_char(end - 1) != '/'
        invariant
            slen == s@.len(),
            end <= slen,
            last_index_of(s@, '/', slen as int) == last_index_of(s@, '/', end as int),
        decreases end,
    {
        end = end - 1;
    }
    String::from_str(s.substring_char(end, slen))
}

/// The id of an item, read from its canonical URL: what follows `list=`
/// (up to a further `list=`), else what follows `v=` (likewise), else the
/// final path segment.
pub fn extract_id(url: &str) -> (r: String)
    ensures
        r@ == id_from_url(url@),
{
    let list = "list=";
    let video = "v=";
    proof {
        reveal_strlit("list=");
        reveal_strlit("v=");
        assert(list@ =~= list_marker());
        assert(video@ =~= video_marker());
    }
    if find_at_or_after(url, list, 0).is_some() {
        piece_after_exec(url, list)
    } else if find_at_or_after(url, video, 0).is_some() {
        piece_after_exec(url, video)
    } else {
        last_segment_exec(url)
    }
}

/// Whether two strings hold the same characters.
pub fn same_text(a: &str, b: &str) -> (r: bool)
    ensures
        r == (a@ == b@),
{
    let n = a.unicode_len();
    if n != b.unicode_len() {
        return false;
    }
    let r = matches_at(a, b, 0);
    assert(r ==> a@ =~= b@) by {
        if r {
            assert(a@.subrange(0, n as int) =~= a@);
        }
    }
    assert(a@ == b@ ==> r) by {
        if a@ == b@ {
            assert(a@.subrange(0, n as int) =~= a@);
        }
    }
    r
}

} // verus!
