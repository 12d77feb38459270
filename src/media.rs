//! Request checks for serving audio: the quality a request names, the file
//! format that goes with it, and the byte range of a partial request.

use vstd::prelude::*;
use crate::text::{matches_at, occurs_at, same_text};

verus! {

/// The quality of a served audio file.
#[derive(Clone, Copy, Debug, PartialEq, Eq, Structural)]
pub enum AudioQuality {
    /// MP3.
    Compressed,
    /// FLAC.
    Lossless,
}

impl AudioQuality {
    /// The quality a download names: `compressed` or `lossless`, nothing else.
    pub fn from_param(quality: &str) -> (r: Option<AudioQuality>)
        ensures
            r == if quality@ == "compressed"@ {
                Some(AudioQuality::Compressed)
            } else if quality@ == "lossless"@ {
                Some(AudioQuality::Lossless)
            } else {
                None
            },
    {
        if same_text(quality, "compressed") {
            Some(AudioQuality::Compressed)
        } else if same_text(quality, "lossless") {
            Some(AudioQuality::Lossless)
        } else {
            None
        }
    }

    /// The quality a stream serves: compressed when asked for, else lossless.
    pub fn for_stream(quality: &str) -> (r: AudioQuality)
        ensures
            r == if quality@ == "compressed"@ {
                AudioQuality::Compressed
            } else {
                AudioQuality::Lossless
            },
    {
        if same_text(quality, "compressed") {
            AudioQuality::Compressed
        } else {
            AudioQuality::Lossless
        }
    }

    /// The file extension.
    pub fn extension(&self) -> (r: &'static str)
        ensures
            r@ == match *self {
                AudioQuality::Compressed => "mp3"@,
                AudioQuality::Lossless => "flac"@,
            },
    {
        match self {
            AudioQuality::Compressed => "mp3",
            AudioQuality::Lossless => "flac",
        }
    }

    /// The media type of the served file.
    pub fn content_type(&self) -> (r: &'static str)
        ensures
            r@ == match *self {
                AudioQuality::Compressed => "audio/mpeg"@,
                AudioQuality::Lossless => "audio/flac"@,
            },
    {
        match self {
            AudioQuality::Compressed => "audio/mpeg",
            AudioQuality::Lossless => "audio/flac",
        }
    }

    /// The cache directory of files of this quality.
    pub fn dir_name(&self) -> (r: &'static str)
        ensures
            r@ == match *self {
                AudioQuality::Compressed => "compressed"@,
                AudioQuality::Lossless => "lossless"@,
            },
    {
        match self {
            AudioQuality::Compressed => "compressed",
            AudioQuality::Lossless => "lossless",
        }
    }
}

/// Whether a file extension is one of a finished audio file; the cache
/// directories keep those and clear out the rest.
pub fn is_audio_extension(ext: &str) -> (r: bool)
    ensures
        r == (ext@ == "flac"@ || ext@ == "mp3"@),
{
    same_text(ext, "flac") || same_text(ext, "mp3")
}

/// A download request is served only with a non-empty id and a known
/// quality.
pub fn download_quality(id: &str, quality: &str) -> (r: Option<AudioQuality>)
    ensures
        r == if id@.len() == 0 {
            None
        } else if quality@ == "compressed"@ {
            Some(AudioQuality::Compressed)
        } else if quality@ == "lossless"@ {
            Some(AudioQuality::Lossless)
        } else {
            None
        },
{
    if id.unicode_len() == 0 {
        None
    } else {
        AudioQuality::from_param(quality)
    }
}

/// `s` with every leading repetition of `p` removed.
pub open spec fn strip_leading(s: Seq<char>, p: Seq<char>) -> Seq<char>
    decreases s.len(),
{
    if p.len() > 0 && occurs_at(s, p, 0) {
        strip_leading(s.subrange(p.len() as int, s.len() as int), p)
    } else {
        s
    }
}

pub open spec fn is_digit(c: char) -> bool {
    '0' <= c && c <= '9'
}

/// The value of a string of decimal digits.
pub open spec fn digits_value(s: Seq<char>) -> int
    decreases s.len(),
{
    if s.len() == 0 {
        0
    } else {
        digits_value(s.drop_last()) * 10 + (s.last() as int - '0' as int)
    }
}

/// What reading `s` as an unsigned 64-bit decimal gives: an optional `+`,
/// then one or more digits whose value fits.
pub open spec fn parse_u64(s: Seq<char>) -> Option<u64> {
    let d = unsigned_digits(s);
    if d.len() > 0 && all_digits(d) && digits_value(d) <= u64::MAX {
        Some(digits_value(d) as u64)
    } else {
        None
    }
}

/// `s` without its leading `+`, if any.
pub open spec fn unsigned_digits(s: Seq<char>) -> Seq<char> {
    if s.len() > 0 && s[0] == '+' {
        s.drop_first()
    } else {
        s
    }
}

pub open spec fn all_digits(d: Seq<char>) -> bool {
    forall|i: int| 0 <= i < d.len() ==> is_digit(#[trigger] d[i])
}

proof fn lemma_digits_value_grows(d: Seq<char>, j: int)
    requires
        0 <= j <= d.len(),
        forall|i: int| 0 <= i < d.len() ==> is_digit(#[trigger] d[i]),
    ensures
        0 <= digits_value(d.subrange(0, j)) <= digits_value(d),
    decreases d.len(),
{
    if j == d.len() {
        assert(d.subrange(0, j) =~= d);
        if d.len() > 0 {
            lemma_digits_value_grows(d.drop_last(), d.len() - 1);
            assert(d.drop_last().subrange(0, d.len() - 1) =~= d.drop_last());
        }
    } else {
        lemma_digits_value_grows(d.drop_last(), j);
        assert(d.drop_last().subrange(0, j) =~= d.subrange(0, j));
        assert(d.drop_last().subrange(0, d.len() - 1) =~= d.drop_last());
        lemma_digits_value_grows(d.drop_last(), d.len() - 1);
    }
}

/// Reads `s[from..to]` as an unsigned 64-bit decimal.
fn parse_u64_range(s: &str, from: usize, to: usize) -> (r: Option<u64>)
    requires
        from <= to <= s@.len(),
    ensures
        r == parse_u64(s@.subrange(from as int, to as int)),
{
    let ghost t = s@.subrange(from as int, to as int);
    let mut start = from;
    if from < to && s.get_char(from) == '+' {
        start = from + 1;
    }
    let ghost d = s@.subrange(start as int, to as int);
    assert(d =~= unsigned_digits(t));
    if start == to {
        assert(d.len() == 0);
        return None;
    }
    let mut acc: u64 = 0;
    let mut k: usize = start;
    while k < to
        invariant
            start <= k <= to,
            to <= s@.len(),
            d == s@.subrange(start as int, to as int),
            d == unsigned_digits(t),
            t == s@.subrange(from as int, to as int),
            forall|i: int| 0 <= i < k - start ==> is_digit(#[trigger] d[i]),
            acc as int == digits_value(d.subrange(0, k - start)),
        decreases to - k,
    {
        let c = s.get_char(k);
        assert(c == d[k - start]);
        if !('0' <= c && c <= '9') {
            assert(!is_digit(d[k - start]));
            assert(!all_digits(d));
            return None;
        }
        let digit = (c as u32 - '0' as u32) as u64;
        assert(digit as int == c as int - '0' as int);
        let ghost prefix = d.subrange(0, k - start + 1);
        assert(prefix.drop_last() =~= d.subrange(0, k - start));
        assert(prefix.last() == c);
        assert(digits_value(prefix) == acc * 10 + digit);
        if acc > (u64::MAX - digit) / 10 {
            proof {
                assert(digits_value(prefix) > u64::MAX) by (nonlinear_arith)
                    requires
                        digits_value(prefix) == acc * 10 + digit,
                        acc > (u64::MAX - digit) / 10,
                        digit <= 9,
                ;
                if all_digits(d) {
                    lemma_digits_value_grows(d, k - start + 1);
                }
            }
            return None;
        }
        assert(acc * 10 + digit <= u64::MAX) by (nonlinear_arith)
            requires
                acc <= (u64::MAX - digit) / 10,
                digit <= 9,
        ;
        acc = acc * 10 + digit;
        k = k + 1;
    }
    assert(d.subrange(0, d.len() as int) =~= d);
    Some(acc)
}

/// Why a byte range is refused.
#[derive(Clone, Copy, Debug, PartialEq, Eq, Structural)]
pub enum RangeError {
    /// The requested range does not lie within the file.
    NotSatisfiable,
}

pub open spec fn byte_unit_prefix() -> Seq<char> {
    "bytes="@
}

/// The first and the second piece of a `-`-separated range; the second is
/// absent when there is no `-`.
pub open spec fn range_pieces(s: Seq<char>) -> (Seq<char>, Option<Seq<char>>) {
    let dash = crate::text::find_from(s, seq!['-'], 0);
    if dash < 0 {
        (s, None)
    } else {
        let next = crate::text::find_from(s, seq!['-'], dash + 1);
        (s.subrange(0, dash), Some(s.subrange(dash + 1, if next < 0 { s.len() as int } else { next })))
    }
}

/// The byte range a `Range` header asks for, given the file's length:
/// `bytes=start-end`, a missing or unreadable start meaning 0 and a missing
/// or unreadable end meaning the last byte.
pub open spec fn requested_range(header: Seq<char>, total: u64) -> (u64, u64) {
    let pieces = range_pieces(strip_leading(header, byte_unit_prefix()));
    let start = match parse_u64(pieces.0) {
        Some(v) => v,
        None => 0,
    };
    let end = match pieces.1 {
        Some(e) => match parse_u64(e) {
            Some(v) => v,
            None => (total - 1) as u64,
        },
        None => (total - 1) as u64,
    };
    (start, end)
}

/// Where the text after the leading `bytes=` units of `range` starts.
fn skip_byte_unit(range: &str) -> (from: usize)
    ensures
        from <= range@.len(),
        strip_leading(range@, byte_unit_prefix()) == range@.subrange(from as int, range@.len() as int),
{
    let prefix = "bytes=";
    proof {
        reveal_strlit("bytes=");
    }
    let n = range.unicode_len();
    let ghost full = range@;
    let mut from: usize = 0;
    assert(full.subrange(0, n as int) =~= full);
    while from <= n && n - from >= 6 && matches_at(range, prefix, from)
        invariant
            n == full.len(),
            full == range@,
            prefix@ == byte_unit_prefix(),
            prefix@.len() == 6,
            from <= n,
            strip_leading(full, byte_unit_prefix()) == strip_leading(full.subrange(from as int, n as int), byte_unit_prefix()),
        decreases n - from,
    {
        let ghost rest = full.subrange(from as int, n as int);
        assert(full.subrange(from as int, from + 6) == byte_unit_prefix());
        assert(rest.subrange(0, 6) =~= full.subrange(from as int, from + 6));
        assert(occurs_at(rest, byte_unit_prefix(), 0));
        assert(rest.subrange(6, rest.len() as int) =~= full.subrange(from + 6, n as int));
        from = from + 6;
    }
    let ghost rest = full.subrange(from as int, n as int);
    proof {
        if occurs_at(rest, byte_unit_prefix(), 0) {
            assert(full.subrange(from as int, from + 6) =~= rest.subrange(0, 6));
        }
    }
    from
}

/// The two pieces of `range[from..]` split on `-`: the end of the first,
/// and the bounds of the second, if there is a `-`.
fn split_range(range: &str, from: usize) -> (r: (usize, Option<(usize, usize)>))
    requires
        from <= range@.len(),
    ensures
        ({
            let rest = range@.subrange(from as int, range@.len() as int);
            let pieces = range_pieces(rest);
            &&& from <= r.0 <= range@.len()
            &&& pieces.0 == range@.subrange(from as int, r.0 as int)
            &&& match r.1 {
                Some((a, b)) => a <= b <= range@.len() && pieces.1 == Some(range@.subrange(a as int, b as int)),
                None => pieces.1 is None,
            }
        }),
{
    let ghost full = range@;
    let n = range.unicode_len();
    let ghost rest = full.subrange(from as int, n as int);
    let ghost dash_seq = seq!['-'];
    proof {
        reveal_strlit("-");
        assert("-"@ =~= dash_seq);
    }
    let dash = crate::text::find_at_or_after(range, "-", from);
    proof {
        lemma_find_shift(full, dash_seq, from as int, 0);
    }
    match dash {
        Some(d) => {
            proof {
                crate::text::lemma_find_from_occurs(full, dash_seq, from as int);
            }
            let next = crate::text::find_at_or_after(range, "-", d + 1);
            proof {
                lemma_find_shift(full, dash_seq, from as int, d + 1 - from);
                if next.is_some() {
                    crate::text::lemma_find_from_occurs(full, dash_seq, d + 1);
                }
            }
            let stop = match next {
                Some(e) => e,
                None => n,
            };
            assert(rest.subrange(0, d - from) =~= full.subrange(from as int, d as int));
            assert(rest.subrange(d + 1 - from, stop - from) =~= full.subrange(d + 1, stop as int));
            (d, Some((d + 1, stop)))
        },
        None => {
            assert(rest =~= full.subrange(from as int, n as int));
            (n, None)
        },
    }
}

/// The inclusive byte range `(start, end)` of a partial request on a file of
/// `total_length` bytes; refused unless `start <= end < total_length`.
pub fn parse_range(range: &str, total_length: u64) -> (r: Result<(u64, u64), RangeError>)
    ensures
        ({
            let (start, end) = requested_range(range@, total_length);
            if total_length > 0 && start <= end && end < total_length {
                r == Ok::<(u64, u64), RangeError>((start, end))
            } else {
                r == Err::<(u64, u64), RangeError>(RangeError::NotSatisfiable)
            }
        }),
{
    let from = skip_byte_unit(range);
    let (first_end, second) = split_range(range, from);
    let start = match parse_u64_range(range, from, first_end) {
        Some(v) => v,
        None => 0,
    };
    let end_parsed = match second {
        Some((a, b)) => parse_u64_range(range, a, b),
        None => None,
    };
    if total_length == 0 {
        return Err(RangeError::NotSatisfiable);
    }
    let end = match end_parsed {
        Some(v) => v,
        None => total_length - 1,
    };
    if start >= total_length || end >= total_length || start > end {
        Err(RangeError::NotSatisfiable)
    } else {
        Ok((start, end))
    }
}

/// Searching in a suffix is searching in the whole from the suffix's start,
/// shifted.
proof fn lemma_find_shift(s: Seq<char>, pat: Seq<char>, off: int, k: int)
    requires
        0 <= off <= s.len(),
        0 <= k,
    ensures
        ({
            let t = s.subrange(off, s.len() as int);
            let a = crate::text::find_from(t, pat, k);
            let b = crate::text::find_from(s, pat, off + k);
            (a < 0 && b < 0) || (a >= 0 && b == a + off)
        }),
    decreases s.len() + 1 - (off + k),
{
    let t = s.subrange(off, s.len() as int);
    if k + pat.len() > t.len() {
    } else {
        assert(t.subrange(k, k + pat.len()) =~= s.subrange(off + k, off + k + pat.len()));
        if !crate::text::occurs_at(t, pat, k) {
            lemma_find_shift(s, pat, off, k + 1);
        }
    }
}

} // verus!
