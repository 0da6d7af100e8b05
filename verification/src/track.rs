//! Track metadata: the lookup table handed over by the host bridge, the
//! immutable `TrackInfo` snapshot built from it, and the errors that can
//! arise on the way.
use vstd::prelude::*;
use vstd::string::StrSliceExecFns;
use vstd::string::StringExecFns;

verus! {

/// Failure to bind a required method of the host player's API at startup.
#[derive(Debug)]
pub enum ApiError {
    MethodNotFound(String),
}

/// Failure to read a configuration string from the host's storage.
#[derive(Debug)]
pub enum ConfigError {
    ConvertKey,
    KeyMissing,
    ReadString,
}

/// Failure to decode a raw metadata entry handed over by the host.
#[derive(Debug, PartialEq, Eq, Clone, Copy)]
pub enum MetadataError {
    InvalidKey,
    InvalidValue,
}

/// Failure to build a `TrackInfo` snapshot.
#[derive(Debug)]
pub enum TrackInfoError {
    ReadMetadata(MetadataError),
    MetadataKeyNotFound(String),
    NoTrack,
}

/// An immutable snapshot of one track's metadata, taken when the host
/// callback fired. Durations are held in integer milliseconds.
#[derive(Debug)]
pub struct TrackInfo {
    pub artist: String,
    pub album_artist: Option<String>,
    pub album: String,
    pub title: String,
    pub year: Option<u32>,
    pub disc_number: Option<u32>,
    pub total_discs: Option<u32>,
    pub track_number: Option<u32>,
    pub total_tracks: Option<u32>,
    pub duration_millis: u64,
}

/// The key/value pairs read from the host's metadata list, in the order they
/// were read. A key read twice keeps its later value; the bridge lowercases
/// keys before inserting them.
#[derive(Debug)]
pub struct Metadata {
    entries: Vec<(String, String)>,
}

/// The value stored under `key`: the value of the latest entry whose key
/// matches, or `None` when no entry matches.
pub open spec fn lookup(entries: Seq<(String, String)>, key: Seq<char>) -> Option<Seq<char>>
    decreases entries.len(),
{
    if entries.len() == 0 {
        None
    } else if entries.last().0@ == key {
        Some(entries.last().1@)
    } else {
        lookup(entries.drop_last(), key)
    }
}

impl View for Metadata {
    type V = Seq<(String, String)>;

    closed spec fn view(&self) -> Seq<(String, String)> {
        self.entries@
    }
}

impl Metadata {
    /// An empty table.
    pub fn new() -> (r: Metadata)
        ensures
            r@ == Seq::<(String, String)>::empty(),
    {
        Metadata { entries: Vec::new() }
    }

    /// Records one key/value pair, shadowing any earlier entry with the same
    /// key.
    pub fn insert(&mut self, key: String, value: String)
        ensures
            final(self)@ == old(self)@.push((key, value)),
    {
        self.entries.push((key, value));
    }

    /// Looks `key` up, returning the latest value recorded under it.
    pub fn get<'a>(&'a self, key: &String) -> (r: Option<&'a String>)
        ensures
            match r {
                Some(v) => lookup(self@, key@) == Some(v@),
                None => lookup(self@, key@) is None,
            },
    {
        let n = self.entries.len();
        let mut i: usize = n;
        proof {
            assert(self@.take(n as int) =~= self@);
        }
        while i > 0
            invariant
                i <= n,
                n == self@.len(),
                lookup(self@, key@) == lookup(self@.take(i as int), key@),
            decreases i,
        {
            i = i - 1;
            proof {
                assert(self@.take(i + 1 as int).last() == self@[i as int]);
                assert(self@.take(i + 1 as int).drop_last() =~= self@.take(i as int));
            }
            if self.entries[i].0 == *key {
                return Some(&self.entries[i].1);
            }
        }
        proof {
            assert(self@.take(0) =~= Seq::<(String, String)>::empty());
        }
        None
    }
}

/// Whether `c` is a decimal digit.
pub open spec fn is_dec_digit(c: char) -> bool {
    48 <= c as int && c as int <= 57
}

/// The value of one decimal digit.
pub open spec fn digit_val(c: char) -> int {
    c as int - 48
}

/// The number written by a digit sequence, most significant first.
pub open spec fn digits_val(s: Seq<char>) -> int
    decreases s.len(),
{
    if s.len() == 0 {
        0
    } else {
        digits_val(s.drop_last()) * 10 + digit_val(s.last())
    }
}

/// Whether every character of `s` is a decimal digit.
pub open spec fn all_digits(s: Seq<char>) -> bool {
    forall|i: int| 0 <= i < s.len() ==> is_dec_digit(s[i])
}

/// What `str::parse::<u32>` accepts: an optional leading plus sign, then at
/// least one digit, no other characters, and a value that fits in 32 bits.
/// Anything else is unparsable, and such metadata values are dropped.
pub open spec fn parse_u32_spec(s: Seq<char>) -> Option<u32> {
    let t = if s.len() > 0 && s[0] == '+' {
        s.drop_first()
    } else {
        s
    };
    if t.len() > 0 && all_digits(t) && digits_val(t) <= u32::MAX {
        Some(digits_val(t) as u32)
    } else {
        None
    }
}

proof fn lemma_digits_val_nonneg(s: Seq<char>)
    requires
        all_digits(s),
    ensures
        digits_val(s) >= 0,
    decreases s.len(),
{
    if s.len() > 0 {
        assert(all_digits(s.drop_last())) by {
            assert(forall|i: int|
                0 <= i < s.drop_last().len() ==> s.drop_last()[i] == s[i] && is_dec_digit(s[i]));
        }
        lemma_digits_val_nonneg(s.drop_last());
    }
}

/// A digit string never writes a smaller number than any of its prefixes.
proof fn lemma_digits_val_prefix(s: Seq<char>, k: int)
    requires
        all_digits(s),
        0 <= k <= s.len(),
    ensures
        digits_val(s.take(k)) <= digits_val(s),
    decreases s.len() - k,
{
    if k == s.len() {
        assert(s.take(k) =~= s);
    } else {
        assert(all_digits(s.take(k))) by {
            assert(forall|i: int|
                0 <= i < s.take(k).len() ==> s.take(k)[i] == s[i] && is_dec_digit(s[i]));
        }
        lemma_digits_val_nonneg(s.take(k));
        assert(s.take(k + 1).drop_last() =~= s.take(k));
        assert(s.take(k + 1).last() == s[k]);
        assert(digits_val(s.take(k + 1)) == digits_val(s.take(k)) * 10 + digit_val(s[k]));
        lemma_digits_val_prefix(s, k + 1);
    }
}

/// Parses a `u32` the way the host metadata values are parsed: an optional
/// plus sign, decimal digits, nothing else; unparsable or overflowing values
/// give `None`.
pub fn parse_u32(s: &str) -> (r: Option<u32>)
    ensures
        r == parse_u32_spec(s@),
{
    let n = s.unicode_len();
    let start: usize = if n > 0 && s.get_char(0) == '+' {
        1
    } else {
        0
    };
    let ghost t = if s@.len() > 0 && s@[0] == '+' {
        s@.drop_first()
    } else {
        s@
    };
    proof {
        assert(t =~= s@.subrange(start as int, n as int));
    }
    if start == n {
        return None;
    }
    let mut acc: u64 = 0;
    let mut j: usize = start;
    proof {
        assert(t.take(0) =~= Seq::<char>::empty());
    }
    while j < n
        invariant
            start <= j <= n,
            n == s@.len(),
            t == s@.subrange(start as int, n as int),
            t == (if s@.len() > 0 && s@[0] == '+' {
                s@.drop_first()
            } else {
                s@
            }),
            t.len() == n - start,
            acc as int == digits_val(t.take(j - start)),
            acc <= 0xffff_ffffu64,
            all_digits(t.take(j - start)),
        decreases n - j,
    {
        let c = s.get_char(j);
        proof {
            assert(t[j - start] == s@[j as int]);
        }
        let d: u64 = match c {
            '0' => 0,
            '1' => 1,
            '2' => 2,
            '3' => 3,
            '4' => 4,
            '5' => 5,
            '6' => 6,
            '7' => 7,
            '8' => 8,
            '9' => 9,
            _ => {
                proof {
                    assert(!is_dec_digit(t[j - start]));
                }
                return None;
            },
        };
        proof {
            assert(is_dec_digit(c) && d as int == digit_val(c));
        }
        let acc2 = acc * 10 + d;
        proof {
            assert(t.take(j - start + 1).drop_last() =~= t.take(j - start));
            assert(t.take(j - start + 1).last() == t[j - start]);
            assert(acc2 as int == digits_val(t.take(j - start + 1)));
            assert(all_digits(t.take(j - start + 1))) by {
                assert(forall|i: int|
                    0 <= i < j - start + 1 ==> t.take(j - start + 1)[i] == t[i]);
            }
        }
        if acc2 > 0xffff_ffffu64 {
            proof {
                if all_digits(t) && digits_val(t) <= u32::MAX {
                    lemma_digits_val_prefix(t, j - start + 1);
                }
            }
            return None;
        }
        acc = acc2;
        j = j + 1;
    }
    proof {
        assert(t.take(n - start) =~= t);
    }
    Some(acc as u32)
}

/// The album artist is resolved from the first present of several alternate
/// keys, in priority order.
pub open spec fn album_artist_of(md: Seq<(String, String)>) -> Option<Seq<char>> {
    if lookup(md, "band"@) is Some {
        lookup(md, "band"@)
    } else if lookup(md, "album artist"@) is Some {
        lookup(md, "album artist"@)
    } else {
        lookup(md, "albumartist"@)
    }
}

/// An optional numeric field: the value stored under `key`, parsed;
/// missing or unparsable values are dropped.
pub open spec fn num_field_of(md: Seq<(String, String)>, key: Seq<char>) -> Option<u32> {
    match lookup(md, key) {
        Some(v) => parse_u32_spec(v),
        None => None,
    }
}

/// The views of an optional string.
pub open spec fn opt_string_view(v: Option<String>) -> Option<Seq<char>> {
    match v {
        Some(s) => Some(s@),
        None => None,
    }
}

impl TrackInfo {
    /// Builds the snapshot from the metadata table and the duration the host
    /// reported. Artist, album and title are required, checked in that
    /// order; the album artist comes from the first present alternate key;
    /// numeric fields are parsed, and dropped when unparsable.
    pub fn from_metadata(md: &Metadata, duration_millis: u64) -> (r: Result<
        TrackInfo,
        TrackInfoError,
    >)
        ensures
            match r {
                Ok(t) => lookup(md@, "artist"@) == Some(t.artist@) && lookup(md@, "album"@)
                    == Some(t.album@) && lookup(md@, "title"@) == Some(t.title@)
                    && opt_string_view(t.album_artist) == album_artist_of(md@) && t.year
                    == num_field_of(md@, "year"@) && t.disc_number == num_field_of(md@, "disc"@)
                    && t.total_discs == num_field_of(md@, "numdiscs"@) && t.track_number
                    == num_field_of(md@, "track"@) && t.total_tracks == num_field_of(
                    md@,
                    "numtracks"@,
                ) && t.duration_millis == duration_millis,
                Err(e) => (lookup(md@, "artist"@) is None || lookup(md@, "album"@) is None
                    || lookup(md@, "title"@) is None) && (e matches
                TrackInfoError::MetadataKeyNotFound(k) && (if lookup(md@, "artist"@) is None {
                    k@ == "artist"@
                } else if lookup(md@, "album"@) is None {
                    k@ == "album"@
                } else {
                    k@ == "title"@
                })),
            },
    {
        let artist = match md.get(&String::from_str("artist")) {
            Some(v) => v.clone(),
            None => {
                return Err(TrackInfoError::MetadataKeyNotFound(String::from_str("artist")));
            },
        };
        let album = match md.get(&String::from_str("album")) {
            Some(v) => v.clone(),
            None => {
                return Err(TrackInfoError::MetadataKeyNotFound(String::from_str("album")));
            },
        };
        let title = match md.get(&String::from_str("title")) {
            Some(v) => v.clone(),
            None => {
                return Err(TrackInfoError::MetadataKeyNotFound(String::from_str("title")));
            },
        };
        let album_artist = match md.get(&String::from_str("band")) {
            Some(v) => Some(v.clone()),
            None => match md.get(&String::from_str("album artist")) {
                Some(v) => Some(v.clone()),
                None => match md.get(&String::from_str("albumartist")) {
                    Some(v) => Some(v.clone()),
                    None => None,
                },
            },
        };
        let year = match md.get(&String::from_str("year")) {
            Some(v) => parse_u32(v.as_str()),
            None => None,
        };
        let disc_number = match md.get(&String::from_str("disc")) {
            Some(v) => parse_u32(v.as_str()),
            None => None,
        };
        let total_discs = match md.get(&String::from_str("numdiscs")) {
            Some(v) => parse_u32(v.as_str()),
            None => None,
        };
        let track_number = match md.get(&String::from_str("track")) {
            Some(v) => parse_u32(v.as_str()),
            None => None,
        };
        let total_tracks = match md.get(&String::from_str("numtracks")) {
            Some(v) => parse_u32(v.as_str()),
            None => None,
        };
        Ok(
            TrackInfo {
                artist,
                album_artist,
                album,
                title,
                year,
                disc_number,
                total_discs,
                track_number,
                total_tracks,
                duration_millis,
            },
        )
    }
}

} // verus!
