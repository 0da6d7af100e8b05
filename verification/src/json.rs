//! The canonical JSON wire format: every event is serialized to one JSON
//! document whose exact character sequence is defined by the spec functions
//! here, and the executable serializer is proved to produce it.
use vstd::prelude::*;
use vstd::string::StrSliceExecFns;
use vstd::string::StringExecFns;
use crate::event::Event;
use crate::track::TrackInfo;

verus! {

/// What `String::push` does: appends one character at the end.
/// Relies on `alloc::string::String::push` as std documents it.
pub assume_specification[ String::push ](s: &mut String, c: char)
    ensures
        final(s)@ == old(s)@.push(c),
;

/// The lowercase hexadecimal digit for `d`.
pub open spec fn hex_digit(d: int) -> char {
    if d == 0 { '0' } else if d == 1 { '1' } else if d == 2 { '2' } else if d == 3 { '3' }
    else if d == 4 { '4' } else if d == 5 { '5' } else if d == 6 { '6' } else if d == 7 { '7' }
    else if d == 8 { '8' } else if d == 9 { '9' } else if d == 10 { 'a' } else if d == 11 { 'b' }
    else if d == 12 { 'c' } else if d == 13 { 'd' } else if d == 14 { 'e' } else { 'f' }
}

/// The decimal digit for `d`.
pub open spec fn dec_digit(d: int) -> char {
    if d == 0 { '0' } else if d == 1 { '1' } else if d == 2 { '2' } else if d == 3 { '3' }
    else if d == 4 { '4' } else if d == 5 { '5' } else if d == 6 { '6' } else if d == 7 { '7' }
    else if d == 8 { '8' } else { '9' }
}

/// The usual decimal rendering of `n`, without leading zeroes.
pub open spec fn dec_nat(n: nat) -> Seq<char>
    decreases n,
{
    if n < 10 {
        seq![dec_digit(n as int)]
    } else {
        dec_nat(n / 10).push(dec_digit((n % 10) as int))
    }
}

/// The decimal rendering of `n`, with a leading minus sign when negative.
pub open spec fn dec_int(n: int) -> Seq<char> {
    if n < 0 {
        seq!['-'] + dec_nat((-n) as nat)
    } else {
        dec_nat(n as nat)
    }
}

/// The fractional digits for `f` thousandths: as many digits as are needed,
/// trailing zeroes dropped, but always at least one digit.
pub open spec fn frac_digits(f: int) -> Seq<char> {
    if f % 10 != 0 {
        seq![dec_digit(f / 100), dec_digit((f / 10) % 10), dec_digit(f % 10)]
    } else if f % 100 != 0 {
        seq![dec_digit(f / 100), dec_digit((f / 10) % 10)]
    } else {
        seq![dec_digit(f / 100)]
    }
}

/// A count of milliseconds rendered as decimal seconds: the whole seconds, a
/// point, and the fraction (`180000` is `180.0`, `120400` is `120.4`).
pub open spec fn dec_millis(m: nat) -> Seq<char> {
    dec_nat(m / 1000) + seq!['.'] + frac_digits((m % 1000) as int)
}

/// How one character appears inside a JSON string: quote and backslash are
/// escaped, control characters take their short escape or the `\u00XX` form,
/// everything else stands as itself.
pub open spec fn escape_char(c: char) -> Seq<char> {
    if c == '"' {
        seq!['\\', '"']
    } else if c == '\\' {
        seq!['\\', '\\']
    } else if (c as u32) < 32 {
        if c == '\u{8}' { seq!['\\', 'b'] }
        else if c == '\t' { seq!['\\', 't'] }
        else if c == '\n' { seq!['\\', 'n'] }
        else if c == '\u{c}' { seq!['\\', 'f'] }
        else if c == '\r' { seq!['\\', 'r'] }
        else {
            seq!['\\', 'u', '0', '0', hex_digit((c as u32) as int / 16), hex_digit(
                (c as u32) as int % 16,
            )]
        }
    } else {
        seq![c]
    }
}

/// The body of a JSON string: each character escaped in turn.
pub open spec fn escape_string(s: Seq<char>) -> Seq<char>
    decreases s.len(),
{
    if s.len() == 0 {
        Seq::empty()
    } else {
        escape_char(s.first()) + escape_string(s.drop_first())
    }
}

/// A JSON string literal: the escaped body between double quotes.
pub open spec fn json_string(s: Seq<char>) -> Seq<char> {
    seq!['"'] + escape_string(s) + seq!['"']
}

/// Escaping a concatenation escapes each part in turn.
proof fn lemma_escape_append(a: Seq<char>, b: Seq<char>)
    ensures
        escape_string(a + b) == escape_string(a) + escape_string(b),
    decreases a.len(),
{
    if a.len() == 0 {
        assert(a + b =~= b);
        assert(escape_string(a) + escape_string(b) =~= escape_string(b));
    } else {
        assert((a + b).drop_first() =~= a.drop_first() + b);
        lemma_escape_append(a.drop_first(), b);
        assert(escape_char(a.first()) + (escape_string(a.drop_first()) + escape_string(b)) =~= (
        escape_char(a.first()) + escape_string(a.drop_first())) + escape_string(b));
        assert((a + b).first() == a.first());
    }
}

fn dec_digit_char(d: u64) -> (c: char)
    requires
        d < 10,
    ensures
        c == dec_digit(d as int),
{
    match d {
        0 => '0',
        1 => '1',
        2 => '2',
        3 => '3',
        4 => '4',
        5 => '5',
        6 => '6',
        7 => '7',
        8 => '8',
        _ => '9',
    }
}

fn hex_digit_char(d: u32) -> (c: char)
    requires
        d < 16,
    ensures
        c == hex_digit(d as int),
{
    match d {
        0 => '0',
        1 => '1',
        2 => '2',
        3 => '3',
        4 => '4',
        5 => '5',
        6 => '6',
        7 => '7',
        8 => '8',
        9 => '9',
        10 => 'a',
        11 => 'b',
        12 => 'c',
        13 => 'd',
        14 => 'e',
        _ => 'f',
    }
}

/// Appends the decimal rendering of `n`.
fn push_dec_u64(out: &mut String, n: u64)
    ensures
        final(out)@ == old(out)@ + dec_nat(n as nat),
    decreases n,
{
    if n >= 10 {
        push_dec_u64(out, n / 10);
    }
    out.push(dec_digit_char(n % 10));
    proof {
        if n < 10 {
            assert(old(out)@.push(dec_digit(n as int)) =~= old(out)@ + dec_nat(n as nat));
        } else {
            assert((old(out)@ + dec_nat((n / 10) as nat)).push(dec_digit((n % 10) as int)) =~= old(
                out,
            )@ + dec_nat(n as nat));
        }
    }
}

/// Appends the decimal rendering of `n`, minus sign included.
fn push_dec_i64(out: &mut String, n: i64)
    ensures
        final(out)@ == old(out)@ + dec_int(n as int),
{
    if n < 0 {
        out.push('-');
        let m: u64 = if n == i64::MIN {
            9223372036854775808u64
        } else {
            (-n) as u64
        };
        assert(m as nat == (-(n as int)) as nat);
        push_dec_u64(out, m);
        proof {
            assert(old(out)@.push('-') =~= old(out)@ + seq!['-']);
            assert((old(out)@ + seq!['-']) + dec_nat(m as nat) =~= old(out)@ + (seq!['-']
                + dec_nat(m as nat)));
        }
    } else {
        push_dec_u64(out, n as u64);
    }
}

/// Appends `m` milliseconds rendered as decimal seconds.
fn push_millis(out: &mut String, m: u64)
    ensures
        final(out)@ == old(out)@ + dec_millis(m as nat),
{
    push_dec_u64(out, m / 1000);
    out.push('.');
    let f = m % 1000;
    let ghost mid = old(out)@ + dec_nat((m / 1000) as nat) + seq!['.'];
    proof {
        assert((old(out)@ + dec_nat((m / 1000) as nat)).push('.') =~= mid);
    }
    if f % 10 != 0 {
        out.push(dec_digit_char(f / 100));
        out.push(dec_digit_char((f / 10) % 10));
        out.push(dec_digit_char(f % 10));
        proof {
            assert(mid.push(dec_digit(f as int / 100)).push(dec_digit((f as int / 10) % 10)).push(
                dec_digit(f as int % 10),
            ) =~= old(out)@ + dec_millis(m as nat));
        }
    } else if f % 100 != 0 {
        out.push(dec_digit_char(f / 100));
        out.push(dec_digit_char((f / 10) % 10));
        proof {
            assert(mid.push(dec_digit(f as int / 100)).push(dec_digit((f as int / 10) % 10)) =~= old(
                out,
            )@ + dec_millis(m as nat));
        }
    } else {
        out.push(dec_digit_char(f / 100));
        proof {
            assert(mid.push(dec_digit(f as int / 100)) =~= old(out)@ + dec_millis(m as nat));
        }
    }
}

/// Appends one character in its escaped form.
fn push_escaped_char(out: &mut String, c: char)
    ensures
        final(out)@ == old(out)@ + escape_char(c),
{
    if c == '"' {
        out.push('\\');
        out.push('"');
        proof {
            assert(old(out)@.push('\\').push('"') =~= old(out)@ + escape_char(c));
        }
    } else if c == '\\' {
        out.push('\\');
        out.push('\\');
        proof {
            assert(old(out)@.push('\\').push('\\') =~= old(out)@ + escape_char(c));
        }
    } else if (c as u32) < 32 {
        if c == '\u{8}' {
            out.push('\\');
            out.push('b');
            proof {
                assert(old(out)@.push('\\').push('b') =~= old(out)@ + escape_char(c));
            }
        } else if c == '\t' {
            out.push('\\');
            out.push('t');
            proof {
                assert(old(out)@.push('\\').push('t') =~= old(out)@ + escape_char(c));
            }
        } else if c == '\n' {
            out.push('\\');
            out.push('n');
            proof {
                assert(old(out)@.push('\\').push('n') =~= old(out)@ + escape_char(c));
            }
        } else if c == '\u{c}' {
            out.push('\\');
            out.push('f');
            proof {
                assert(old(out)@.push('\\').push('f') =~= old(out)@ + escape_char(c));
            }
        } else if c == '\r' {
            out.push('\\');
            out.push('r');
            proof {
                assert(old(out)@.push('\\').push('r') =~= old(out)@ + escape_char(c));
            }
        } else {
            let v = c as u32;
            out.push('\\');
            out.push('u');
            out.push('0');
            out.push('0');
            out.push(hex_digit_char(v / 16));
            out.push(hex_digit_char(v % 16));
            proof {
                assert(old(out)@.push('\\').push('u').push('0').push('0').push(
                    hex_digit(v as int / 16),
                ).push(hex_digit(v as int % 16)) =~= old(out)@ + escape_char(c));
            }
        }
    } else {
        out.push(c);
        proof {
            assert(old(out)@.push(c) =~= old(out)@ + escape_char(c));
        }
    }
}

/// Appends the escaped body of `s`.
fn push_escaped(out: &mut String, s: &str)
    ensures
        final(out)@ == old(out)@ + escape_string(s@),
{
    let n = s.unicode_len();
    let mut i: usize = 0;
    proof {
        assert(s@.take(0) =~= Seq::<char>::empty());
        assert(old(out)@ + escape_string(s@.take(0)) =~= old(out)@);
    }
    while i < n
        invariant
            i <= n,
            n == s@.len(),
            out@ == old(out)@ + escape_string(s@.take(i as int)),
        decreases n - i,
    {
        let c = s.get_char(i);
        push_escaped_char(out, c);
        proof {
            assert(s@.take(i + 1) =~= s@.take(i as int) + seq![s@[i as int]]);
            lemma_escape_append(s@.take(i as int), seq![s@[i as int]]);
            assert(seq![s@[i as int]].drop_first() =~= Seq::<char>::empty());
            assert(escape_string(Seq::<char>::empty()) =~= Seq::<char>::empty());
            assert(escape_char(s@[i as int]) + Seq::<char>::empty() =~= escape_char(s@[i as int]));
            assert(escape_string(seq![s@[i as int]]) == escape_char(seq![s@[i as int]].first())
                + escape_string(seq![s@[i as int]].drop_first()));
            assert(escape_string(seq![s@[i as int]]) =~= escape_char(s@[i as int]));
            assert((old(out)@ + escape_string(s@.take(i as int))) + escape_char(c) =~= old(out)@
                + escape_string(s@.take(i + 1)));
        }
        i = i + 1;
    }
    proof {
        assert(s@.take(n as int) =~= s@);
    }
}

/// One optional numeric field: its label and value when present, nothing at
/// all when absent.
pub open spec fn opt_num_json(label: Seq<char>, v: Option<u32>) -> Seq<char> {
    match v {
        Some(n) => label + dec_nat(n as nat),
        None => Seq::empty(),
    }
}

/// The track fields of a JSON body, in their canonical order. Optional
/// fields are omitted entirely when absent.
pub open spec fn track_json(t: TrackInfo) -> Seq<char> {
    "\"artist\":"@ + json_string(t.artist@) + (match t.album_artist {
        Some(a) => ",\"album_artist\":"@ + json_string(a@),
        None => Seq::empty(),
    }) + ",\"album\":"@ + json_string(t.album@) + ",\"title\":"@ + json_string(t.title@)
        + opt_num_json(",\"year\":"@, t.year) + opt_num_json(",\"disc_number\":"@, t.disc_number)
        + opt_num_json(",\"total_discs\":"@, t.total_discs) + opt_num_json(
        ",\"track_number\":"@,
        t.track_number,
    ) + opt_num_json(",\"total_tracks\":"@, t.total_tracks) + ",\"duration\":"@ + dec_millis(
        t.duration_millis as nat,
    )
}

/// The canonical JSON document for an event: a tag naming the kind and a
/// `data` object with the event's fields.
pub open spec fn json_of(e: Event) -> Seq<char> {
    match e {
        Event::ConfigChanged(c) => "{\"event\":\"config_changed\",\"data\":{\"url\":"@
            + json_string(c.url@) + ",\"secret\":"@ + json_string(c.secret@) + "}}"@,
        Event::Start(s) => "{\"event\":\"start\",\"data\":{"@ + track_json(s.track_info) + "}}"@,
        Event::Stop(s) => "{\"event\":\"stop\",\"data\":{"@ + track_json(s.track_info)
            + ",\"play_time\":"@ + dec_millis(s.play_time_millis as nat) + ",\"started_at\":"@
            + dec_int(s.started_at as int) + "}}"@,
    }
}

/// Appends one optional numeric field.
fn push_opt_num(out: &mut String, label: &str, v: &Option<u32>)
    ensures
        final(out)@ == old(out)@ + opt_num_json(label@, *v),
{
    match v {
        Some(n) => {
            out.append(label);
            push_dec_u64(out, *n as u64);
            proof {
                assert((old(out)@ + label@) + dec_nat(*n as nat) =~= old(out)@ + (label@ + dec_nat(
                    *n as nat,
                )));
            }
        },
        None => {
            proof {
                assert(old(out)@ + Seq::<char>::empty() =~= old(out)@);
            }
        },
    }
}

/// Appends the track fields of `t`.
#[verifier::rlimit(100)]
fn push_track(out: &mut String, t: &TrackInfo)
    ensures
        final(out)@ == old(out)@ + track_json(*t),
{
    let ghost pre = old(out)@;
    out.append("\"artist\":");
    push_json_string(out, t.artist.as_str());
    let ghost c1 = "\"artist\":"@ + json_string(t.artist@);
    proof {
        assert((pre + "\"artist\":"@) + json_string(t.artist@) =~= pre + c1);
    }
    match &t.album_artist {
        Some(a) => {
            out.append(",\"album_artist\":");
            push_json_string(out, a.as_str());
            proof {
                assert(((pre + c1) + ",\"album_artist\":"@) + json_string(a@) =~= pre + (c1 + (
                ",\"album_artist\":"@ + json_string(a@))));
            }
        },
        None => {
            proof {
                assert((pre + c1) + Seq::<char>::empty() =~= pre + (c1 + Seq::<char>::empty()));
            }
        },
    }
    let ghost c2 = c1 + (match &t.album_artist {
        Some(a) => ",\"album_artist\":"@ + json_string(a@),
        None => Seq::empty(),
    });
    out.append(",\"album\":");
    push_json_string(out, t.album.as_str());
    let ghost c3 = c2 + ",\"album\":"@ + json_string(t.album@);
    proof {
        assert(((pre + c2) + ",\"album\":"@) + json_string(t.album@) =~= pre + c3);
    }
    out.append(",\"title\":");
    push_json_string(out, t.title.as_str());
    let ghost c4 = c3 + ",\"title\":"@ + json_string(t.title@);
    proof {
        assert(((pre + c3) + ",\"title\":"@) + json_string(t.title@) =~= pre + c4);
    }
    push_opt_num(out, ",\"year\":", &t.year);
    let ghost c5 = c4 + opt_num_json(",\"year\":"@, t.year);
    proof {
        assert((pre + c4) + opt_num_json(",\"year\":"@, t.year) =~= pre + c5);
    }
    push_opt_num(out, ",\"disc_number\":", &t.disc_number);
    let ghost c6 = c5 + opt_num_json(",\"disc_number\":"@, t.disc_number);
    proof {
        assert((pre + c5) + opt_num_json(",\"disc_number\":"@, t.disc_number) =~= pre + c6);
    }
    push_opt_num(out, ",\"total_discs\":", &t.total_discs);
    let ghost c7 = c6 + opt_num_json(",\"total_discs\":"@, t.total_discs);
    proof {
        assert((pre + c6) + opt_num_json(",\"total_discs\":"@, t.total_discs) =~= pre + c7);
    }
    push_opt_num(out, ",\"track_number\":", &t.track_number);
    let ghost c8 = c7 + opt_num_json(",\"track_number\":"@, t.track_number);
    proof {
        assert((pre + c7) + opt_num_json(",\"track_number\":"@, t.track_number) =~= pre + c8);
    }
    push_opt_num(out, ",\"total_tracks\":", &t.total_tracks);
    let ghost c9 = c8 + opt_num_json(",\"total_tracks\":"@, t.total_tracks);
    proof {
        assert((pre + c8) + opt_num_json(",\"total_tracks\":"@, t.total_tracks) =~= pre + c9);
    }
    out.append(",\"duration\":");
    push_millis(out, t.duration_millis);
    proof {
        assert(((pre + c9) + ",\"duration\":"@) + dec_millis(t.duration_millis as nat) =~= pre + (
        c9 + ",\"duration\":"@ + dec_millis(t.duration_millis as nat)));
        assert(c9 + ",\"duration\":"@ + dec_millis(t.duration_millis as nat) =~= track_json(*t));
    }
}

/// Serializes an event to its canonical JSON document.
pub fn to_json(e: &Event) -> (r: String)
    ensures
        r@ == json_of(*e),
{
    let mut out = String::new();
    match e {
        Event::ConfigChanged(c) => {
            out.append("{\"event\":\"config_changed\",\"data\":{\"url\":");
            let ghost a1 = "{\"event\":\"config_changed\",\"data\":{\"url\":"@;
            proof {
                assert(Seq::<char>::empty() + a1 =~= a1);
            }
            push_json_string(&mut out, c.url.as_str());
            out.append(",\"secret\":");
            push_json_string(&mut out, c.secret.as_str());
            out.append("}}");
            proof {
                assert((((a1 + json_string(c.url@)) + ",\"secret\":"@) + json_string(c.secret@))
                    + "}}"@ =~= json_of(*e));
            }
        },
        Event::Start(s) => {
            out.append("{\"event\":\"start\",\"data\":{");
            let ghost a1 = "{\"event\":\"start\",\"data\":{"@;
            proof {
                assert(Seq::<char>::empty() + a1 =~= a1);
            }
            push_track(&mut out, &s.track_info);
            out.append("}}");
            proof {
                assert((a1 + track_json(s.track_info)) + "}}"@ =~= json_of(*e));
            }
        },
        Event::Stop(s) => {
            out.append("{\"event\":\"stop\",\"data\":{");
            let ghost a1 = "{\"event\":\"stop\",\"data\":{"@;
            proof {
                assert(Seq::<char>::empty() + a1 =~= a1);
            }
            push_track(&mut out, &s.track_info);
            out.append(",\"play_time\":");
            push_millis(&mut out, s.play_time_millis);
            out.append(",\"started_at\":");
            push_dec_i64(&mut out, s.started_at);
            out.append("}}");
            proof {
                assert((((((a1 + track_json(s.track_info)) + ",\"play_time\":"@) + dec_millis(
                    s.play_time_millis as nat,
                )) + ",\"started_at\":"@) + dec_int(s.started_at as int)) + "}}"@ =~= json_of(*e));
            }
        },
    }
    out
}

/// Appends `s` as a JSON string literal.
fn push_json_string(out: &mut String, s: &str)
    ensures
        final(out)@ == old(out)@ + json_string(s@),
{
    out.push('"');
    proof {
        assert(old(out)@.push('"') =~= old(out)@ + seq!['"']);
    }
    push_escaped(out, s);
    out.push('"');
    proof {
        assert(((old(out)@ + seq!['"']) + escape_string(s@)).push('"') =~= old(out)@ + json_string(
            s@,
        ));
    }
}

} // verus!
