//! Text shown in the player window: song durations and column headings.

use vstd::prelude::*;
use crate::text::{push_char, push_decimal, decimal_digits, digit_char, chars_of, append_str};

verus! {

/// A number below 100 written with two digits.
pub open spec fn two_digits(n: nat) -> Seq<char> {
    if n < 10 { seq!['0', digit_char(n)] } else { decimal_digits(n) }
}

/// How a duration of `t` seconds is shown: `m:ss`, from an hour on
/// `h:mm:ss`, from a day on `d:hh:mm:ss`.
pub open spec fn duration_text(t: nat) -> Seq<char> {
    if t >= 86400 {
        decimal_digits(t / 86400) + seq![':'] + two_digits((t / 3600) % 24) + seq![':']
            + two_digits((t / 60) % 60) + seq![':'] + two_digits(t % 60)
    } else if t >= 3600 {
        decimal_digits(t / 3600) + seq![':'] + two_digits((t / 60) % 60) + seq![':'] + two_digits(t % 60)
    } else {
        decimal_digits(t / 60) + seq![':'] + two_digits(t % 60)
    }
}

fn push_two_digits(s: &mut String, n: u32)
    requires
        n < 100,
    ensures
        final(s)@ == old(s)@ + two_digits(n as nat),
{
    if n < 10 {
        push_char(s, '0');
        push_decimal(s, n as u64);
        assert(decimal_digits(n as nat) =~= seq![digit_char(n as nat)]);
        assert(s@ =~= old(s)@ + two_digits(n as nat));
    } else {
        push_decimal(s, n as u64);
    }
}

/// Shows a duration of `t` seconds (see `duration_text`).
pub fn pretty_duration(t: u32) -> (r: String)
    ensures
        r@ == duration_text(t as nat),
{
    let mut r = String::new();
    if t >= 86400 {
        push_decimal(&mut r, (t / 86400) as u64);
        push_char(&mut r, ':');
        push_two_digits(&mut r, (t / 3600) % 24);
        push_char(&mut r, ':');
        push_two_digits(&mut r, (t / 60) % 60);
        push_char(&mut r, ':');
        push_two_digits(&mut r, t % 60);
    } else if t >= 3600 {
        push_decimal(&mut r, (t / 3600) as u64);
        push_char(&mut r, ':');
        push_two_digits(&mut r, (t / 60) % 60);
        push_char(&mut r, ':');
        push_two_digits(&mut r, t % 60);
    } else {
        push_decimal(&mut r, (t / 60) as u64);
        push_char(&mut r, ':');
        push_two_digits(&mut r, t % 60);
    }
    assert(r@ =~= duration_text(t as nat));
    r
}

/// The total of the durations, added up with saturation at `u32::MAX`.
pub open spec fn saturated_total(d: Seq<u32>) -> nat
    decreases d.len(),
{
    if d.len() == 0 {
        0
    } else {
        let t = saturated_total(d.drop_last()) + d.last();
        if t > u32::MAX { u32::MAX as nat } else { t as nat }
    }
}

/// The line under a playlist: how many songs it holds and their total time
/// (a total that reached `u32::MAX` is "really really long").
pub open spec fn stats_text(songs: nat, total: nat) -> Seq<char> {
    if songs == 0 {
        "No songs in playlist"@
    } else {
        decimal_digits(songs) + " song"@ + (if songs == 1 { ""@ } else { "s"@ }) + " in playlist, total time "@
            + if total == u32::MAX { "really really long"@ } else { duration_text(total) }
    }
}

/// The line under a playlist whose songs have these durations.
pub fn playlist_stats_text(durations: &[u32]) -> (r: String)
    ensures
        r@ == stats_text(durations@.len(), saturated_total(durations@)),
{
    let mut total: u32 = 0;
    let mut i: usize = 0;
    while i < durations.len()
        invariant
            i <= durations@.len(),
            total == saturated_total(durations@.take(i as int)),
        decreases durations.len() - i,
    {
        assert(durations@.take(i + 1).drop_last() =~= durations@.take(i as int));
        total = total.saturating_add(durations[i]);
        i += 1;
    }
    assert(durations@.take(durations@.len() as int) =~= durations@);
    let n = durations.len();
    let mut r = String::new();
    if n == 0 {
        append_str(&mut r, "No songs in playlist");
    } else {
        push_decimal(&mut r, n as u64);
        append_str(&mut r, " song");
        append_str(&mut r, if n == 1 { "" } else { "s" });
        append_str(&mut r, " in playlist, total time ");
        if total == 4294967295 {
            append_str(&mut r, "really really long");
        } else {
            let d = pretty_duration(total);
            append_str(&mut r, d.as_str());
        }
    }
    r
}

/// The upper-case form of an ASCII lower-case letter.
pub open spec fn ascii_upper(c: char) -> char {
    ((c as u8) - 32) as char
}

/// Turning the first `n` characters of a tag into a heading: each underscore
/// or space becomes a space (so a run of them stays a run of spaces), except
/// at the start, where they are dropped; a lower-case ASCII letter after a
/// space (or at the start) becomes upper-case. Gives the text so far and
/// whether the next letter starts a word.
pub open spec fn heading_step(s: Seq<char>, n: int) -> (Seq<char>, bool)
    decreases n,
{
    if n <= 0 {
        (Seq::empty(), true)
    } else {
        let prev = heading_step(s, n - 1);
        let c = s[n - 1];
        if c == '_' || c == ' ' {
            if prev.0.len() > 0 { (prev.0.push(' '), true) } else { prev }
        } else {
            (prev.0.push(if 'a' <= c && c <= 'z' && prev.1 { ascii_upper(c) } else { c }), false)
        }
    }
}

/// The text without its trailing spaces.
pub open spec fn trim_end_spaces(s: Seq<char>) -> Seq<char>
    decreases s.len(),
{
    if s.len() > 0 && s.last() == ' ' { trim_end_spaces(s.drop_last()) } else { s }
}

/// The human-readable heading of a metadata tag: see `heading_step`,
/// without trailing spaces; `Duration` is shown as `Time`.
pub open spec fn column_heading(tag: Seq<char>) -> Seq<char> {
    let t = trim_end_spaces(heading_step(tag, tag.len() as int).0);
    if t == "Duration"@ { "Time"@ } else { t }
}

/// The human-readable name of a metadata tag (see `column_heading`).
pub fn make_column_heading(orig: &str) -> (r: String)
    ensures
        r@ == column_heading(orig@),
{
    let cs = chars_of(orig);
    let mut ret: Vec<char> = Vec::new();
    let mut spaced = true;
    let mut i: usize = 0;
    while i < cs.len()
        invariant
            i <= cs@.len(),
            cs@ == orig@,
            ret@ == heading_step(orig@, i as int).0,
            spaced == heading_step(orig@, i as int).1,
        decreases cs.len() - i,
    {
        let c = cs[i];
        if c == '_' || c == ' ' {
            if ret.len() > 0 {
                ret.push(' ');
                spaced = true;
            }
        } else {
            if c >= 'a' && c <= 'z' && spaced {
                let up = ((c as u8) - 32) as char;
                ret.push(up);
            } else {
                ret.push(c);
            }
            spaced = false;
        }
        i += 1;
    }
    while ret.len() > 0 && ret[ret.len() - 1] == ' '
        invariant
            trim_end_spaces(ret@) == trim_end_spaces(heading_step(orig@, orig@.len() as int).0),
        decreases ret.len(),
    {
        ret.pop();
    }
    let mut s = String::new();
    let mut k: usize = 0;
    while k < ret.len()
        invariant
            k <= ret@.len(),
            s@ == ret@.take(k as int),
        decreases ret.len() - k,
    {
        push_char(&mut s, ret[k]);
        k += 1;
        assert(s@ =~= ret@.take(k as int));
    }
    assert(ret@.take(ret@.len() as int) =~= ret@);
    assert(trim_end_spaces(ret@) == ret@);
    let is_duration = {
        let d = String::from_str("Duration");
        s == d
    };
    if is_duration {
        String::from_str("Time")
    } else {
        s
    }
}

} // verus!
