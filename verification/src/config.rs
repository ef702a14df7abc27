//! The base configuration (SMTP account and throttling) and the duration
//! strings it holds.
use vstd::prelude::*;

use crate::text::{
    all_digits, ascii_lower, is_ascii_text, all_whitespace, char_is_alphabetic, chars_of, copy_range, decimal,
    is_alphabetic_char, is_digit, is_whitespace_char, lemma_decimal, lemma_trim_end_skips,
    lemma_trim_keeps, lemma_trim_start_skips, lowercase, lowercase_chars, parse_u64,
    parse_u64_spec, same_chars, string_from_chars, trim, trim_chars, unsigned_part,
};

verus! {

/// How the connection to the SMTP server is secured.
#[derive(Debug, Clone, Copy, PartialEq, Eq, Structural)]
pub enum TlsMode {
    Starttls,
    Tls,
    Plain,
}

impl TlsMode {
    /// The lowercase name under which the mode is configured and shown.
    pub open spec fn name(self) -> Seq<char> {
        match self {
            TlsMode::Starttls => "starttls"@,
            TlsMode::Tls => "tls"@,
            TlsMode::Plain => "plain"@,
        }
    }

    /// The lowercase name of the mode: `starttls`, `tls` or `plain`.
    pub fn as_string(&self) -> (s: String)
        ensures
            s@ == self.name(),
    {
        match self {
            TlsMode::Starttls => String::from_str("starttls"),
            TlsMode::Tls => String::from_str("tls"),
            TlsMode::Plain => String::from_str("plain"),
        }
    }
}

/// The base configuration: SMTP server, account, TLS mode and throttling.
pub struct BaseConfig {
    pub smtp_server: String,
    pub smtp_port: u16,
    pub account: String,
    pub tls_mode: TlsMode,
    /// Number of emails to send before pausing
    pub timeout_count: Option<u64>,
    /// Duration string e.g. "5", "5min", "30s", "1h"
    pub timeout_duration: Option<String>,
}

/// Why a duration string was refused.
#[derive(Debug)]
pub enum DurationError {
    /// The number part (as it stood before its own trimming) is not a `u64`.
    InvalidNumber(String),
    /// The unit, lowercased, is none of the known units.
    UnknownUnit(String),
}

/// What a duration string denotes.
pub enum DurationOutcome {
    /// A number of seconds (possibly too large for a `u64`).
    Seconds(int),
    /// The number part is not a `u64`.
    InvalidNumber(Seq<char>),
    /// The lowercased unit is not known.
    UnknownUnit(Seq<char>),
}

/// The first position at or after `from` that holds an alphabetic character,
/// or `s.len()` when there is none.
pub open spec fn first_alphabetic_from(s: Seq<char>, from: int) -> int
    decreases s.len() - from,
{
    if from >= s.len() {
        s.len() as int
    } else if is_alphabetic_char(s[from]) {
        from
    } else {
        first_alphabetic_from(s, from + 1)
    }
}

/// The number part and the unit part of a duration string: the trimmed string
/// is split before its first alphabetic character, and the unit is trimmed.
/// A string without alphabetic characters is a number of minutes.
pub open spec fn duration_parts(s: Seq<char>) -> (Seq<char>, Seq<char>) {
    let t = trim(s);
    let k = first_alphabetic_from(t, 0);
    if k >= t.len() {
        (t, "min"@)
    } else {
        (t.take(k), trim(t.skip(k)))
    }
}

/// Seconds per unit, for a lowercased unit name.
pub open spec fn unit_factor_spec(u: Seq<char>) -> Option<u64> {
    if u == "s"@ || u == "sec"@ || u == "secs"@ || u == "second"@ || u == "seconds"@ {
        Some(1)
    } else if u == "m"@ || u == "min"@ || u == "mins"@ || u == "minute"@ || u == "minutes"@ {
        Some(60)
    } else if u == "h"@ || u == "hr"@ || u == "hrs"@ || u == "hour"@ || u == "hours"@ {
        Some(3600)
    } else if u == "d"@ || u == "day"@ || u == "days"@ {
        Some(86400)
    } else {
        None
    }
}

/// What the duration string `s` denotes.
pub open spec fn duration_outcome(s: Seq<char>) -> DurationOutcome {
    let (num, unit) = duration_parts(s);
    match parse_u64_spec(trim(num)) {
        None => DurationOutcome::InvalidNumber(num),
        Some(n) => match unit_factor_spec(lowercase(unit)) {
            None => DurationOutcome::UnknownUnit(lowercase(unit)),
            Some(f) => DurationOutcome::Seconds(n * f as int),
        },
    }
}

/// The duration string `s` denotes more seconds than a `u64` holds.
pub open spec fn duration_overflows(s: Seq<char>) -> bool {
    duration_outcome(s) matches DurationOutcome::Seconds(x) && x > u64::MAX
}

/// Bare numbers are treated as minutes: a duration string whose trimmed text
/// holds no alphabetic character is read whole as the number, with the unit `min`.
pub proof fn law_bare_number_is_minutes(s: Seq<char>)
    requires
        forall|i: int| 0 <= i < trim(s).len() ==> !is_alphabetic_char(#[trigger] trim(s)[i]),
    ensures
        duration_parts(s) == (trim(s), "min"@),
{
    lemma_no_alphabetic(trim(s), 0);
}

/// Without alphabetic characters from `from` on, the search runs to the end.
proof fn lemma_no_alphabetic(t: Seq<char>, from: int)
    requires
        0 <= from <= t.len(),
        forall|i: int| 0 <= i < t.len() ==> !is_alphabetic_char(#[trigger] t[i]),
    ensures
        first_alphabetic_from(t, from) == t.len(),
    decreases t.len() - from,
{
    if from < t.len() {
        lemma_no_alphabetic(t, from + 1);
    }
}

/// The first alphabetic position from `from` on is `k` when none before it is
/// alphabetic and the character at `k` is (or `k` is the end).
proof fn lemma_first_alphabetic_at(t: Seq<char>, from: int, k: int)
    requires
        0 <= from <= k <= t.len(),
        forall|i: int| from <= i < k ==> !is_alphabetic_char(#[trigger] t[i]),
        k < t.len() ==> is_alphabetic_char(t[k]),
    ensures
        first_alphabetic_from(t, from) == k,
    decreases k - from,
{
    if from < k {
        lemma_first_alphabetic_at(t, from + 1, k);
    }
}

/// A digit string read as a `u64` is the number it denotes.
proof fn lemma_parse_decimal(n: nat)
    requires
        n <= u64::MAX,
    ensures
        parse_u64_spec(decimal(n)) == Some(n as u64),
{
    lemma_decimal(n);
    assert(is_digit(decimal(n)[0]));
    assert(unsigned_part(decimal(n)) == decimal(n));
}

/// A number directly followed by a unit that begins with a letter splits
/// into the number and the (trimmed) unit.
proof fn lemma_number_then_unit(d: Seq<char>, u: Seq<char>)
    requires
        d.len() > 0,
        all_digits(d),
        u.len() > 0,
        is_alphabetic_char(u[0]),
        !is_whitespace_char(u.last()),
    ensures
        duration_parts(d + u) == (d, trim(u)),
{
    let s = d + u;
    assert(is_digit(d[0]));
    assert(s[0] == d[0]);
    assert(s.last() == u.last());
    lemma_trim_keeps(s);
    assert forall|i: int| 0 <= i < d.len() implies !is_alphabetic_char(#[trigger] s[i]) by {
        assert(s[i] == d[i]);
        assert(is_digit(d[i]));
    }
    assert(s[d.len() as int] == u[0]);
    lemma_first_alphabetic_at(s, 0, d.len() as int);
    assert(s.take(d.len() as int) =~= d);
    assert(s.skip(d.len() as int) =~= u);
}

/// The spellings of a duration agree: a bare number, the same number with
/// the unit " MIN" between spaces, with the unit "min", and sixty times the
/// number in seconds all denote sixty times the number of seconds.
pub proof fn law_duration_spellings_agree(n: nat, pad: Seq<char>)
    requires
        n * 60 <= u64::MAX,
        forall|i: int| 0 <= i < pad.len() ==> #[trigger] pad[i] == ' ',
    ensures
        duration_outcome(decimal(n)) == DurationOutcome::Seconds((n * 60) as int),
        duration_outcome(pad + decimal(n) + " MIN"@ + pad) == DurationOutcome::Seconds((n * 60) as int),
        duration_outcome(decimal(n) + "min"@) == DurationOutcome::Seconds((n * 60) as int),
        duration_outcome(decimal(n * 60) + "s"@) == DurationOutcome::Seconds((n * 60) as int),
{
    reveal_strlit(" MIN");
    reveal_strlit("MIN");
    reveal_strlit("min");
    reveal_strlit("s");
    reveal_strlit("sec");
    reveal_strlit("secs");
    reveal_strlit("second");
    reveal_strlit("seconds");
    reveal_strlit("m");
    assert(all_whitespace(pad));
    lemma_lowercase_units();
    let d = decimal(n);
    let dl: int = d.len() as int;
    lemma_decimal(n);
    lemma_parse_decimal(n);
    assert(is_digit(d[0]) && is_digit(d.last()));
    assert(unit_factor_spec("min"@) == Some(60u64));
    assert(unit_factor_spec("s"@) == Some(1u64));
    // A bare number.
    lemma_trim_keeps(d);
    assert forall|i: int| 0 <= i < d.len() implies !is_alphabetic_char(#[trigger] d[i]) by {
        assert(is_digit(d[i]));
    }
    lemma_first_alphabetic_at(d, 0, dl);
    // The number with " MIN" between spaces.
    let x = d + " MIN"@;
    assert(pad + d + " MIN"@ + pad =~= pad + (x + pad));
    lemma_trim_start_skips(pad, x + pad);
    assert((x + pad)[0] == d[0]);
    lemma_trim_end_skips(x, pad);
    assert(x.last() == 'N');
    assert(trim(pad + d + " MIN"@ + pad) == x);
    assert forall|i: int| 0 <= i < dl + 1 implies !is_alphabetic_char(#[trigger] x[i]) by {
        if i < d.len() {
            assert(x[i] == d[i]);
            assert(is_digit(d[i]));
        } else {
            assert(x[i] == ' ');
        }
    }
    assert(x[dl + 1] == 'M');
    lemma_first_alphabetic_at(x, 0, dl + 1);
    assert(x.take(dl + 1) =~= d + seq![' ']);
    assert(x.skip(dl + 1) =~= "MIN"@);
    lemma_trim_keeps("MIN"@);
    assert(all_whitespace(seq![' ']));
    lemma_trim_end_skips(d, seq![' ']);
    assert((d + seq![' '])[0] == d[0]);
    assert(trim(d + seq![' ']) == d);
    // The number with "min".
    lemma_number_then_unit(d, "min"@);
    lemma_trim_keeps("min"@);
    // Sixty times the number, in seconds.
    let m: nat = n * 60;
    lemma_decimal(m);
    lemma_parse_decimal(m);
    lemma_number_then_unit(decimal(m), "s"@);
    lemma_trim_keeps("s"@);
    assert(duration_parts(decimal(m) + "s"@) == (decimal(m), "s"@));
    lemma_trim_keeps(decimal(m));
    assert(is_digit(decimal(m)[0]) && is_digit(decimal(m).last()));
    assert(trim(decimal(m)) == decimal(m));
    assert(parse_u64_spec(trim(decimal(m))) == Some(m as u64));
    assert(duration_outcome(decimal(m) + "s"@) == DurationOutcome::Seconds((m as u64) * 1u64));
}

/// The unit spellings of the law lowercase as expected.
proof fn lemma_lowercase_units()
    ensures
        lowercase("MIN"@) == "min"@,
        lowercase("min"@) == "min"@,
        lowercase("s"@) == "s"@,
{
    reveal_strlit("MIN");
    reveal_strlit("min");
    reveal_strlit("s");
    assert(is_ascii_text("MIN"@));
    assert(is_ascii_text("min"@));
    assert(is_ascii_text("s"@));
    assert("MIN"@.map_values(|c: char| ascii_lower(c)) =~= "min"@);
    assert("min"@.map_values(|c: char| ascii_lower(c)) =~= "min"@);
    assert("s"@.map_values(|c: char| ascii_lower(c)) =~= "s"@);
}

/// A number followed directly by a known unit, in small letters, denotes the
/// number times the unit's length in seconds: 1 for the spellings of seconds,
/// 60 for minutes, 3600 for hours and 86400 for days.
pub proof fn law_unit_lengths(n: nat, u: Seq<char>)
    requires
        n <= u64::MAX,
    ensures
        (u == "s"@ || u == "sec"@ || u == "secs"@ || u == "second"@ || u == "seconds"@)
            ==> duration_outcome(decimal(n) + u) == DurationOutcome::Seconds(n * 1int),
        (u == "m"@ || u == "min"@ || u == "mins"@ || u == "minute"@ || u == "minutes"@)
            ==> duration_outcome(decimal(n) + u) == DurationOutcome::Seconds(n * 60int),
        (u == "h"@ || u == "hr"@ || u == "hrs"@ || u == "hour"@ || u == "hours"@)
            ==> duration_outcome(decimal(n) + u) == DurationOutcome::Seconds(n * 3600int),
        (u == "d"@ || u == "day"@ || u == "days"@)
            ==> duration_outcome(decimal(n) + u) == DurationOutcome::Seconds(n * 86400int),
{
    if u == "s"@ {
        lemma_unit_s(n);
    }
    if u == "sec"@ {
        lemma_unit_sec(n);
    }
    if u == "secs"@ {
        lemma_unit_secs(n);
    }
    if u == "second"@ {
        lemma_unit_second(n);
    }
    if u == "seconds"@ {
        lemma_unit_seconds(n);
    }
    if u == "m"@ {
        lemma_unit_m(n);
    }
    if u == "min"@ {
        lemma_unit_min(n);
    }
    if u == "mins"@ {
        lemma_unit_mins(n);
    }
    if u == "minute"@ {
        lemma_unit_minute(n);
    }
    if u == "minutes"@ {
        lemma_unit_minutes(n);
    }
    if u == "h"@ {
        lemma_unit_h(n);
    }
    if u == "hr"@ {
        lemma_unit_hr(n);
    }
    if u == "hrs"@ {
        lemma_unit_hrs(n);
    }
    if u == "hour"@ {
        lemma_unit_hour(n);
    }
    if u == "hours"@ {
        lemma_unit_hours(n);
    }
    if u == "d"@ {
        lemma_unit_d(n);
    }
    if u == "day"@ {
        lemma_unit_day(n);
    }
    if u == "days"@ {
        lemma_unit_days(n);
    }
}

/// The unit `s` lasts 1 seconds.
proof fn lemma_unit_s(n: nat)
    requires
        n <= u64::MAX,
    ensures
        duration_outcome(decimal(n) + "s"@) == DurationOutcome::Seconds(n * 1int),
{
    reveal_strlit("s");
    assert(unit_factor_spec("s"@) == Some(1u64));
    assert(forall|k: int| 0 <= k < "s"@.len() ==> 'a' <= #[trigger] "s"@[k] && "s"@[k] <= 'z');
    lemma_small_word_unit(n, "s"@);
}

/// The unit `sec` lasts 1 seconds.
proof fn lemma_unit_sec(n: nat)
    requires
        n <= u64::MAX,
    ensures
        duration_outcome(decimal(n) + "sec"@) == DurationOutcome::Seconds(n * 1int),
{
    reveal_strlit("sec");
    reveal_strlit("s");
    assert("sec"@.len() != "s"@.len());
    assert(unit_factor_spec("sec"@) == Some(1u64));
    assert(forall|k: int| 0 <= k < "sec"@.len() ==> 'a' <= #[trigger] "sec"@[k] && "sec"@[k] <= 'z');
    lemma_small_word_unit(n, "sec"@);
}

/// The unit `secs` lasts 1 seconds.
proof fn lemma_unit_secs(n: nat)
    requires
        n <= u64::MAX,
    ensures
        duration_outcome(decimal(n) + "secs"@) == DurationOutcome::Seconds(n * 1int),
{
    reveal_strlit("secs");
    reveal_strlit("s");
    reveal_strlit("sec");
    assert("secs"@.len() != "s"@.len());
    assert("secs"@.len() != "sec"@.len());
    assert(unit_factor_spec("secs"@) == Some(1u64));
    assert(forall|k: int| 0 <= k < "secs"@.len() ==> 'a' <= #[trigger] "secs"@[k] && "secs"@[k] <= 'z');
    lemma_small_word_unit(n, "secs"@);
}

/// The unit `second` lasts 1 seconds.
proof fn lemma_unit_second(n: nat)
    requires
        n <= u64::MAX,
    ensures
        duration_outcome(decimal(n) + "second"@) == DurationOutcome::Seconds(n * 1int),
{
    reveal_strlit("second");
    reveal_strlit("s");
    reveal_strlit("sec");
    reveal_strlit("secs");
    assert("second"@.len() != "s"@.len());
    assert("second"@.len() != "sec"@.len());
    assert("second"@.len() != "secs"@.len());
    assert(unit_factor_spec("second"@) == Some(1u64));
    assert(forall|k: int| 0 <= k < "second"@.len() ==> 'a' <= #[trigger] "second"@[k] && "second"@[k] <= 'z');
    lemma_small_word_unit(n, "second"@);
}

/// The unit `seconds` lasts 1 seconds.
proof fn lemma_unit_seconds(n: nat)
    requires
        n <= u64::MAX,
    ensures
        duration_outcome(decimal(n) + "seconds"@) == DurationOutcome::Seconds(n * 1int),
{
    reveal_strlit("seconds");
    reveal_strlit("s");
    reveal_strlit("sec");
    reveal_strlit("secs");
    reveal_strlit("second");
    assert("seconds"@.len() != "s"@.len());
    assert("seconds"@.len() != "sec"@.len());
    assert("seconds"@.len() != "secs"@.len());
    assert("seconds"@.len() != "second"@.len());
    assert(unit_factor_spec("seconds"@) == Some(1u64));
    assert(forall|k: int| 0 <= k < "seconds"@.len() ==> 'a' <= #[trigger] "seconds"@[k] && "seconds"@[k] <= 'z');
    lemma_small_word_unit(n, "seconds"@);
}

/// The unit `m` lasts 60 seconds.
proof fn lemma_unit_m(n: nat)
    requires
        n <= u64::MAX,
    ensures
        duration_outcome(decimal(n) + "m"@) == DurationOutcome::Seconds(n * 60int),
{
    reveal_strlit("m");
    reveal_strlit("s");
    reveal_strlit("sec");
    reveal_strlit("secs");
    reveal_strlit("second");
    reveal_strlit("seconds");
    assert("m"@[0] != "s"@[0]);
    assert("m"@.len() != "sec"@.len());
    assert("m"@.len() != "secs"@.len());
    assert("m"@.len() != "second"@.len());
    assert("m"@.len() != "seconds"@.len());
    assert(unit_factor_spec("m"@) == Some(60u64));
    assert(forall|k: int| 0 <= k < "m"@.len() ==> 'a' <= #[trigger] "m"@[k] && "m"@[k] <= 'z');
    lemma_small_word_unit(n, "m"@);
}

/// The unit `min` lasts 60 seconds.
proof fn lemma_unit_min(n: nat)
    requires
        n <= u64::MAX,
    ensures
        duration_outcome(decimal(n) + "min"@) == DurationOutcome::Seconds(n * 60int),
{
    reveal_strlit("min");
    reveal_strlit("s");
    reveal_strlit("sec");
    reveal_strlit("secs");
    reveal_strlit("second");
    reveal_strlit("seconds");
    reveal_strlit("m");
    assert("min"@.len() != "s"@.len());
    assert("min"@[0] != "sec"@[0]);
    assert("min"@.len() != "secs"@.len());
    assert("min"@.len() != "second"@.len());
    assert("min"@.len() != "seconds"@.len());
    assert("min"@.len() != "m"@.len());
    assert(unit_factor_spec("min"@) == Some(60u64));
    assert(forall|k: int| 0 <= k < "min"@.len() ==> 'a' <= #[trigger] "min"@[k] && "min"@[k] <= 'z');
    lemma_small_word_unit(n, "min"@);
}

/// The unit `mins` lasts 60 seconds.
proof fn lemma_unit_mins(n: nat)
    requires
        n <= u64::MAX,
    ensures
        duration_outcome(decimal(n) + "mins"@) == DurationOutcome::Seconds(n * 60int),
{
    reveal_strlit("mins");
    reveal_strlit("s");
    reveal_strlit("sec");
    reveal_strlit("secs");
    reveal_strlit("second");
    reveal_strlit("seconds");
    reveal_strlit("m");
    reveal_strlit("min");
    assert("mins"@.len() != "s"@.len());
    assert("mins"@.len() != "sec"@.len());
    assert("mins"@[0] != "secs"@[0]);
    assert("mins"@.len() != "second"@.len());
    assert("mins"@.len() != "seconds"@.len());
    assert("mins"@.len() != "m"@.len());
    assert("mins"@.len() != "min"@.len());
    assert(unit_factor_spec("mins"@) == Some(60u64));
    assert(forall|k: int| 0 <= k < "mins"@.len() ==> 'a' <= #[trigger] "mins"@[k] && "mins"@[k] <= 'z');
    lemma_small_word_unit(n, "mins"@);
}

/// The unit `minute` lasts 60 seconds.
proof fn lemma_unit_minute(n: nat)
    requires
        n <= u64::MAX,
    ensures
        duration_outcome(decimal(n) + "minute"@) == DurationOutcome::Seconds(n * 60int),
{
    reveal_strlit("minute");
    reveal_strlit("s");
    reveal_strlit("sec");
    reveal_strlit("secs");
    reveal_strlit("second");
    reveal_strlit("seconds");
    reveal_strlit("m");
    reveal_strlit("min");
    reveal_strlit("mins");
    assert("minute"@.len() != "s"@.len());
    assert("minute"@.len() != "sec"@.len());
    assert("minute"@.len() != "secs"@.len());
    assert("minute"@[0] != "second"@[0]);
    assert("minute"@.len() != "seconds"@.len());
    assert("minute"@.len() != "m"@.len());
    assert("minute"@.len() != "min"@.len());
    assert("minute"@.len() != "mins"@.len());
    assert(unit_factor_spec("minute"@) == Some(60u64));
    assert(forall|k: int| 0 <= k < "minute"@.len() ==> 'a' <= #[trigger] "minute"@[k] && "minute"@[k] <= 'z');
    lemma_small_word_unit(n, "minute"@);
}

/// The unit `minutes` lasts 60 seconds.
proof fn lemma_unit_minutes(n: nat)
    requires
        n <= u64::MAX,
    ensures
        duration_outcome(decimal(n) + "minutes"@) == DurationOutcome::Seconds(n * 60int),
{
    reveal_strlit("minutes");
    reveal_strlit("s");
    reveal_strlit("sec");
    reveal_strlit("secs");
    reveal_strlit("second");
    reveal_strlit("seconds");
    reveal_strlit("m");
    reveal_strlit("min");
    reveal_strlit("mins");
    reveal_strlit("minute");
    assert("minutes"@.len() != "s"@.len());
    assert("minutes"@.len() != "sec"@.len());
    assert("minutes"@.len() != "secs"@.len());
    assert("minutes"@.len() != "second"@.len());
    assert("minutes"@[0] != "seconds"@[0]);
    assert("minutes"@.len() != "m"@.len());
    assert("minutes"@.len() != "min"@.len());
    assert("minutes"@.len() != "mins"@.len());
    assert("minutes"@.len() != "minute"@.len());
    assert(unit_factor_spec("minutes"@) == Some(60u64));
    assert(forall|k: int| 0 <= k < "minutes"@.len() ==> 'a' <= #[trigger] "minutes"@[k] && "minutes"@[k] <= 'z');
    lemma_small_word_unit(n, "minutes"@);
}

/// The unit `h` lasts 3600 seconds.
proof fn lemma_unit_h(n: nat)
    requires
        n <= u64::MAX,
    ensures
        duration_outcome(decimal(n) + "h"@) == DurationOutcome::Seconds(n * 3600int),
{
    reveal_strlit("h");
    reveal_strlit("s");
    reveal_strlit("sec");
    reveal_strlit("secs");
    reveal_strlit("second");
    reveal_strlit("seconds");
    reveal_strlit("m");
    reveal_strlit("min");
    reveal_strlit("mins");
    reveal_strlit("minute");
    reveal_strlit("minutes");
    assert("h"@[0] != "s"@[0]);
    assert("h"@.len() != "sec"@.len());
    assert("h"@.len() != "secs"@.len());
    assert("h"@.len() != "second"@.len());
    assert("h"@.len() != "seconds"@.len());
    assert("h"@[0] != "m"@[0]);
    assert("h"@.len() != "min"@.len());
    assert("h"@.len() != "mins"@.len());
    assert("h"@.len() != "minute"@.len());
    assert("h"@.len() != "minutes"@.len());
    assert(unit_factor_spec("h"@) == Some(3600u64));
    assert(forall|k: int| 0 <= k < "h"@.len() ==> 'a' <= #[trigger] "h"@[k] && "h"@[k] <= 'z');
    lemma_small_word_unit(n, "h"@);
}

/// The unit `hr` lasts 3600 seconds.
proof fn lemma_unit_hr(n: nat)
    requires
        n <= u64::MAX,
    ensures
        duration_outcome(decimal(n) + "hr"@) == DurationOutcome::Seconds(n * 3600int),
{
    reveal_strlit("hr");
    reveal_strlit("s");
    reveal_strlit("sec");
    reveal_strlit("secs");
    reveal_strlit("second");
    reveal_strlit("seconds");
    reveal_strlit("m");
    reveal_strlit("min");
    reveal_strlit("mins");
    reveal_strlit("minute");
    reveal_strlit("minutes");
    reveal_strlit("h");
    assert("hr"@.len() != "s"@.len());
    assert("hr"@.len() != "sec"@.len());
    assert("hr"@.len() != "secs"@.len());
    assert("hr"@.len() != "second"@.len());
    assert("hr"@.len() != "seconds"@.len());
    assert("hr"@.len() != "m"@.len());
    assert("hr"@.len() != "min"@.len());
    assert("hr"@.len() != "mins"@.len());
    assert("hr"@.len() != "minute"@.len());
    assert("hr"@.len() != "minutes"@.len());
    assert("hr"@.len() != "h"@.len());
    assert(unit_factor_spec("hr"@) == Some(3600u64));
    assert(forall|k: int| 0 <= k < "hr"@.len() ==> 'a' <= #[trigger] "hr"@[k] && "hr"@[k] <= 'z');
    lemma_small_word_unit(n, "hr"@);
}

/// The unit `hrs` lasts 3600 seconds.
proof fn lemma_unit_hrs(n: nat)
    requires
        n <= u64::MAX,
    ensures
        duration_outcome(decimal(n) + "hrs"@) == DurationOutcome::Seconds(n * 3600int),
{
    reveal_strlit("hrs");
    reveal_strlit("s");
    reveal_strlit("sec");
    reveal_strlit("secs");
    reveal_strlit("second");
    reveal_strlit("seconds");
    reveal_strlit("m");
    reveal_strlit("min");
    reveal_strlit("mins");
    reveal_strlit("minute");
    reveal_strlit("minutes");
    reveal_strlit("h");
    reveal_strlit("hr");
    assert("hrs"@.len() != "s"@.len());
    assert("hrs"@[0] != "sec"@[0]);
    assert("hrs"@.len() != "secs"@.len());
    assert("hrs"@.len() != "second"@.len());
    assert("hrs"@.len() != "seconds"@.len());
    assert("hrs"@.len() != "m"@.len());
    assert("hrs"@[0] != "min"@[0]);
    assert("hrs"@.len() != "mins"@.len());
    assert("hrs"@.len() != "minute"@.len());
    assert("hrs"@.len() != "minutes"@.len());
    assert("hrs"@.len() != "h"@.len());
    assert("hrs"@.len() != "hr"@.len());
    assert(unit_factor_spec("hrs"@) == Some(3600u64));
    assert(forall|k: int| 0 <= k < "hrs"@.len() ==> 'a' <= #[trigger] "hrs"@[k] && "hrs"@[k] <= 'z');
    lemma_small_word_unit(n, "hrs"@);
}

/// The unit `hour` lasts 3600 seconds.
proof fn lemma_unit_hour(n: nat)
    requires
        n <= u64::MAX,
    ensures
        duration_outcome(decimal(n) + "hour"@) == DurationOutcome::Seconds(n * 3600int),
{
    reveal_strlit("hour");
    reveal_strlit("s");
    reveal_strlit("sec");
    reveal_strlit("secs");
    reveal_strlit("second");
    reveal_strlit("seconds");
    reveal_strlit("m");
    reveal_strlit("min");
    reveal_strlit("mins");
    reveal_strlit("minute");
    reveal_strlit("minutes");
    reveal_strlit("h");
    reveal_strlit("hr");
    reveal_strlit("hrs");
    assert("hour"@.len() != "s"@.len());
    assert("hour"@.len() != "sec"@.len());
    assert("hour"@[0] != "secs"@[0]);
    assert("hour"@.len() != "second"@.len());
    assert("hour"@.len() != "seconds"@.len());
    assert("hour"@.len() != "m"@.len());
    assert("hour"@.len() != "min"@.len());
    assert("hour"@[0] != "mins"@[0]);
    assert("hour"@.len() != "minute"@.len());
    assert("hour"@.len() != "minutes"@.len());
    assert("hour"@.len() != "h"@.len());
    assert("hour"@.len() != "hr"@.len());
    assert("hour"@.len() != "hrs"@.len());
    assert(unit_factor_spec("hour"@) == Some(3600u64));
    assert(forall|k: int| 0 <= k < "hour"@.len() ==> 'a' <= #[trigger] "hour"@[k] && "hour"@[k] <= 'z');
    lemma_small_word_unit(n, "hour"@);
}

/// The unit `hours` lasts 3600 seconds.
proof fn lemma_unit_hours(n: nat)
    requires
        n <= u64::MAX,
    ensures
        duration_outcome(decimal(n) + "hours"@) == DurationOutcome::Seconds(n * 3600int),
{
    reveal_strlit("hours");
    reveal_strlit("s");
    reveal_strlit("sec");
    reveal_strlit("secs");
    reveal_strlit("second");
    reveal_strlit("seconds");
    reveal_strlit("m");
    reveal_strlit("min");
    reveal_strlit("mins");
    reveal_strlit("minute");
    reveal_strlit("minutes");
    reveal_strlit("h");
    reveal_strlit("hr");
    reveal_strlit("hrs");
    reveal_strlit("hour");
    assert("hours"@.len() != "s"@.len());
    assert("hours"@.len() != "sec"@.len());
    assert("hours"@.len() != "secs"@.len());
    assert("hours"@.len() != "second"@.len());
    assert("hours"@.len() != "seconds"@.len());
    assert("hours"@.len() != "m"@.len());
    assert("hours"@.len() != "min"@.len());
    assert("hours"@.len() != "mins"@.len());
    assert("hours"@.len() != "minute"@.len());
    assert("hours"@.len() != "minutes"@.len());
    assert("hours"@.len() != "h"@.len());
    assert("hours"@.len() != "hr"@.len());
    assert("hours"@.len() != "hrs"@.len());
    assert("hours"@.len() != "hour"@.len());
    assert(unit_factor_spec("hours"@) == Some(3600u64));
    assert(forall|k: int| 0 <= k < "hours"@.len() ==> 'a' <= #[trigger] "hours"@[k] && "hours"@[k] <= 'z');
    lemma_small_word_unit(n, "hours"@);
}

/// The unit `d` lasts 86400 seconds.
proof fn lemma_unit_d(n: nat)
    requires
        n <= u64::MAX,
    ensures
        duration_outcome(decimal(n) + "d"@) == DurationOutcome::Seconds(n * 86400int),
{
    reveal_strlit("d");
    reveal_strlit("s");
    reveal_strlit("sec");
    reveal_strlit("secs");
    reveal_strlit("second");
    reveal_strlit("seconds");
    reveal_strlit("m");
    reveal_strlit("min");
    reveal_strlit("mins");
    reveal_strlit("minute");
    reveal_strlit("minutes");
    reveal_strlit("h");
    reveal_strlit("hr");
    reveal_strlit("hrs");
    reveal_strlit("hour");
    reveal_strlit("hours");
    assert("d"@[0] != "s"@[0]);
    assert("d"@.len() != "sec"@.len());
    assert("d"@.len() != "secs"@.len());
    assert("d"@.len() != "second"@.len());
    assert("d"@.len() != "seconds"@.len());
    assert("d"@[0] != "m"@[0]);
    assert("d"@.len() != "min"@.len());
    assert("d"@.len() != "mins"@.len());
    assert("d"@.len() != "minute"@.len());
    assert("d"@.len() != "minutes"@.len());
    assert("d"@[0] != "h"@[0]);
    assert("d"@.len() != "hr"@.len());
    assert("d"@.len() != "hrs"@.len());
    assert("d"@.len() != "hour"@.len());
    assert("d"@.len() != "hours"@.len());
    assert(unit_factor_spec("d"@) == Some(86400u64));
    assert(forall|k: int| 0 <= k < "d"@.len() ==> 'a' <= #[trigger] "d"@[k] && "d"@[k] <= 'z');
    lemma_small_word_unit(n, "d"@);
}

/// The unit `day` lasts 86400 seconds.
proof fn lemma_unit_day(n: nat)
    requires
        n <= u64::MAX,
    ensures
        duration_outcome(decimal(n) + "day"@) == DurationOutcome::Seconds(n * 86400int),
{
    reveal_strlit("day");
    reveal_strlit("s");
    reveal_strlit("sec");
    reveal_strlit("secs");
    reveal_strlit("second");
    reveal_strlit("seconds");
    reveal_strlit("m");
    reveal_strlit("min");
    reveal_strlit("mins");
    reveal_strlit("minute");
    reveal_strlit("minutes");
    reveal_strlit("h");
    reveal_strlit("hr");
    reveal_strlit("hrs");
    reveal_strlit("hour");
    reveal_strlit("hours");
    reveal_strlit("d");
    assert("day"@.len() != "s"@.len());
    assert("day"@[0] != "sec"@[0]);
    assert("day"@.len() != "secs"@.len());
    assert("day"@.len() != "second"@.len());
    assert("day"@.len() != "seconds"@.len());
    assert("day"@.len() != "m"@.len());
    assert("day"@[0] != "min"@[0]);
    assert("day"@.len() != "mins"@.len());
    assert("day"@.len() != "minute"@.len());
    assert("day"@.len() != "minutes"@.len());
    assert("day"@.len() != "h"@.len());
    assert("day"@.len() != "hr"@.len());
    assert("day"@[0] != "hrs"@[0]);
    assert("day"@.len() != "hour"@.len());
    assert("day"@.len() != "hours"@.len());
    assert("day"@.len() != "d"@.len());
    assert(unit_factor_spec("day"@) == Some(86400u64));
    assert(forall|k: int| 0 <= k < "day"@.len() ==> 'a' <= #[trigger] "day"@[k] && "day"@[k] <= 'z');
    lemma_small_word_unit(n, "day"@);
}

/// The unit `days` lasts 86400 seconds.
proof fn lemma_unit_days(n: nat)
    requires
        n <= u64::MAX,
    ensures
        duration_outcome(decimal(n) + "days"@) == DurationOutcome::Seconds(n * 86400int),
{
    reveal_strlit("days");
    reveal_strlit("s");
    reveal_strlit("sec");
    reveal_strlit("secs");
    reveal_strlit("second");
    reveal_strlit("seconds");
    reveal_strlit("m");
    reveal_strlit("min");
    reveal_strlit("mins");
    reveal_strlit("minute");
    reveal_strlit("minutes");
    reveal_strlit("h");
    reveal_strlit("hr");
    reveal_strlit("hrs");
    reveal_strlit("hour");
    reveal_strlit("hours");
    reveal_strlit("d");
    reveal_strlit("day");
    assert("days"@.len() != "s"@.len());
    assert("days"@.len() != "sec"@.len());
    assert("days"@[0] != "secs"@[0]);
    assert("days"@.len() != "second"@.len());
    assert("days"@.len() != "seconds"@.len());
    assert("days"@.len() != "m"@.len());
    assert("days"@.len() != "min"@.len());
    assert("days"@[0] != "mins"@[0]);
    assert("days"@.len() != "minute"@.len());
    assert("days"@.len() != "minutes"@.len());
    assert("days"@.len() != "h"@.len());
    assert("days"@.len() != "hr"@.len());
    assert("days"@.len() != "hrs"@.len());
    assert("days"@[0] != "hour"@[0]);
    assert("days"@.len() != "hours"@.len());
    assert("days"@.len() != "d"@.len());
    assert("days"@.len() != "day"@.len());
    assert(unit_factor_spec("days"@) == Some(86400u64));
    assert(forall|k: int| 0 <= k < "days"@.len() ==> 'a' <= #[trigger] "days"@[k] && "days"@[k] <= 'z');
    lemma_small_word_unit(n, "days"@);
}

/// A number followed directly by a word of small letters splits into the two,
/// and the word is its own lowercase form.
proof fn lemma_small_word_unit(n: nat, u: Seq<char>)
    requires
        n <= u64::MAX,
        u.len() > 0,
        forall|k: int| 0 <= k < u.len() ==> 'a' <= #[trigger] u[k] && u[k] <= 'z',
    ensures
        duration_outcome(decimal(n) + u) == match unit_factor_spec(u) {
            Some(f) => DurationOutcome::Seconds(n * f as int),
            None => DurationOutcome::UnknownUnit(u),
        },
{
    let d = decimal(n);
    lemma_decimal(n);
    lemma_parse_decimal(n);
    assert('a' <= u[0] && u[0] <= 'z');
    assert('a' <= u.last() && u.last() <= 'z');
    lemma_number_then_unit(d, u);
    lemma_trim_keeps(u);
    lemma_trim_keeps(d);
    assert(is_digit(d[0]) && is_digit(d.last()));
    assert(is_ascii_text(u));
    assert(u.map_values(|c: char| ascii_lower(c)) =~= u);
}

/// Whether `u` spells the word `w`.
fn is_word(u: &[char], w: &str) -> (r: bool)
    ensures
        r == (u@ == w@),
{
    let wc = chars_of(w);
    same_chars(u, &wc)
}

/// Seconds per unit, for a lowercased unit name (`s`, `sec`, `secs`, `second`,
/// `seconds`, `m`, `min`, `mins`, `minute`, `minutes`, `h`, `hr`, `hrs`, `hour`,
/// `hours`, `d`, `day`, `days`).
pub fn unit_factor(u: &[char]) -> (r: Option<u64>)
    ensures
        r == unit_factor_spec(u@),
{
    if is_word(u, "s") || is_word(u, "sec") || is_word(u, "secs") || is_word(u, "second")
        || is_word(u, "seconds") {
        Some(1)
    } else if is_word(u, "m") || is_word(u, "min") || is_word(u, "mins") || is_word(u, "minute")
        || is_word(u, "minutes") {
        Some(60)
    } else if is_word(u, "h") || is_word(u, "hr") || is_word(u, "hrs") || is_word(u, "hour")
        || is_word(u, "hours") {
        Some(3600)
    } else if is_word(u, "d") || is_word(u, "day") || is_word(u, "days") {
        Some(86400)
    } else {
        None
    }
}

/// The first position of an alphabetic character in `s`, or `s.len()`.
fn find_alphabetic(s: &[char]) -> (r: usize)
    ensures
        r == first_alphabetic_from(s@, 0),
{
    let n = s.len();
    let mut i: usize = 0;
    while i < n
        invariant
            i <= n,
            n == s@.len(),
            first_alphabetic_from(s@, 0) == first_alphabetic_from(s@, i as int),
        decreases n - i,
    {
        if char_is_alphabetic(s[i]) {
            return i;
        }
        i = i + 1;
    }
    i
}

/// The number and the seconds per unit that a duration string holds, before
/// they are multiplied.
fn duration_terms(s: &str) -> (r: Result<(u64, u64), DurationError>)
    ensures
        match r {
            Ok((n, f)) => duration_outcome(s@) == DurationOutcome::Seconds(n * f),
            Err(DurationError::InvalidNumber(p)) => duration_outcome(s@)
                == DurationOutcome::InvalidNumber(p@),
            Err(DurationError::UnknownUnit(u)) => duration_outcome(s@)
                == DurationOutcome::UnknownUnit(u@),
        },
{
    let v = chars_of(s);
    let t = trim_chars(&v);
    let k = find_alphabetic(&t);
    let num: Vec<char>;
    let unit: Vec<char>;
    if k >= t.len() {
        num = copy_range(&t, 0, t.len());
        unit = chars_of("min");
        assert(t@.subrange(0, t@.len() as int) =~= t@);
    } else {
        num = copy_range(&t, 0, k);
        let rest = copy_range(&t, k, t.len());
        unit = trim_chars(&rest);
        assert(t@.subrange(0, k as int) =~= t@.take(k as int));
        assert(t@.subrange(k as int, t@.len() as int) =~= t@.skip(k as int));
    }
    assert((num@, unit@) == duration_parts(s@));
    let num_trimmed = trim_chars(&num);
    match parse_u64(&num_trimmed) {
        None => Err(DurationError::InvalidNumber(string_from_chars(&num))),
        Some(n) => {
            let lower = lowercase_chars(&unit);
            match unit_factor(&lower) {
                None => Err(DurationError::UnknownUnit(string_from_chars(&lower))),
                Some(f) => Ok((n, f)),
            }
        },
    }
}

/// `r` is what parsing the duration string `s` gives: its seconds, or the
/// error for what the string denotes.
pub open spec fn duration_reads(s: Seq<char>, r: Result<u64, DurationError>) -> bool {
    match r {
        Ok(secs) => duration_outcome(s) == DurationOutcome::Seconds(secs as int),
        Err(DurationError::InvalidNumber(p)) => duration_outcome(s) == DurationOutcome::InvalidNumber(
            p@,
        ),
        Err(DurationError::UnknownUnit(u)) => duration_outcome(s) == DurationOutcome::UnknownUnit(
            u@,
        ),
    }
}

/// `r` is what reading the timeout of `cfg` gives: no timeout when no
/// duration is configured, and otherwise what parsing the configured duration
/// string gives.
pub open spec fn timeout_reads(cfg: BaseConfig, r: Result<Option<u64>, DurationError>) -> bool {
    match cfg.timeout_duration {
        None => r matches Ok(None),
        Some(d) => match r {
            Ok(None) => false,
            Ok(Some(secs)) => duration_reads(d@, Ok(secs)),
            Err(e) => duration_reads(d@, Err(e)),
        },
    }
}

/// Reading the configured timeout agrees with parsing the configured duration
/// string: the one gives seconds exactly when the other does, and then the
/// same seconds; the one fails exactly when the other does, and then with an
/// error of the same text; and the timeout fits exactly when the string does
/// not overflow.
pub proof fn law_timeout_agrees_with_duration(
    cfg: BaseConfig,
    t: Result<Option<u64>, DurationError>,
    p: Result<u64, DurationError>,
)
    requires
        cfg.timeout_duration is Some,
        timeout_reads(cfg, t),
        duration_reads(cfg.timeout_duration->0@, p),
    ensures
        t is Ok <==> p is Ok,
        t matches Ok(Some(x)) ==> p matches Ok(y) && x == y,
        t matches Err(e) ==> p matches Err(f) && e.message_spec() == f.message_spec(),
        cfg.timeout_fits() <==> !duration_overflows(cfg.timeout_duration->0@),
{
}

/// Parses a duration string into whole seconds. Bare numbers are treated as
/// minutes. Supports the units s, sec, min, m, h and d and their long forms,
/// in any letter case.
pub fn parse_duration(s: &str) -> (r: Result<u64, DurationError>)
    requires
        !duration_overflows(s@),
    ensures
        r is Err <==> !(duration_outcome(s@) is Seconds),
        duration_reads(s@, r),
{
    match duration_terms(s) {
        Ok((n, f)) => Ok(n * f),
        Err(e) => Err(e),
    }
}

/// Parses a duration string as `parse_duration` does, and gives `None` where
/// the number of seconds does not fit in a `u64`.
pub fn checked_parse_duration(s: &str) -> (r: Option<Result<u64, DurationError>>)
    ensures
        r is None <==> duration_overflows(s@),
        r matches Some(res) ==> (res is Err <==> !(duration_outcome(s@) is Seconds)),
        r matches Some(res) ==> duration_reads(s@, res),
{
    match duration_terms(s) {
        Ok((n, f)) => {
            if n.checked_mul(f).is_none() {
                None
            } else {
                Some(parse_duration(s))
            }
        },
        Err(_) => Some(parse_duration(s)),
    }
}

impl DurationError {
    /// The text of the error.
    pub open spec fn message_spec(self) -> Seq<char> {
        match self {
            DurationError::InvalidNumber(p) => "Invalid duration number: '"@ + p@ + "'"@,
            DurationError::UnknownUnit(u) => "Unknown duration unit: '"@ + u@ + "'"@,
        }
    }

    /// The text of the error, e.g. `Unknown duration unit: 'weeks'`.
    pub fn message(&self) -> (m: String)
        ensures
            m@ == self.message_spec(),
    {
        match self {
            DurationError::InvalidNumber(p) => {
                let mut m = String::from_str("Invalid duration number: '");
                m.append(p.as_str());
                m.append("'");
                m
            },
            DurationError::UnknownUnit(u) => {
                let mut m = String::from_str("Unknown duration unit: '");
                m.append(u.as_str());
                m.append("'");
                m
            },
        }
    }
}

impl BaseConfig {
    /// The configured pause between batches does not overflow when parsed.
    pub open spec fn timeout_fits(&self) -> bool {
        self.timeout_duration matches Some(d) ==> !duration_overflows(d@)
    }

    /// Returns the parsed timeout duration in seconds, if one is configured.
    pub fn parsed_timeout(&self) -> (r: Result<Option<u64>, DurationError>)
        requires
            self.timeout_fits(),
        ensures
            self.timeout_duration is None ==> r matches Ok(None),
            self.timeout_duration matches Some(d) ==> (r is Err <==> !(duration_outcome(
                d@,
            ) is Seconds)),
            timeout_reads(*self, r),
    {
        match &self.timeout_duration {
            None => Ok(None),
            Some(s) => match parse_duration(s.as_str()) {
                Ok(secs) => Ok(Some(secs)),
                Err(e) => Err(e),
            },
        }
    }

    /// Returns the parsed timeout as `parsed_timeout` does, and `None` where the
    /// configured duration holds more seconds than a `u64`.
    pub fn checked_parsed_timeout(&self) -> (r: Option<Result<Option<u64>, DurationError>>)
        ensures
            r is None <==> !self.timeout_fits(),
            self.timeout_duration is None ==> r matches Some(Ok(None)),
            self.timeout_duration matches Some(d) ==> (r matches Some(res) ==> (res is Err
                <==> !(duration_outcome(d@) is Seconds))),
            r matches Some(res) ==> timeout_reads(*self, res),
    {
        match &self.timeout_duration {
            None => Some(Ok(None)),
            Some(s) => match checked_parse_duration(s.as_str()) {
                None => None,
                Some(_) => Some(self.parsed_timeout()),
            },
        }
    }
}

} // verus!
