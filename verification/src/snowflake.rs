//! Snowflake decoding — no network access.
//!
//! A Discord snowflake is a 64-bit ID: the top 42 bits count milliseconds
//! since the Discord epoch (2015-01-01T00:00:00Z), then 5 bits of worker ID,
//! 5 bits of process ID and a 12-bit per-process increment.
use vstd::prelude::*;

use crate::invite::lemma_trim_noop;
use crate::text::{
    all_digits, all_digits_in, chars_of, decimal, decimal_string, digits_value,
    lemma_decimal_digits, parse_digits, push_decimal, trim, trim_chars,
};

verus! {

/// Discord epoch: 2015-01-01T00:00:00.000Z in Unix milliseconds.
pub const DISCORD_EPOCH: u64 = 1_420_070_400_000;

/// Decoded components of a Discord snowflake.
#[derive(Debug, PartialEq, Eq, Structural)]
pub struct SnowflakeInfo {
    pub id: u64,
    pub timestamp_ms: u64,
    pub worker_id: u64,
    pub process_id: u64,
    pub increment: u64,
}

/// Why a string is not a snowflake.
#[derive(Debug, Clone, Copy, PartialEq, Eq, Structural)]
pub enum SnowflakeError {
    /// Empty, or holds a character that is not an ASCII digit.
    NotNumeric,
    /// More than 64 bits.
    OutOfRange,
    /// Below `1 << 22`, so it encodes no timestamp.
    TooSmall,
}

/// The smallest snowflake: `1 << 22`.
pub open spec fn min_snowflake() -> nat {
    0x40_0000
}

/// What `parse_snowflake` makes of `raw`.
pub open spec fn snowflake_of(raw: Seq<char>) -> Result<u64, SnowflakeError> {
    let t = trim(raw);
    if t.len() == 0 || !all_digits(t) {
        Err(SnowflakeError::NotNumeric)
    } else if digits_value(t) > u64::MAX {
        Err(SnowflakeError::OutOfRange)
    } else if digits_value(t) < min_snowflake() {
        Err(SnowflakeError::TooSmall)
    } else {
        Ok(digits_value(t) as u64)
    }
}

/// Validate that a string is a plausible snowflake (numeric, 64-bit, at
/// least `1 << 22`); surrounding whitespace is ignored.
pub fn parse_snowflake(raw: &str) -> (r: Result<u64, SnowflakeError>)
    ensures
        r == snowflake_of(raw@),
{
    let v = chars_of(raw);
    let t = trim_chars(&v);
    if t.len() == 0 || !all_digits_in(&t) {
        return Err(SnowflakeError::NotNumeric);
    }
    match parse_digits(&t) {
        None => Err(SnowflakeError::OutOfRange),
        Some(id) => {
            if id < 0x40_0000 {
                Err(SnowflakeError::TooSmall)
            } else {
                Ok(id)
            }
        },
    }
}

/// The milliseconds since the Discord epoch that `id` encodes.
pub open spec fn epoch_offset(id: u64) -> nat {
    (id / 0x40_0000) as nat
}

/// The components of `id`, by arithmetic on its bit fields.
pub open spec fn decoded(id: u64) -> SnowflakeInfo {
    SnowflakeInfo {
        id,
        timestamp_ms: (epoch_offset(id) + DISCORD_EPOCH) as u64,
        worker_id: ((id / 0x2_0000) % 32) as u64,
        process_id: ((id / 0x1000) % 32) as u64,
        increment: (id % 0x1000) as u64,
    }
}

/// Decode a snowflake into its components.
pub fn decode(id: u64) -> (info: SnowflakeInfo)
    ensures
        info == decoded(id),
{
    assert(id >> 22 == id / 0x40_0000) by (bit_vector);
    assert((id & 0x3E_0000) >> 17 == (id / 0x2_0000) % 32) by (bit_vector);
    assert((id & 0x1F_000) >> 12 == (id / 0x1000) % 32) by (bit_vector);
    assert(id & 0xFFF == id % 0x1000) by (bit_vector);
    assert(id >> 22 <= 0x3FF_FFFF_FFFF) by (bit_vector);
    SnowflakeInfo {
        id,
        timestamp_ms: (id >> 22) + DISCORD_EPOCH,
        worker_id: (id & 0x3E_0000) >> 17,
        process_id: (id & 0x1F_000) >> 12,
        increment: id & 0xFFF,
    }
}

/// Decoding loses nothing: the four components put back in their bit
/// fields give the ID again, and each lies within its field's width.
pub proof fn lemma_decode_recomposes(id: u64)
    ensures
        ({
            let info = decoded(id);
            &&& info.id == id
            &&& info.timestamp_ms >= DISCORD_EPOCH
            &&& info.timestamp_ms - DISCORD_EPOCH < 0x400_0000_0000
            &&& info.worker_id < 32
            &&& info.process_id < 32
            &&& info.increment < 4096
            &&& id == (info.timestamp_ms - DISCORD_EPOCH) * 0x40_0000 + info.worker_id * 0x2_0000
                + info.process_id * 0x1000 + info.increment
        }),
{
    assert(id == (id / 0x40_0000) * 0x40_0000 + ((id / 0x2_0000) % 32) * 0x2_0000 + ((id
        / 0x1000) % 32) * 0x1000 + id % 0x1000) by (nonlinear_arith);
    assert(id / 0x40_0000 < 0x400_0000_0000) by (nonlinear_arith);
}

/// Putting components into their bit fields and decoding gives them back.
pub proof fn lemma_compose_decodes(offset: nat, worker: nat, process: nat, increment: nat)
    requires
        offset < 0x400_0000_0000,
        worker < 32,
        process < 32,
        increment < 4096,
    ensures
        ({
            let id = (offset * 0x40_0000 + worker * 0x2_0000 + process * 0x1000
                + increment) as u64;
            let info = decoded(id);
            &&& offset * 0x40_0000 + worker * 0x2_0000 + process * 0x1000 + increment
                <= u64::MAX
            &&& info.timestamp_ms == offset + DISCORD_EPOCH
            &&& info.worker_id == worker
            &&& info.process_id == process
            &&& info.increment == increment
        }),
{
    let n = offset * 0x40_0000 + worker * 0x2_0000 + process * 0x1000 + increment;
    assert(n <= u64::MAX) by (nonlinear_arith)
        requires
            n == offset * 0x40_0000 + worker * 0x2_0000 + process * 0x1000 + increment,
            offset < 0x400_0000_0000,
            worker < 32,
            process < 32,
            increment < 4096,
    ;
    assert(n / 0x40_0000 == offset && (n / 0x2_0000) % 32 == worker && (n / 0x1000) % 32
        == process && n % 0x1000 == increment) by (nonlinear_arith)
        requires
            n == offset * 0x40_0000 + worker * 0x2_0000 + process * 0x1000 + increment,
            worker < 32,
            process < 32,
            increment < 4096,
    ;
}

/// The ID written in a decoded row parses back to the same snowflake.
pub proof fn lemma_printed_id_parses(id: u64)
    requires
        id >= min_snowflake(),
    ensures
        snowflake_of(decimal(id as nat)) == Ok::<u64, SnowflakeError>(id),
{
    lemma_decimal_digits(id as nat);
    lemma_trim_noop(decimal(id as nat));
}

/// A number written in decimal is a snowflake from `1 << 22` up to the
/// largest 64-bit value; below that it is too small, above it out of range.
pub proof fn lemma_numbers_as_snowflakes(n: nat)
    ensures
        n < 4_194_304 ==> snowflake_of(decimal(n)) == Err::<u64, SnowflakeError>(
            SnowflakeError::TooSmall,
        ),
        n > 0xFFFF_FFFF_FFFF_FFFF ==> snowflake_of(decimal(n)) == Err::<u64, SnowflakeError>(
            SnowflakeError::OutOfRange,
        ),
        4_194_304 <= n <= 0xFFFF_FFFF_FFFF_FFFF ==> snowflake_of(decimal(n)) == Ok::<
            u64,
            SnowflakeError,
        >(n as u64),
{
    lemma_decimal_digits(n);
    lemma_trim_noop(decimal(n));
}

/// Later IDs never decode to earlier timestamps.
pub proof fn lemma_timestamp_monotone(a: u64, b: u64)
    requires
        a <= b,
    ensures
        decoded(a).timestamp_ms <= decoded(b).timestamp_ms,
{
    assert(a / 0x40_0000 <= b / 0x40_0000) by (nonlinear_arith)
        requires
            a <= b,
    ;
}

// ---------------------------------------------------------------------------
// Timestamps
// ---------------------------------------------------------------------------

/// The text that chrono's `DateTime::<Utc>::from_timestamp(secs, 0)`,
/// formatted with `"%Y-%m-%d %H:%M:%S"`, gives, or `None` when chrono
/// cannot represent `secs`.
pub uninterp spec fn chrono_utc_text(secs: i64) -> Option<Seq<char>>;

/// Calls chrono's `DateTime::from_timestamp(secs, 0)` and, when it yields a
/// date, formats it as `YYYY-MM-DD HH:MM:SS`. The contract only ties the
/// result to `chrono_utc_text`; the calendar arithmetic is chrono's.
#[verifier::external_body]
fn utc_text(secs: i64) -> (r: Option<String>)
    ensures
        match r {
            Some(s) => chrono_utc_text(secs) == Some(s@),
            None => chrono_utc_text(secs) is None,
        },
{
    match chrono::DateTime::from_timestamp(secs, 0) {
        Some(t) => Some(t.format("%Y-%m-%d %H:%M:%S").to_string()),
        None => None,
    }
}

pub open spec fn utc_or_placeholder(text: Option<Seq<char>>) -> Seq<char> {
    match text {
        Some(t) => t,
        None => "(out of range)"@,
    }
}

/// The formatted date, or `(out of range)` when there is none.
pub fn utc_text_or_placeholder(text: Option<String>) -> (s: String)
    ensures
        s@ == utc_or_placeholder(
            match text {
                Some(t) => Some(t@),
                None => None,
            },
        ),
{
    match text {
        Some(t) => t,
        None => String::from_str("(out of range)"),
    }
}

pub open spec fn formatted_utc(ms: u64) -> Seq<char> {
    utc_or_placeholder(chrono_utc_text((ms / 1000) as i64))
}

/// Format milliseconds-since-epoch as `YYYY-MM-DD HH:MM:SS` UTC (whole
/// seconds), or `(out of range)`.
pub fn format_utc(ms: u64) -> (s: String)
    ensures
        s@ == formatted_utc(ms),
{
    let secs = (ms / 1000) as i64;
    utc_text_or_placeholder(utc_text(secs))
}

// ---------------------------------------------------------------------------
// Relative age
// ---------------------------------------------------------------------------

pub open spec fn minute_ms() -> int {
    60_000
}

pub open spec fn hour_ms() -> int {
    3_600_000
}

pub open spec fn day_ms() -> int {
    86_400_000
}

/// Division truncating toward zero, as chrono's `TimeDelta::num_days`,
/// `num_hours` and `num_minutes` count whole units of a signed duration.
pub open spec fn whole_units(delta: int, unit: int) -> int {
    if delta >= 0 {
        delta / unit
    } else {
        -((-delta) / unit)
    }
}

/// The count and the unit that the age of a signed duration is told in.
pub open spec fn age_value(delta: int) -> int {
    let days = whole_units(delta, day_ms());
    if days >= 365 {
        days / 365
    } else if days >= 30 {
        days / 30
    } else if days >= 1 {
        days
    } else if whole_units(delta, hour_ms()) >= 1 {
        whole_units(delta, hour_ms())
    } else if whole_units(delta, minute_ms()) >= 0 {
        whole_units(delta, minute_ms())
    } else {
        0
    }
}

pub open spec fn age_unit(delta: int) -> Seq<char> {
    let days = whole_units(delta, day_ms());
    if days >= 365 {
        "year"@
    } else if days >= 30 {
        "month"@
    } else if days >= 1 {
        "day"@
    } else if whole_units(delta, hour_ms()) >= 1 {
        "hour"@
    } else {
        "minute"@
    }
}

pub open spec fn plural_suffix(value: int) -> Seq<char> {
    if value == 1 {
        ""@
    } else {
        "s"@
    }
}

/// The text that tells a duration of `delta` milliseconds since a moment:
/// `"{n} {unit}{s} ago"`, or `"in {n} {unit}{s}"` for a moment to come.
pub open spec fn age_text(delta: int) -> Seq<char> {
    let value = age_value(delta);
    let unit = age_unit(delta);
    if delta >= 0 {
        decimal(value as nat) + " "@ + unit + plural_suffix(value) + " ago"@
    } else {
        "in "@ + decimal(value as nat) + " "@ + unit + plural_suffix(value)
    }
}

/// What `relative_age(now_ms, ms)` tells.
pub open spec fn relative_age_text(now_ms: i64, ms: u64) -> Seq<char> {
    age_text(now_ms - (ms as i64))
}

proof fn lemma_whole_units_nonneg(delta: int, unit: int)
    requires
        delta >= 0,
        unit > 0,
    ensures
        whole_units(delta, unit) == delta / unit,
        delta / unit >= 0,
{
}

proof fn lemma_whole_units_neg(delta: int, unit: int)
    requires
        delta < 0,
        unit > 0,
    ensures
        whole_units(delta, unit) <= 0,
{
}

/// The text that `n` of `unit` ago gives: `"{n} {unit} ago"`, with an `s`
/// after the unit unless `n` is 1.
pub open spec fn ago(n: int, unit: Seq<char>) -> Seq<char> {
    decimal(n as nat) + " "@ + unit + (if n == 1 {
        ""@
    } else {
        "s"@
    }) + " ago"@
}

/// An age is told in the largest unit that fits, counting whole units: whole
/// years (365 days) from a year on, whole months (30 days) from 30 days on,
/// whole days from a day on, whole hours from an hour on, and whole minutes
/// below that; a moment to come is "in 0 minutes".
pub proof fn lemma_age_units(delta: int)
    ensures
        delta >= 31_536_000_000 ==> age_text(delta) == ago(delta / 31_536_000_000, "year"@),
        2_592_000_000 <= delta < 31_536_000_000 ==> age_text(delta) == ago(
            delta / 2_592_000_000,
            "month"@,
        ),
        86_400_000 <= delta < 2_592_000_000 ==> age_text(delta) == ago(delta / 86_400_000, "day"@),
        3_600_000 <= delta < 86_400_000 ==> age_text(delta) == ago(delta / 3_600_000, "hour"@),
        0 <= delta < 3_600_000 ==> age_text(delta) == ago(delta / 60_000, "minute"@),
        delta < 0 ==> age_text(delta) == "in 0 minutes"@,
{
    reveal_strlit("in ");
    reveal_strlit(" ");
    reveal_strlit("minute");
    reveal_strlit("s");
    reveal_strlit("in 0 minutes");
    if delta >= 0 {
        vstd::arithmetic::div_mod::lemma_div_denominator(delta, 86_400_000, 365);
        vstd::arithmetic::div_mod::lemma_div_denominator(delta, 86_400_000, 30);
        let days = delta / 86_400_000;
        assert(days >= 365 <==> delta >= 31_536_000_000);
        assert(days >= 30 <==> delta >= 2_592_000_000);
        assert(days >= 1 <==> delta >= 86_400_000);
        assert(delta / 3_600_000 >= 1 <==> delta >= 3_600_000);
    } else {
        lemma_whole_units_neg(delta, day_ms());
        lemma_whole_units_neg(delta, hour_ms());
        lemma_whole_units_neg(delta, minute_ms());
        assert(age_value(delta) == 0);
        assert(decimal(0) =~= seq!['0']);
        assert("in "@ + decimal(0) + " "@ + "minute"@ + "s"@ =~= "in 0 minutes"@);
    }
}

/// Human-readable age of the moment `ms` (Unix milliseconds), seen from
/// `now_ms` (e.g. "11 years ago").
pub fn relative_age(now_ms: i64, ms: u64) -> (s: String)
    requires
        i64::MIN < now_ms - (ms as i64) <= i64::MAX,
    ensures
        s@ == relative_age_text(now_ms, ms),
{
    let then_ms = ms as i64;
    let delta = now_ms - then_ms;
    let mut s = String::new();
    if delta >= 0 {
        let d = delta as u64;
        proof {
            lemma_whole_units_nonneg(delta as int, day_ms());
            lemma_whole_units_nonneg(delta as int, hour_ms());
            lemma_whole_units_nonneg(delta as int, minute_ms());
        }
        let days = d / 86_400_000;
        let (value, unit): (u64, &str) = if days >= 365 {
            (days / 365, "year")
        } else if days >= 30 {
            (days / 30, "month")
        } else if days >= 1 {
            (days, "day")
        } else if d / 3_600_000 >= 1 {
            (d / 3_600_000, "hour")
        } else {
            (d / 60_000, "minute")
        };
        assert(value == age_value(delta as int));
        assert(unit@ == age_unit(delta as int));
        push_decimal(&mut s, value);
        s.append(" ");
        s.append(unit);
        if value != 1 {
            s.append("s");
        } else {
            s.append("");
        }
        s.append(" ago");
    } else {
        proof {
            lemma_whole_units_neg(delta as int, day_ms());
            lemma_whole_units_neg(delta as int, hour_ms());
            lemma_whole_units_neg(delta as int, minute_ms());
        }
        assert(age_value(delta as int) == 0);
        s.append("in ");
        push_decimal(&mut s, 0);
        s.append(" ");
        s.append("minute");
        s.append("s");
    }
    s
}

// ---------------------------------------------------------------------------
// Batch decoding
// ---------------------------------------------------------------------------

/// The table row shown for a snowflake: ID, UTC timestamp, age, worker,
/// process, increment.
pub open spec fn snowflake_row(id: u64, now_ms: i64) -> Seq<Seq<char>> {
    let info = decoded(id);
    seq![
        decimal(id as nat),
        formatted_utc(info.timestamp_ms),
        relative_age_text(now_ms, info.timestamp_ms),
        decimal(info.worker_id as nat),
        decimal(info.process_id as nat),
        decimal(info.increment as nat),
    ]
}

/// The first ID in a batch that is not a snowflake, and why.
#[derive(Debug, Clone, Copy, PartialEq, Eq, Structural)]
pub struct BatchError {
    pub index: usize,
    pub error: SnowflakeError,
}

/// Whether subtracting the timestamp of `id` from `now_ms` stays inside the
/// range of a signed duration.
pub open spec fn age_representable(now_ms: i64, id: u64) -> bool {
    i64::MIN < now_ms - (decoded(id).timestamp_ms as i64) <= i64::MAX
}

/// The table rows of a batch of IDs, or the first ID that fails to parse.
pub open spec fn batch_rows_ok(ids: Seq<Seq<char>>, now_ms: i64, rows: Seq<Seq<Seq<char>>>) -> bool {
    &&& rows.len() == ids.len()
    &&& forall|i: int|
        0 <= i < ids.len() ==> (snowflake_of(#[trigger] ids[i]) matches Ok(id) && rows[i]
            == snowflake_row(id, now_ms))
}

/// Decode a batch of snowflake IDs into table rows (network-free). Stops at
/// the first ID that is not a snowflake.
pub fn decode_rows(ids: &Vec<String>, now_ms: i64) -> (r: Result<Vec<Vec<String>>, BatchError>)
    requires
        forall|i: int|
            0 <= i < ids.len() ==> (snowflake_of(#[trigger] ids[i]@) matches Ok(id)
                ==> age_representable(now_ms, id)),
    ensures
        match r {
            Ok(rows) => batch_rows_ok(ids.deep_view(), now_ms, rows.deep_view()),
            Err(e) => {
                &&& e.index < ids.len()
                &&& snowflake_of(ids[e.index as int]@) == Err::<u64, SnowflakeError>(e.error)
                &&& forall|i: int| 0 <= i < e.index ==> snowflake_of(#[trigger] ids[i]@) is Ok
            },
        },
{
    let mut rows: Vec<Vec<String>> = Vec::new();
    let mut i: usize = 0;
    while i < ids.len()
        invariant
            i <= ids.len(),
            forall|j: int|
                0 <= j < ids.len() ==> (snowflake_of(#[trigger] ids[j]@) matches Ok(id)
                    ==> age_representable(now_ms, id)),
            batch_rows_ok(ids.deep_view().take(i as int), now_ms, rows.deep_view()),
        decreases ids.len() - i,
    {
        let id = match parse_snowflake(ids[i].as_str()) {
            Ok(id) => id,
            Err(error) => {
                assert forall|j: int| 0 <= j < i implies snowflake_of(#[trigger] ids[j]@) is Ok by {
                    assert(ids.deep_view().take(i as int)[j] == ids[j]@);
                }
                return Err(BatchError { index: i, error });
            },
        };
        let info = decode(id);
        let mut row: Vec<String> = Vec::new();
        row.push(decimal_string(id));
        row.push(format_utc(info.timestamp_ms));
        row.push(relative_age(now_ms, info.timestamp_ms));
        row.push(decimal_string(info.worker_id));
        row.push(decimal_string(info.process_id));
        row.push(decimal_string(info.increment));
        assert(row.deep_view() =~= snowflake_row(id, now_ms));
        let ghost before = rows.deep_view();
        rows.push(row);
        assert(rows.deep_view() =~= before.push(snowflake_row(id, now_ms)));
        assert forall|j: int| 0 <= j < i + 1 implies (snowflake_of(
            #[trigger] ids.deep_view().take(i + 1)[j],
        ) matches Ok(id2) && rows.deep_view()[j] == snowflake_row(id2, now_ms)) by {
            if j < i {
                assert(ids.deep_view().take(i + 1)[j] == ids.deep_view().take(i as int)[j]);
            }
        }
        i += 1;
    }
    assert(ids.deep_view().take(ids.len() as int) =~= ids.deep_view());
    Ok(rows)
}

/// Each row of a decoded batch shows, for the ID it was read from: the ID,
/// the UTC time and the age of its timestamp field, then its worker,
/// process and increment fields, in that order.
pub proof fn lemma_batch_row_columns(
    ids: Seq<Seq<char>>,
    now_ms: i64,
    rows: Seq<Seq<Seq<char>>>,
    i: int,
)
    requires
        batch_rows_ok(ids, now_ms, rows),
        0 <= i < ids.len(),
    ensures
        snowflake_of(ids[i]) matches Ok(id) && rows[i].len() == 6 && rows[i][0] == decimal(
            id as nat,
        ) && rows[i][1] == formatted_utc((id / 0x40_0000 + DISCORD_EPOCH) as u64) && rows[i][2]
            == relative_age_text(now_ms, (id / 0x40_0000 + DISCORD_EPOCH) as u64) && rows[i][3]
            == decimal(((id / 0x2_0000) % 32) as nat) && rows[i][4] == decimal(
            ((id / 0x1000) % 32) as nat,
        ) && rows[i][5] == decimal((id % 0x1000) as nat),
{
    assert(snowflake_of(ids[i]) is Ok);
}

} // verus!
