//! The cold tier's read path: which partitions a time window reaches.
use vstd::prelude::*;

use crate::partition::{
    MinuteStamp, partition_path_text, lemma_path_digits, lemma_digit_injective,
    lemma_two_digit_value, lemma_four_digit_value, law_partition_path_determinism,
};
use crate::text::{digit_char, digit_at, has_text_at};

verus! {

/// Two digits from position `i` on, read as a number below 100.
fn two_digits_at(s: &str, i: usize) -> (r: Option<u64>)
    requires
        i + 2 <= s@.len(),
        i < 100,
    ensures
        match r {
            Some(v) => v < 100 && s@[i as int] == digit_char(v as nat / 10) && s@[i + 1] == digit_char(
                v as nat % 10,
            ),
            None => forall|v: nat|
                v < 100 ==> !(s@[i as int] == #[trigger] digit_char(v / 10) && s@[i + 1] == digit_char(v % 10)),
        },
{
    match (digit_at(s, i), digit_at(s, i + 1)) {
        (Some(a), Some(b)) => {
            let v = 10 * a + b;
            assert(v / 10 == a && v % 10 == b);
            Some(v)
        },
        _ => None,
    }
}

/// Four digits from position `i` on, read as a number below 10000.
fn four_digits_at(s: &str, i: usize) -> (r: Option<u64>)
    requires
        i + 4 <= s@.len(),
        i < 100,
    ensures
        match r {
            Some(v) => v < 10000 && s@[i as int] == digit_char(v as nat / 1000) && s@[i + 1] == digit_char(
                (v as nat / 100) % 10,
            ) && s@[i + 2] == digit_char((v as nat / 10) % 10) && s@[i + 3] == digit_char(v as nat % 10),
            None => forall|v: nat|
                v < 10000 ==> !(s@[i as int] == #[trigger] digit_char(v / 1000) && s@[i + 1] == digit_char(
                    (v / 100) % 10,
                ) && s@[i + 2] == digit_char((v / 10) % 10) && s@[i + 3] == digit_char(v % 10)),
        },
{
    let a = match digit_at(s, i) {
        Some(a) => a,
        None => {
            assert forall|v: nat| v < 10000 implies s@[i as int] != #[trigger] digit_char(v / 1000) by {}
            return None;
        },
    };
    let b = match digit_at(s, i + 1) {
        Some(b) => b,
        None => {
            assert forall|v: nat| v < 10000 implies s@[i + 1] != #[trigger] digit_char((v / 100) % 10) by {}
            assert forall|v: nat| v < 10000 implies !(s@[i as int] == #[trigger] digit_char(v / 1000)
                && s@[i + 1] == digit_char((v / 100) % 10)) by {
                assert(s@[i + 1] != digit_char((v / 100) % 10));
            }
            return None;
        },
    };
    let c = match digit_at(s, i + 2) {
        Some(c) => c,
        None => {
            assert forall|v: nat| v < 10000 implies s@[i + 2] != #[trigger] digit_char((v / 10) % 10) by {}
            assert forall|v: nat| v < 10000 implies !(s@[i as int] == #[trigger] digit_char(v / 1000)
                && s@[i + 2] == digit_char((v / 10) % 10)) by {
                assert(s@[i + 2] != digit_char((v / 10) % 10));
            }
            return None;
        },
    };
    let d = match digit_at(s, i + 3) {
        Some(d) => d,
        None => {
            assert forall|v: nat| v < 10000 implies s@[i + 3] != #[trigger] digit_char(v % 10) by {}
            assert forall|v: nat| v < 10000 implies !(s@[i as int] == #[trigger] digit_char(v / 1000)
                && s@[i + 3] == digit_char(v % 10)) by {
                assert(s@[i + 3] != digit_char(v % 10));
            }
            return None;
        },
    };
    let v = 1000 * a + 100 * b + 10 * c + d;
    proof {
        lemma_digits_value(a as nat, b as nat, c as nat, d as nat);
    }
    Some(v)
}

proof fn lemma_digits_value(a: nat, b: nat, c: nat, d: nat)
    requires
        a < 10,
        b < 10,
        c < 10,
        d < 10,
    ensures
        ({
            let v = 1000 * a + 100 * b + 10 * c + d;
            v < 10000 && v / 1000 == a && (v / 100) % 10 == b && (v / 10) % 10 == c && v % 10 == d
        }),
{
    let v = 1000 * a + 100 * b + 10 * c + d;
    assert(v / 10 == 100 * a + 10 * b + c);
    assert(v / 100 == 10 * a + b);
}

/// Two-digit numbers with the same digits are equal.
proof fn lemma_two_same(v: nat, w: nat)
    requires
        v < 100,
        w < 100,
        digit_char(v / 10) == digit_char(w / 10),
        digit_char(v % 10) == digit_char(w % 10),
    ensures
        v == w,
{
    lemma_digit_injective(v / 10, w / 10);
    lemma_digit_injective(v % 10, w % 10);
    lemma_two_digit_value(v);
    lemma_two_digit_value(w);
}

/// Four-digit numbers with the same digits are equal.
proof fn lemma_four_same(v: nat, w: nat)
    requires
        v < 10000,
        w < 10000,
        digit_char(v / 1000) == digit_char(w / 1000),
        digit_char((v / 100) % 10) == digit_char((w / 100) % 10),
        digit_char((v / 10) % 10) == digit_char((w / 10) % 10),
        digit_char(v % 10) == digit_char(w % 10),
    ensures
        v == w,
{
    lemma_digit_injective(v / 1000, w / 1000);
    lemma_digit_injective((v / 100) % 10, (w / 100) % 10);
    lemma_digit_injective((v / 10) % 10, (w / 10) % 10);
    lemma_digit_injective(v % 10, w % 10);
    lemma_four_digit_value(v);
    lemma_four_digit_value(w);
}

/// The magnitude of a year.
pub open spec fn year_magnitude(y: i32) -> nat {
    if y < 0 { (-y) as nat } else { y as nat }
}

/// A text that has a minute's separators where its path has them, and the
/// minute's digits where its path has them, is that minute's path.
#[verifier::spinoff_prover]
#[verifier::rlimit(40)]
proof fn lemma_path_from_pieces(t: Seq<char>, m: MinuteStamp)
    requires
        m.wf(),
        ({
            let o: int = if m.year < 0 { 6 } else { 5 };
            let y = year_magnitude(m.year);
            &&& t.len() == o + 28
            &&& t.subrange(0, 5) == "date="@
            &&& (m.year < 0 ==> t[5] == '-')
            &&& t[o + 4] == '-'
            &&& t[o + 7] == '-'
            &&& t.subrange(o + 10, o + 16) == "/hour="@
            &&& t.subrange(o + 18, o + 26) == "/minute="@
            &&& t[o] == digit_char(y / 1000)
            &&& t[o + 1] == digit_char((y / 100) % 10)
            &&& t[o + 2] == digit_char((y / 10) % 10)
            &&& t[o + 3] == digit_char(y % 10)
            &&& t[o + 5] == digit_char(m.month as nat / 10)
            &&& t[o + 6] == digit_char(m.month as nat % 10)
            &&& t[o + 8] == digit_char(m.day as nat / 10)
            &&& t[o + 9] == digit_char(m.day as nat % 10)
            &&& t[o + 16] == digit_char(m.hour as nat / 10)
            &&& t[o + 17] == digit_char(m.hour as nat % 10)
            &&& t[o + 26] == digit_char(m.minute as nat / 10)
            &&& t[o + 27] == digit_char(m.minute as nat % 10)
        }),
    ensures
        t == partition_path_text(m),
{
    lemma_path_digits(m);
    let p = partition_path_text(m);
    let o: int = if m.year < 0 { 6 } else { 5 };
    assert forall|k: int| 0 <= k < p.len() implies t[k] == p[k] by {
        if k < 5 {
            assert(t.subrange(0, 5)[k] == p.subrange(0, 5)[k]);
        } else if o + 10 <= k < o + 16 {
            assert(t.subrange(o + 10, o + 16)[k - (o + 10)] == p.subrange(o + 10, o + 16)[k - (o + 10)]);
        } else if o + 18 <= k < o + 26 {
            assert(t.subrange(o + 18, o + 26)[k - (o + 18)] == p.subrange(o + 18, o + 26)[k - (o + 18)]);
        }
    }
    assert(t =~= p);
}

/// The separators of a partition path: whether the text has them, for a
/// year below zero when `neg`.
fn separators_at(s: &str, neg: bool) -> (r: bool)
    requires
        s@.len() == if neg { 34int } else { 33int },
    ensures
        ({
            let o: int = if neg { 6 } else { 5 };
            r == (s@.subrange(0, 5) == "date="@ && (neg ==> s@[5] == '-') && s@[o + 4] == '-' && s@[o
                + 7] == '-' && s@.subrange(o + 10, o + 16) == "/hour="@ && s@.subrange(o + 18, o + 26)
                == "/minute="@)
        }),
{
    proof {
        reveal_strlit("date=");
        reveal_strlit("/hour=");
        reveal_strlit("/minute=");
    }
    let o: usize = if neg { 6 } else { 5 };
    has_text_at(s, 0, "date=") && (!neg || s.get_char(5) == '-') && s.get_char(o + 4) == '-' && s.get_char(
        o + 7,
    ) == '-' && has_text_at(s, o + 10, "/hour=") && has_text_at(s, o + 18, "/minute=")
}

/// Reads a partition path back into its minute; refuses any text that no
/// minute's path spells.
#[verifier::spinoff_prover]
pub fn parse_partition_path(s: &str) -> (r: Option<MinuteStamp>)
    ensures
        match r {
            Some(m) => m.wf() && s@ == partition_path_text(m),
            None => forall|m: MinuteStamp| m.wf() ==> s@ != #[trigger] partition_path_text(m),
        },
{
    let n = s.unicode_len();
    if n != 33 && n != 34 {
        proof {
            assert forall|m: MinuteStamp| m.wf() implies s@ != #[trigger] partition_path_text(m) by {
                lemma_path_digits(m);
            }
        }
        return None;
    }
    let neg = n == 34;
    let o: usize = if neg { 6 } else { 5 };
    if !separators_at(s, neg) {
        proof {
            assert forall|m: MinuteStamp| m.wf() implies s@ != #[trigger] partition_path_text(m) by {
                lemma_path_digits(m);
            }
        }
        return None;
    }
    let yv = four_digits_at(s, o);
    let mv = two_digits_at(s, o + 5);
    let dv = two_digits_at(s, o + 8);
    let hv = two_digits_at(s, o + 16);
    let iv = two_digits_at(s, o + 26);
    match (yv, mv, dv, hv, iv) {
        (Some(y), Some(mo), Some(d), Some(h), Some(mi)) => {
            if mo < 1 || mo > 12 || d < 1 || d > 31 || h >= 24 || mi >= 60 || (neg && y == 0) {
                proof {
                    assert forall|m: MinuteStamp| m.wf() implies s@ != #[trigger] partition_path_text(m) by {
                        if s@ == partition_path_text(m) {
                            lemma_path_digits(m);
                            lemma_four_same(y as nat, year_magnitude(m.year));
                            lemma_two_same(mo as nat, m.month as nat);
                            lemma_two_same(d as nat, m.day as nat);
                            lemma_two_same(h as nat, m.hour as nat);
                            lemma_two_same(mi as nat, m.minute as nat);
                        }
                    }
                }
                return None;
            }
            let year: i32 = if neg { -(y as i32) } else { y as i32 };
            let m = MinuteStamp { year, month: mo as u8, day: d as u8, hour: h as u8, minute: mi as u8 };
            proof {
                assert(year_magnitude(m.year) == y as nat);
                lemma_path_from_pieces(s@, m);
            }
            Some(m)
        },
        _ => {
            proof {
                assert forall|m: MinuteStamp| m.wf() implies s@ != #[trigger] partition_path_text(m) by {
                    lemma_path_digits(m);
                }
            }
            None
        },
    }
}

/// Whether minute `a` comes no later than minute `b`.
pub open spec fn minute_le(a: MinuteStamp, b: MinuteStamp) -> bool {
    a.year < b.year || (a.year == b.year && (a.month < b.month || (a.month == b.month && (a.day < b.day
        || (a.day == b.day && (a.hour < b.hour || (a.hour == b.hour && a.minute <= b.minute)))))))
}

/// The first instant the calendar holds (the start of year -9999), in
/// nanoseconds since the Unix epoch.
pub const MIN_NANOS: i128 = -377_705_116_800_000_000_000;

/// The last instant the calendar holds (the end of year 9999), in
/// nanoseconds since the Unix epoch.
pub const MAX_NANOS: i128 = 253_402_300_799_999_999_999;

/// The first instant the calendar holds, in microseconds.
pub const MIN_MICROS: i64 = -377_705_116_800_000_000;

/// The last instant the calendar holds, in microseconds.
pub const MAX_MICROS: i64 = 253_402_300_799_999_999;

/// The UTC minute of an instant given in nanoseconds since the Unix epoch.
pub uninterp spec fn utc_minute_at(nanos: int) -> MinuteStamp;

/// Relies on time::OffsetDateTime::from_unix_timestamp_nanos and its
/// calendar accessors: the UTC minute of the instant, with fields in their
/// calendar ranges and a year within -9999 to 9999; an error (here `None`)
/// exactly when the instant's whole seconds fall outside the crate's range,
/// from the first second of -9999 to the last second of 9999.
#[verifier::external_body]
fn minute_at_nanos(nanos: i128) -> (r: Option<MinuteStamp>)
    ensures
        r is Some <==> MIN_NANOS <= nanos <= MAX_NANOS,
        r matches Some(m) ==> m == utc_minute_at(nanos as int) && m.wf(),
{
    match time::OffsetDateTime::from_unix_timestamp_nanos(nanos) {
        Ok(t) => Some(
            MinuteStamp {
                year: t.year(),
                month: u8::from(t.month()),
                day: t.day(),
                hour: t.hour(),
                minute: t.minute(),
            },
        ),
        Err(_) => None,
    }
}

/// A scan of the cold tier under `base_path` over the minutes from
/// `start` to `end`, both included.
#[derive(Debug)]
pub struct PartitionQuery {
    pub base_path: String,
    pub start: MinuteStamp,
    pub end: MinuteStamp,
}

/// The candidates of `c` that the scan `q` reads, in order.
pub open spec fn selected(q: PartitionQuery, c: Seq<String>) -> Seq<String>
    decreases c.len(),
{
    if c.len() == 0 {
        Seq::empty()
    } else if q.reaches_path(c.last()@) {
        selected(q, c.drop_last()).push(c.last())
    } else {
        selected(q, c.drop_last())
    }
}

impl PartitionQuery {
    pub fn new(base_path: String, start: MinuteStamp, end: MinuteStamp) -> (r: PartitionQuery)
        ensures
            r.base_path == base_path,
            r.start == start,
            r.end == end,
    {
        PartitionQuery { base_path, start, end }
    }

    /// The scan of the window from `start_micros` to `end_micros`
    /// (microseconds since the Unix epoch), both truncated to the minute;
    /// none exactly where either instant lies outside the calendar's range.
    pub fn for_window(base_path: String, start_micros: i64, end_micros: i64) -> (r: Option<PartitionQuery>)
        ensures
            r is Some <==> (MIN_MICROS <= start_micros <= MAX_MICROS && MIN_MICROS <= end_micros
                <= MAX_MICROS),
            r matches Some(q) ==> {
                &&& q.base_path == base_path
                &&& q.start == utc_minute_at(start_micros * 1000)
                &&& q.end == utc_minute_at(end_micros * 1000)
                &&& q.start.wf()
                &&& q.end.wf()
            },
    {
        let start = minute_at_nanos(start_micros as i128 * 1000);
        let end = minute_at_nanos(end_micros as i128 * 1000);
        match (start, end) {
            (Some(s), Some(e)) => Some(PartitionQuery { base_path, start: s, end: e }),
            _ => None,
        }
    }

    /// Whether the window holds minute `m`.
    pub open spec fn reaches(&self, m: MinuteStamp) -> bool {
        minute_le(self.start, m) && minute_le(m, self.end)
    }

    /// Whether `p` is the partition path of a minute the window holds.
    pub open spec fn reaches_path(&self, p: Seq<char>) -> bool {
        exists|m: MinuteStamp| m.wf() && p == partition_path_text(m) && self.reaches(m)
    }

    /// Whether the window holds minute `m`.
    pub fn covers(&self, m: MinuteStamp) -> (r: bool)
        ensures
            r == self.reaches(m),
    {
        le_minute(self.start, m) && le_minute(m, self.end)
    }

    /// Whether the partition at path `p` (relative to its table) is read:
    /// only where `p` spells a minute of the window.
    pub fn scans(&self, p: &str) -> (r: bool)
        ensures
            r == self.reaches_path(p@),
    {
        match parse_partition_path(p) {
            Some(m) => {
                let r = self.covers(m);
                proof {
                    if !r {
                        assert forall|m2: MinuteStamp|
                            m2.wf() && p@ == partition_path_text(m2) implies !self.reaches(m2) by {
                            law_partition_path_determinism(m, m2);
                        }
                    }
                }
                r
            },
            None => false,
        }
    }

    /// The candidate partitions the scan reads, in the order given; no
    /// other partition is opened.
    pub fn partitions_to_scan(&self, candidates: &Vec<String>) -> (r: Vec<String>)
        ensures
            r@ == selected(*self, candidates@),
    {
        let mut r: Vec<String> = Vec::new();
        let mut i: usize = 0;
        while i < candidates.len()
            invariant
                i <= candidates@.len(),
                r@ == selected(*self, candidates@.subrange(0, i as int)),
            decreases candidates@.len() - i,
        {
            assert(candidates@.subrange(0, i + 1).drop_last() =~= candidates@.subrange(0, i as int));
            if self.scans(candidates[i].as_str()) {
                r.push(candidates[i].clone());
            }
            i = i + 1;
        }
        assert(candidates@.subrange(0, candidates@.len() as int) =~= candidates@);
        r
    }
}

/// Whether minute `a` comes no later than minute `b`.
pub fn le_minute(a: MinuteStamp, b: MinuteStamp) -> (r: bool)
    ensures
        r == minute_le(a, b),
{
    if a.year != b.year {
        a.year < b.year
    } else if a.month != b.month {
        a.month < b.month
    } else if a.day != b.day {
        a.day < b.day
    } else if a.hour != b.hour {
        a.hour < b.hour
    } else {
        a.minute <= b.minute
    }
}

} // verus!
