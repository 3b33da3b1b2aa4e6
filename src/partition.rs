//! The cold tier's write path: where a flush puts its file.
use vstd::prelude::*;

use crate::text::{digit_char, decimal, padded, push_decimal, push_padded};

verus! {

/// A UTC time truncated to the minute, as calendar fields.
#[derive(Debug, Clone, Copy, PartialEq, Eq, Structural)]
pub struct MinuteStamp {
    pub year: i32,
    pub month: u8,
    pub day: u8,
    pub hour: u8,
    pub minute: u8,
}

impl MinuteStamp {
    /// The ranges the calendar fields take.
    pub open spec fn wf(&self) -> bool {
        &&& -9999 <= self.year <= 9999
        &&& 1 <= self.month <= 12
        &&& 1 <= self.day <= 31
        &&& self.hour < 24
        &&& self.minute < 60
    }
}

/// A year as a date shows it: a `-` for a year below zero, then four
/// digits of its magnitude.
pub open spec fn year_text(y: int) -> Seq<char> {
    if y < 0 {
        seq!['-'] + padded((-y) as nat, 4)
    } else {
        padded(y as nat, 4)
    }
}

/// `date=YYYY-MM-DD/hour=HH/minute=MM` for the minute `m`.
pub open spec fn partition_path_text(m: MinuteStamp) -> Seq<char> {
    "date="@ + year_text(m.year as int) + "-"@ + padded(m.month as nat, 2) + "-"@ + padded(
        m.day as nat,
        2,
    ) + "/hour="@ + padded(m.hour as nat, 2) + "/minute="@ + padded(m.minute as nat, 2)
}

proof fn lemma_two_digits(n: nat)
    requires
        n < 100,
    ensures
        padded(n, 2) == seq![digit_char(n / 10), digit_char(n % 10)],
{
    reveal_with_fuel(padded, 3);
    assert((n / 10) / 10 == 0 && (n / 10) % 10 == n / 10);
    assert(padded(n, 2) =~= seq![digit_char(n / 10), digit_char(n % 10)]);
}

proof fn lemma_four_digits(n: nat)
    requires
        n < 10000,
    ensures
        padded(n, 4) == seq![
            digit_char(n / 1000),
            digit_char((n / 100) % 10),
            digit_char((n / 10) % 10),
            digit_char(n % 10),
        ],
{
    reveal_with_fuel(padded, 5);
    assert(n / 10 / 10 == n / 100);
    assert(n / 100 / 10 == n / 1000);
    assert((n / 1000) % 10 == n / 1000);
    assert(padded(n, 4) =~= seq![
        digit_char(n / 1000),
        digit_char((n / 100) % 10),
        digit_char((n / 10) % 10),
        digit_char(n % 10),
    ]);
}

pub(crate) proof fn lemma_digit_injective(a: nat, b: nat)
    requires
        a < 10,
        b < 10,
        digit_char(a) == digit_char(b),
    ensures
        a == b,
{
}

/// Where the digits of each field stand in a partition path.
pub(crate) proof fn lemma_path_digits(m: MinuteStamp)
    requires
        m.wf(),
    ensures
        ({
            let t = partition_path_text(m);
            let o: int = if m.year < 0 { 6 } else { 5 };
            let y: nat = if m.year < 0 { (-m.year) as nat } else { m.year as nat };
            &&& t.len() == o + 28
            &&& t[o] == digit_char(y / 1000)
            &&& t[o + 1] == digit_char((y / 100) % 10)
            &&& t[o + 2] == digit_char((y / 10) % 10)
            &&& t[o + 3] == digit_char(y % 10)
            &&& t[o + 5] == digit_char(m.month as nat / 10)
            &&& t[o + 6] == digit_char(m.month as nat % 10)
            &&& t[o + 8] == digit_char(m.day as nat / 10)
            &&& t[o + 9] == digit_char(m.day as nat % 10)
            &&& t[o + 16] == digit_char(m.hour as nat / 10)
            &&& t[o + 17] == digit_char(m.hour as nat % 10)
            &&& t[o + 26] == digit_char(m.minute as nat / 10)
            &&& t[o + 27] == digit_char(m.minute as nat % 10)
            &&& t.subrange(0, 5) == "date="@
            &&& (m.year < 0 ==> t[5] == '-')
            &&& t[o + 4] == '-'
            &&& t[o + 7] == '-'
            &&& t.subrange(o + 10, o + 16) == "/hour="@
            &&& t.subrange(o + 18, o + 26) == "/minute="@
        }),
{
    reveal_strlit("date=");
    reveal_strlit("-");
    reveal_strlit("/hour=");
    reveal_strlit("/minute=");
    let y: nat = if m.year < 0 { (-m.year) as nat } else { m.year as nat };
    lemma_four_digits(y);
    lemma_two_digits(m.month as nat);
    lemma_two_digits(m.day as nat);
    lemma_two_digits(m.hour as nat);
    lemma_two_digits(m.minute as nat);
    let head = "date="@ + year_text(m.year as int);
    let tail = "-"@ + padded(m.month as nat, 2) + "-"@ + padded(m.day as nat, 2) + "/hour="@ + padded(
        m.hour as nat,
        2,
    ) + "/minute="@ + padded(m.minute as nat, 2);
    let d = seq![
        '-',
        digit_char(m.month as nat / 10),
        digit_char(m.month as nat % 10),
        '-',
        digit_char(m.day as nat / 10),
        digit_char(m.day as nat % 10),
        '/',
        'h',
        'o',
        'u',
        'r',
        '=',
        digit_char(m.hour as nat / 10),
        digit_char(m.hour as nat % 10),
        '/',
        'm',
        'i',
        'n',
        'u',
        't',
        'e',
        '=',
        digit_char(m.minute as nat / 10),
        digit_char(m.minute as nat % 10),
    ];
    assert(tail =~= d);
    assert(partition_path_text(m) =~= head + tail);
    let yd = seq![
        digit_char(y / 1000),
        digit_char((y / 100) % 10),
        digit_char((y / 10) % 10),
        digit_char(y % 10),
    ];
    if m.year < 0 {
        assert(head =~= "date="@ + seq!['-'] + yd);
    } else {
        assert(head =~= "date="@ + yd);
    }
    let t = partition_path_text(m);
    let o: int = if m.year < 0 { 6 } else { 5 };
    assert(t.subrange(0, 5) =~= "date="@);
    assert(t.subrange(o + 10, o + 16) =~= "/hour="@);
    assert(t.subrange(o + 18, o + 26) =~= "/minute="@);
}

/// A four-digit number is the sum of its digits' places.
pub(crate) proof fn lemma_four_digit_value(y: nat)
    requires
        y < 10000,
    ensures
        y == 1000 * (y / 1000) + 100 * ((y / 100) % 10) + 10 * ((y / 10) % 10) + y % 10,
{
    assert(y / 10 == 10 * (y / 100) + (y / 10) % 10);
    assert(y / 100 == 10 * (y / 1000) + (y / 100) % 10);
}

/// A two-digit number is the sum of its digits' places.
pub(crate) proof fn lemma_two_digit_value(n: nat)
    requires
        n < 100,
    ensures
        n == 10 * (n / 10) + n % 10,
{
}

/// Two minutes give the same partition path exactly when they are the
/// same minute: writers made within one minute share their path, and
/// writers of different minutes never do.
#[verifier::spinoff_prover]
pub proof fn law_partition_path_determinism(a: MinuteStamp, b: MinuteStamp)
    requires
        a.wf(),
        b.wf(),
    ensures
        partition_path_text(a) == partition_path_text(b) <==> a == b,
{
    if partition_path_text(a) == partition_path_text(b) {
        lemma_path_digits(a);
        lemma_path_digits(b);
        let ya: nat = if a.year < 0 { (-a.year) as nat } else { a.year as nat };
        let yb: nat = if b.year < 0 { (-b.year) as nat } else { b.year as nat };
        lemma_digit_injective(ya / 1000, yb / 1000);
        lemma_digit_injective((ya / 100) % 10, (yb / 100) % 10);
        lemma_digit_injective((ya / 10) % 10, (yb / 10) % 10);
        lemma_digit_injective(ya % 10, yb % 10);
        lemma_digit_injective(a.month as nat / 10, b.month as nat / 10);
        lemma_digit_injective(a.month as nat % 10, b.month as nat % 10);
        lemma_digit_injective(a.day as nat / 10, b.day as nat / 10);
        lemma_digit_injective(a.day as nat % 10, b.day as nat % 10);
        lemma_digit_injective(a.hour as nat / 10, b.hour as nat / 10);
        lemma_digit_injective(a.hour as nat % 10, b.hour as nat % 10);
        lemma_digit_injective(a.minute as nat / 10, b.minute as nat / 10);
        lemma_digit_injective(a.minute as nat % 10, b.minute as nat % 10);
        lemma_four_digit_value(ya);
        lemma_four_digit_value(yb);
        lemma_two_digit_value(a.month as nat);
        lemma_two_digit_value(b.month as nat);
        lemma_two_digit_value(a.day as nat);
        lemma_two_digit_value(b.day as nat);
        lemma_two_digit_value(a.hour as nat);
        lemma_two_digit_value(b.hour as nat);
        lemma_two_digit_value(a.minute as nat);
        lemma_two_digit_value(b.minute as nat);
        assert(ya == yb);
        assert(a.year == b.year);
    }
}

/// `rel` placed under the directory `dir`, as a path join does it: `rel`
/// alone under an empty directory, and one `/` between the two otherwise.
pub open spec fn joined(dir: Seq<char>, rel: Seq<char>) -> Seq<char> {
    if dir.len() == 0 {
        rel
    } else if dir.last() == '/' {
        dir + rel
    } else {
        dir + "/"@ + rel
    }
}

/// The file of one flush: its directory, and its name within it.
#[derive(Debug)]
pub struct PartitionFile {
    pub dir: String,
    pub file_name: String,
}

/// Writes flushes of one minute under that minute's partition path.
#[derive(Debug)]
pub struct PartitionWriter {
    pub partition_path: String,
}

/// Relies on time::OffsetDateTime::now_utc and its calendar accessors:
/// a month of 1 to 12, a day of 1 to 31, an hour below 24, a minute below
/// 60, and a year within -9999 to 9999 (the crate's range without its
/// large-dates feature).
#[verifier::external_body]
fn utc_minute_now() -> (r: MinuteStamp)
    ensures
        r.wf(),
{
    let now = time::OffsetDateTime::now_utc();
    MinuteStamp {
        year: now.year(),
        month: u8::from(now.month()),
        day: now.day(),
        hour: now.hour(),
        minute: now.minute(),
    }
}

/// Relies on rand's thread-local generator for a uniformly drawn `u32`;
/// nothing is known of the value.
#[verifier::external_body]
fn random_file_id() -> (r: u32) {
    rand::Rng::gen::<u32>(&mut rand::rngs::ThreadRng::default())
}

impl PartitionWriter {
    /// The writer for minute `m`.
    pub fn at_minute(m: MinuteStamp) -> (r: PartitionWriter)
        requires
            m.wf(),
        ensures
            r.partition_path@ == partition_path_text(m),
    {
        let mut p = String::new();
        proof {
            reveal_strlit("date=");
            reveal_strlit("-");
            reveal_strlit("/hour=");
            reveal_strlit("/minute=");
        }
        p.append("date=");
        if m.year < 0 {
            p.append("-");
            push_padded(&mut p, (-(m.year as i64)) as u64, 4);
        } else {
            push_padded(&mut p, m.year as u64, 4);
        }
        p.append("-");
        push_padded(&mut p, m.month as u64, 2);
        p.append("-");
        push_padded(&mut p, m.day as u64, 2);
        p.append("/hour=");
        push_padded(&mut p, m.hour as u64, 2);
        p.append("/minute=");
        push_padded(&mut p, m.minute as u64, 2);
        proof {
            assert(p@ =~= partition_path_text(m));
        }
        PartitionWriter { partition_path: p }
    }

    /// The writer for the current UTC minute.
    pub fn with_minute() -> (r: PartitionWriter)
        ensures
            exists|m: MinuteStamp| m.wf() && r.partition_path@ == partition_path_text(m),
    {
        let m = utc_minute_now();
        PartitionWriter::at_minute(m)
    }

    /// The file a flush of `batch_count` batches into `table_name` writes,
    /// named by `file_id`: none when there is nothing to write.
    pub fn file_for(&self, table_name: &str, batch_count: usize, file_id: u32) -> (r: Option<PartitionFile>)
        ensures
            batch_count == 0 <==> r is None,
            r matches Some(f) ==> {
                &&& f.dir@ == joined(table_name@, self.partition_path@)
                &&& f.file_name@ == decimal(file_id as nat) + ".parquet"@
            },
    {
        if batch_count == 0 {
            return None;
        }
        proof {
            reveal_strlit("/");
            reveal_strlit(".parquet");
        }
        let len = table_name.unicode_len();
        let mut dir = String::from_str(table_name);
        if len > 0 && table_name.get_char(len - 1) != '/' {
            dir.append("/");
        }
        dir.append(self.partition_path.as_str());
        assert(dir@ =~= joined(table_name@, self.partition_path@));
        let mut file_name = String::new();
        push_decimal(&mut file_name, file_id as u64);
        file_name.append(".parquet");
        assert(file_name@ =~= decimal(file_id as nat) + ".parquet"@);
        Some(PartitionFile { dir, file_name })
    }

    /// The file the next flush of `batch_count` batches into `table_name`
    /// writes, under a randomly drawn name: none when there is nothing to
    /// write, so that an empty flush touches nothing.
    pub fn next_file(&self, table_name: &str, batch_count: usize) -> (r: Option<PartitionFile>)
        ensures
            batch_count == 0 <==> r is None,
            r matches Some(f) ==> {
                &&& f.dir@ == joined(table_name@, self.partition_path@)
                &&& exists|id: u32| f.file_name@ == decimal(id as nat) + ".parquet"@
            },
    {
        if batch_count == 0 {
            return None;
        }
        let id = random_file_id();
        self.file_for(table_name, batch_count, id)
    }
}

} // verus!
