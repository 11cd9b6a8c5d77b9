//! The text of directory listings.
use vstd::prelude::*;
use vstd::string::*;

use crate::command::ShellError;
use crate::history::texts;
use crate::text::one_line;

verus! {

/// What a directory entry is.
#[derive(Clone, Copy, Debug, PartialEq, Eq, Structural)]
pub enum EntryKind {
    Directory,
    File,
    Other,
}

/// What the long listing shows of one directory entry.
pub struct EntryInfo {
    pub name: String,
    pub kind: EntryKind,
    /// The Unix mode bits.
    pub mode: u32,
    /// The length in bytes.
    pub size: u64,
    /// Whole seconds from the Unix epoch to the last change; `None` for a
    /// time before the epoch.
    pub modified: Option<u64>,
}

/// The time `secs` seconds after the Unix epoch, in UTC, written
/// `YYYY-MM-DD HH:MM:SS`.
pub uninterp spec fn utc_stamp(secs: int) -> Seq<char>;

/// The last second that chrono can write: 262142-12-31 23:59:59 UTC, the
/// end of its last representable year.
pub const LATEST_STAMP: i64 = 8_210_266_876_799;

/// Relies on chrono's `DateTime::from_timestamp` and `DateTime::format`: the
/// UTC time `secs` seconds after the epoch, written `%Y-%m-%d %H:%M:%S`.
/// `from_timestamp` gives `None` only for a date outside chrono's years, so
/// every time from the epoch to the end of its last year is written; the
/// numeric items and the literals of that format hold no newline.
#[verifier::external_body]
fn utc_text(secs: i64) -> (r: Option<String>)
    ensures
        r is Some ==> r->Some_0@ == utc_stamp(secs as int),
        0 <= secs <= LATEST_STAMP ==> r is Some,
        r is Some ==> one_line(r->Some_0@),
{
    match chrono::DateTime::from_timestamp(secs, 0) {
        Some(t) => Some(t.format("%Y-%m-%d %H:%M:%S").to_string()),
        None => None,
    }
}

pub open spec fn digit_char(d: int) -> char {
    ('0' as int + d) as char
}

/// `n` in decimal, without leading zeros.
pub open spec fn decimal(n: nat) -> Seq<char>
    decreases n,
{
    if n < 10 {
        seq![digit_char(n as int)]
    } else {
        decimal(n / 10).push(digit_char((n % 10) as int))
    }
}

/// The permission bits of `mode` as four octal digits.
pub open spec fn octal4(mode: u32) -> Seq<char> {
    let m = (mode % 4096) as int;
    seq![digit_char(m / 512), digit_char((m / 64) % 8), digit_char((m / 8) % 8), digit_char(m % 8)]
}

pub open spec fn kind_char(k: EntryKind) -> char {
    match k {
        EntryKind::Directory => 'd',
        EntryKind::File => 'f',
        EntryKind::Other => '?',
    }
}

/// One row of the long listing, with `stamp` for the time of the last change.
pub open spec fn row_text(e: EntryInfo, stamp: Seq<char>) -> Seq<char> {
    seq![kind_char(e.kind), '\t'] + octal4(e.mode) + seq!['\t'] + decimal(e.size as nat) + seq![
        '\t',
    ] + stamp + seq!['\t'] + e.name@
}

pub open spec fn header() -> Seq<char> {
    seq![
        'T', 'y', 'p', 'e', '\t', 'M', 'o', 'd', 'e', '\t', 'S', 'i', 'z', 'e', '\t', 'M', 'o',
        'd', 'i', 'f', 'i', 'c', 'a', 't', 'i', 'o', 'n', ' ', 'T', 'i', 'm', 'e', '\t', 'N',
        'a', 'm', 'e',
    ]
}

/// The header, then one row per entry, each on a line of its own.
pub open spec fn long_text(es: Seq<EntryInfo>, stamps: Seq<Seq<char>>) -> Seq<char>
    decreases es.len(),
{
    if es.len() == 0 {
        header()
    } else {
        long_text(es.subrange(0, es.len() - 1), stamps) + seq!['\n'] + row_text(
            es.last(),
            stamps[es.len() - 1],
        )
    }
}

/// The names, separated by tabs.
pub open spec fn tab_joined(names: Seq<Seq<char>>) -> Seq<char>
    decreases names.len(),
{
    if names.len() == 0 {
        Seq::empty()
    } else if names.len() == 1 {
        names[0]
    } else {
        tab_joined(names.subrange(0, names.len() - 1)) + seq!['\t'] + names.last()
    }
}

/// The stamp that the long listing shows for each of `es`.
pub open spec fn stamps_of(es: Seq<EntryInfo>) -> Seq<Seq<char>> {
    es.map_values(
        |e: EntryInfo|
            match e.modified {
                Some(s) => utc_stamp(s as int),
                None => Seq::empty(),
            },
    )
}

/// The time of the last change of `e` is one that chrono can write.
pub open spec fn in_range(e: EntryInfo) -> bool {
    match e.modified {
        Some(s) => s <= LATEST_STAMP,
        None => false,
    }
}

/// The stamp that the long listing shows for `e`, where there is one.
pub open spec fn stamp_of(e: EntryInfo) -> Option<Seq<char>> {
    match e.modified {
        Some(s) => if s <= i64::MAX {
            Some(utc_stamp(s as int))
        } else {
            None
        },
        None => None,
    }
}

fn append_digit(r: &mut String, d: u64)
    requires
        d < 10,
    ensures
        final(r)@ == old(r)@.push(digit_char(d as int)),
{
    let ds = "0123456789";
    proof {
        reveal_strlit("0123456789");
    }
    let t = ds.substring_char(d as usize, d as usize + 1);
    r.append(t);
    assert(final(r)@ =~= old(r)@.push(digit_char(d as int)));
}

fn append_decimal(r: &mut String, n: u64)
    ensures
        final(r)@ == old(r)@ + decimal(n as nat),
    decreases n,
{
    if n >= 10 {
        append_decimal(r, n / 10);
    }
    append_digit(r, n % 10);
    assert(final(r)@ =~= old(r)@ + decimal(n as nat));
}

/// One row of the long listing, with `stamp` for the time of the last change.
pub fn entry_row(e: &EntryInfo, stamp: &str) -> (r: String)
    ensures
        r@ == row_text(*e, stamp@),
{
    proof {
        reveal_strlit("d\t");
        reveal_strlit("f\t");
        reveal_strlit("?\t");
        reveal_strlit("\t");
    }
    let mut r = String::new();
    match e.kind {
        EntryKind::Directory => r.append("d\t"),
        EntryKind::File => r.append("f\t"),
        EntryKind::Other => r.append("?\t"),
    }
    let m = (e.mode % 4096) as u64;
    append_digit(&mut r, m / 512);
    append_digit(&mut r, (m / 64) % 8);
    append_digit(&mut r, (m / 8) % 8);
    append_digit(&mut r, m % 8);
    r.append("\t");
    append_decimal(&mut r, e.size);
    r.append("\t");
    r.append(stamp);
    r.append("\t");
    r.append(e.name.as_str());
    assert(r@ =~= row_text(*e, stamp@));
    r
}

/// The long listing of `entries`, with `stamps[i]` for the time of the
/// last change of `entries[i]`.
pub fn long_listing(entries: &Vec<EntryInfo>, stamps: &Vec<String>) -> (r: String)
    requires
        stamps@.len() == entries@.len(),
    ensures
        r@ == long_text(entries@, texts(stamps@)),
{
    let hd = "Type\tMode\tSize\tModification Time\tName";
    proof {
        reveal_strlit("Type\tMode\tSize\tModification Time\tName");
        reveal_strlit("\n");
    }
    let mut r = String::from_str(hd);
    assert(r@ =~= header());
    let mut i: usize = 0;
    while i < entries.len()
        invariant
            stamps@.len() == entries@.len(),
            i <= entries@.len(),
            r@ == long_text(entries@.subrange(0, i as int), texts(stamps@)),
        decreases entries@.len() - i,
    {
        let ghost before = r@;
        proof {
            reveal_strlit("\n");
        }
        r.append("\n");
        let row = entry_row(&entries[i], stamps[i].as_str());
        r.append(row.as_str());
        let ghost es = entries@.subrange(0, i + 1);
        assert(es.subrange(0, i as int) =~= entries@.subrange(0, i as int));
        assert(es.last() == entries@[i as int]);
        assert(texts(stamps@)[i as int] == stamps@[i as int]@);
        assert(r@ =~= before + seq!['\n'] + row_text(es.last(), texts(stamps@)[i as int]));
        i += 1;
    }
    assert(entries@.subrange(0, entries@.len() as int) =~= entries@);
    r
}

/// The long listing of `entries`, or an error where the time of an entry
/// cannot be written.
pub fn list_directory_with_args(entries: &Vec<EntryInfo>) -> (r: Result<String, ShellError>)
    ensures
        entries@.len() == 0 ==> r is Ok && r->Ok_0@ == header(),
        (forall|i: int| 0 <= i < entries@.len() ==> in_range(#[trigger] entries@[i])) ==> r is Ok,
        (exists|i: int| 0 <= i < entries@.len() && (#[trigger] stamp_of(entries@[i])) is None)
            ==> r == Err::<String, ShellError>(ShellError::TimestampOutOfRange),
        r matches Err(e) ==> e == ShellError::TimestampOutOfRange,
        r matches Ok(s) ==> s@ == long_text(entries@, stamps_of(entries@)) && forall|i: int|
            0 <= i < entries@.len() ==> one_line(#[trigger] stamps_of(entries@)[i]),
{
    let mut stamps: Vec<String> = Vec::new();
    let mut i: usize = 0;
    while i < entries.len()
        invariant
            i <= entries@.len(),
            stamps@.len() == i,
            forall|j: int| 0 <= j < i ==> stamp_of(#[trigger] entries@[j]) == Some(texts(stamps@)[j]),
            forall|j: int| 0 <= j < i ==> texts(stamps@)[j] == #[trigger] stamps_of(entries@)[j],
            forall|j: int| 0 <= j < i ==> one_line(#[trigger] texts(stamps@)[j]),
        decreases entries@.len() - i,
    {
        let secs = match entries[i].modified {
            Some(s) => s,
            None => return Err(ShellError::TimestampOutOfRange),
        };
        if secs > i64::MAX as u64 {
            return Err(ShellError::TimestampOutOfRange);
        }
        let ghost before = stamps@;
        match utc_text(secs as i64) {
            Some(t) => stamps.push(t),
            None => return Err(ShellError::TimestampOutOfRange),
        }
        assert(texts(stamps@) =~= texts(before).push(stamps@[i as int]@));
        i += 1;
    }
    assert(texts(stamps@) =~= stamps_of(entries@));
    Ok(long_listing(entries, &stamps))
}

/// The names of the entries, separated by tabs.
pub fn list_directory_simple(names: &Vec<String>) -> (r: String)
    ensures
        r@ == tab_joined(texts(names@)),
{
    let mut r = String::new();
    let n = names.len();
    let mut i: usize = 0;
    while i < n
        invariant
            n == names@.len(),
            i <= n,
            r@ == tab_joined(texts(names@).subrange(0, i as int)),
        decreases n - i,
    {
        if i > 0 {
            proof { reveal_strlit("\t"); }
            r.append("\t");
        }
        r.append(names[i].as_str());
        proof {
            let s = texts(names@).subrange(0, i + 1);
            assert(s.subrange(0, i as int) =~= texts(names@).subrange(0, i as int));
            if i == 0 {
                assert(r@ =~= tab_joined(s));
            }
        }
        i += 1;
    }
    assert(texts(names@).subrange(0, n as int) =~= texts(names@));
    r
}

} // verus!
