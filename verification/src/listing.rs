//! The listing service: from a snapshot of the storage folder to the records
//! that a client is shown, ordered by name.

use vstd::prelude::*;
use vstd::std_specs::iter::IteratorSpec;
use crate::model::{Directory, Request, lemma_uploads_fill_folder, stored_name_of, succeeds_in_turn, upload_all};

verus! {

/// A point in time: seconds since the start of 1970 in UTC, and the
/// nanoseconds into that second.
#[derive(Clone, Copy, Debug, PartialEq, Eq, Structural)]
pub struct Timestamp {
    pub secs: i64,
    pub nanos: u32,
}

/// How many nanoseconds after the start of 1970 the time `t` lies; negative
/// for a time before it.
pub open spec fn nanos_since_epoch(t: Timestamp) -> int {
    t.secs * 1_000_000_000 + t.nanos
}

/// How many nanoseconds after the start of 1970 a time lies that is `secs`
/// seconds and `nanos` nanoseconds away from it, after it or before it.
pub open spec fn offset_nanos(after: bool, secs: u64, nanos: u32) -> int {
    if after {
        secs * 1_000_000_000 + nanos
    } else {
        -(secs * 1_000_000_000 + nanos)
    }
}

impl Timestamp {
    /// The time that lies `secs` seconds and `nanos` nanoseconds after the
    /// start of 1970, or before it, as a clock tells the distance. There is
    /// none where `nanos` is a whole second or more, and none where the
    /// seconds do not fit.
    pub fn from_epoch_offset(after: bool, secs: u64, nanos: u32) -> (time: Option<Timestamp>)
        ensures
            match time {
                Some(t) => {
                    &&& nanos < 1_000_000_000
                    &&& t.nanos < 1_000_000_000
                    &&& nanos_since_epoch(t) == offset_nanos(after, secs, nanos)
                },
                None => {
                    ||| nanos >= 1_000_000_000
                    ||| offset_nanos(after, secs, nanos) < i64::MIN * 1_000_000_000
                    ||| offset_nanos(after, secs, nanos) >= (i64::MAX + 1) * 1_000_000_000
                },
            },
    {
        if nanos >= 1_000_000_000 {
            return None;
        }
        if after {
            if secs > i64::MAX as u64 {
                None
            } else {
                Some(Timestamp { secs: secs as i64, nanos })
            }
        } else if nanos == 0 {
            if secs > i64::MAX as u64 + 1 {
                None
            } else if secs == i64::MAX as u64 + 1 {
                Some(Timestamp { secs: i64::MIN, nanos: 0 })
            } else {
                Some(Timestamp { secs: -(secs as i64), nanos: 0 })
            }
        } else if secs > i64::MAX as u64 {
            None
        } else {
            Some(Timestamp { secs: -(secs as i64) - 1, nanos: 1_000_000_000 - nanos })
        }
    }
}

/// What a stat of one entry told.
#[derive(Clone, Copy, Debug, PartialEq, Eq, Structural)]
pub struct EntryMeta {
    /// Whether the entry is a regular file.
    pub is_file: bool,
    /// Its size in bytes.
    pub size: u64,
    /// When it was created, where the file system records that.
    pub created: Option<Timestamp>,
    /// When it was last modified, where the file system records that.
    pub modified: Option<Timestamp>,
}

/// One entry of the storage folder as it was read: its name, and its
/// metadata unless the entry was gone by the time it was looked at.
#[derive(Debug)]
pub struct DirEntryInfo {
    pub name: String,
    pub meta: Option<EntryMeta>,
}

/// One entry, as the contracts see it.
pub struct EntryView {
    pub name: Seq<char>,
    pub meta: Option<EntryMeta>,
}

impl View for DirEntryInfo {
    type V = EntryView;

    open spec fn view(&self) -> EntryView {
        EntryView { name: self.name@, meta: self.meta }
    }
}

/// One record of a listing.
#[derive(Debug)]
pub struct FileListSucessfullyInfo {
    /// The stored name.
    pub name: String,
    /// The size in bytes.
    pub size: u64,
    /// When the file was created, in ISO 8601 with the offset from UTC;
    /// empty where that is not known.
    pub created_at: String,
    /// When the file was last modified, in the same form.
    pub modified_at: String,
}

/// One record, as the contracts see it.
pub struct RecordView {
    pub name: Seq<char>,
    pub size: u64,
    pub created_at: Seq<char>,
    pub modified_at: Seq<char>,
}

impl View for FileListSucessfullyInfo {
    type V = RecordView;

    open spec fn view(&self) -> RecordView {
        RecordView {
            name: self.name@,
            size: self.size,
            created_at: self.created_at@,
            modified_at: self.modified_at@,
        }
    }
}

/// The records of `s`, each by its view.
pub open spec fn record_views(s: Seq<FileListSucessfullyInfo>) -> Seq<RecordView> {
    s.map_values(|r: FileListSucessfullyInfo| r@)
}

/// The entries of `s`, each by its view.
pub open spec fn entry_views(s: Seq<DirEntryInfo>) -> Seq<EntryView> {
    s.map_values(|e: DirEntryInfo| e@)
}

/// What chrono writes for the UTC time `secs` seconds and `nanos`
/// nanoseconds after the start of 1970, in its format `%+`; `None` where
/// chrono cannot represent that time.
pub uninterp spec fn rfc3339_utc(secs: int, nanos: int) -> Option<Seq<char>>;

/// Formats a time with chrono: `DateTime::<Utc>::from_timestamp`, then
/// `format("%+")`. Trusted: the text is whatever chrono writes for these two
/// numbers, and there is none exactly where `from_timestamp` gives none.
#[verifier::external_body]
fn format_timestamp(secs: i64, nanos: u32) -> (text: Option<String>)
    ensures
        match text {
            Some(t) => rfc3339_utc(secs as int, nanos as int) == Some(t@),
            None => rfc3339_utc(secs as int, nanos as int) is None,
        },
{
    match chrono::DateTime::<chrono::Utc>::from_timestamp(secs, nanos) {
        Some(time) => Some(time.format("%+").to_string()),
        None => None,
    }
}

/// Whether `c` is one of the digits `0` to `9`.
pub open spec fn is_digit(c: char) -> bool {
    '0' <= c && c <= '9'
}

/// Where the run of digits that begins at index `i` of `s` ends.
pub open spec fn digits_end(s: Seq<char>, i: int) -> int
    decreases s.len() - i,
{
    if 0 <= i < s.len() && is_digit(s[i]) {
        digits_end(s, i + 1)
    } else {
        i
    }
}

/// Whether `s` has the character `c` at index `i`.
pub open spec fn has_char_at(s: Seq<char>, i: int, c: char) -> bool {
    0 <= i < s.len() && s[i] == c
}

/// Whether `s` has two digits at index `i`.
pub open spec fn has_two_digits_at(s: Seq<char>, i: int) -> bool {
    0 <= i && i + 1 < s.len() && is_digit(s[i]) && is_digit(s[i + 1])
}

/// Where the year of `s` begins: behind its sign, if it has one.
pub open spec fn year_start(s: Seq<char>) -> int {
    if has_char_at(s, 0, '+') || has_char_at(s, 0, '-') {
        1
    } else {
        0
    }
}

/// Where the offset of `s` begins, if `s` is a date and time whose year
/// ends at index `y`: behind the seconds and their fraction.
pub open spec fn offset_start(s: Seq<char>, y: int) -> int {
    if has_char_at(s, y + 15, '.') {
        digits_end(s, y + 16)
    } else {
        y + 15
    }
}

/// Whether `s` is written as ISO 8601 writes a date and time of day with
/// the offset of UTC: a year of four digits or more, with or without sign,
/// `-`, month, `-`, day, `T`, hours, `:`, minutes, `:`, seconds, a fraction
/// of any length or none, and `+00:00`.
pub open spec fn is_utc_date_time(s: Seq<char>) -> bool {
    let y = digits_end(s, year_start(s));
    let z = offset_start(s, y);
    &&& y - year_start(s) >= 4
    &&& has_char_at(s, y, '-')
    &&& has_two_digits_at(s, y + 1)
    &&& has_char_at(s, y + 3, '-')
    &&& has_two_digits_at(s, y + 4)
    &&& has_char_at(s, y + 6, 'T')
    &&& has_two_digits_at(s, y + 7)
    &&& has_char_at(s, y + 9, ':')
    &&& has_two_digits_at(s, y + 10)
    &&& has_char_at(s, y + 12, ':')
    &&& has_two_digits_at(s, y + 13)
    &&& has_char_at(s, y + 15, '.') ==> z > y + 16
    &&& s.len() == z + 6
    &&& s[z] == '+'
    &&& s[z + 1] == '0'
    &&& s[z + 2] == '0'
    &&& s[z + 3] == ':'
    &&& s[z + 4] == '0'
    &&& s[z + 5] == '0'
}

/// The start of 1970 in UTC, which stands for a time that is not known.
pub open spec fn epoch_text() -> Seq<char> {
    "1970-01-01T00:00:00+00:00"@
}

/// Whether the formatter made a date and time.
pub open spec fn can_be_shown(formatted: Option<Seq<char>>) -> bool {
    formatted matches Some(text) && is_utc_date_time(text)
}

/// The text that a listing shows for a time, given what the formatter made
/// of that time and of the other time of the same file: the first of the
/// two that is a date and time, and the start of 1970 where neither is.
pub open spec fn shown_time(own: Option<Seq<char>>, other: Option<Seq<char>>) -> Seq<char> {
    if can_be_shown(own) {
        own->0
    } else if can_be_shown(other) {
        other->0
    } else {
        epoch_text()
    }
}

/// What the formatter makes of the time `t`: nothing where the time is not
/// known or chrono cannot represent it.
pub open spec fn formatted(t: Option<Timestamp>) -> Option<Seq<char>> {
    match t {
        Some(t) => rfc3339_utc(t.secs as int, t.nanos as int),
        None => None,
    }
}

/// The record that a listing shows for an entry: none for an entry whose
/// metadata could not be read and none for what is not a regular file. A
/// time that cannot be shown is replaced by the other time of the file.
pub open spec fn record_of(entry: EntryView) -> Option<RecordView> {
    match entry.meta {
        Some(meta) if meta.is_file => Some(
            RecordView {
                name: entry.name,
                size: meta.size,
                created_at: shown_time(formatted(meta.created), formatted(meta.modified)),
                modified_at: shown_time(formatted(meta.modified), formatted(meta.created)),
            },
        ),
        _ => None,
    }
}

/// Whether both times of `record` are written as dates and times with the
/// offset of UTC.
pub open spec fn has_date_times(record: RecordView) -> bool {
    is_utc_date_time(record.created_at) && is_utc_date_time(record.modified_at)
}

/// The start of 1970 is written as a date and time.
pub proof fn lemma_epoch_is_date_time()
    ensures
        is_utc_date_time(epoch_text()),
{
    let s = epoch_text();
    reveal_strlit("1970-01-01T00:00:00+00:00");
    assert(s.len() == 25);
    assert(year_start(s) == 0);
    assert(digits_end(s, 4) == 4);
    assert(digits_end(s, 3) == 4);
    assert(digits_end(s, 2) == 4);
    assert(digits_end(s, 1) == 4);
    assert(digits_end(s, 0) == 4);
    assert(offset_start(s, 4) == 19);
}

/// Whatever the formatter made of the two times of a file, what the
/// listing shows is a date and time.
pub proof fn lemma_shown_time_is_date_time(own: Option<Seq<char>>, other: Option<Seq<char>>)
    ensures
        is_utc_date_time(shown_time(own, other)),
{
    lemma_epoch_is_date_time();
}

/// The records of the entries that have one, in the order of the entries.
pub open spec fn records_of(entries: Seq<EntryView>) -> Seq<RecordView>
    decreases entries.len(),
{
    if entries.len() == 0 {
        Seq::empty()
    } else {
        match record_of(entries.last()) {
            Some(record) => records_of(entries.drop_last()).push(record),
            None => records_of(entries.drop_last()),
        }
    }
}

/// Whether the name `a` comes no later than `b`: character by character,
/// a prefix before what it is a prefix of.
pub open spec fn name_le(a: Seq<char>, b: Seq<char>) -> bool
    decreases a.len(),
{
    if a.len() == 0 {
        true
    } else if b.len() == 0 {
        false
    } else if a.first() != b.first() {
        a.first() < b.first()
    } else {
        name_le(a.drop_first(), b.drop_first())
    }
}

/// Whether the records stand in the order of their names.
pub open spec fn sorted_by_name(records: Seq<RecordView>) -> bool {
    forall|i: int, j: int|
        0 <= i < j < records.len() ==> name_le(
            (#[trigger] records[i]).name,
            (#[trigger] records[j]).name,
        )
}

/// Of two names, one comes no later than the other.
pub proof fn lemma_name_le_total(a: Seq<char>, b: Seq<char>)
    ensures
        name_le(a, b) || name_le(b, a),
    decreases a.len(),
{
    if a.len() > 0 && b.len() > 0 && a.first() == b.first() {
        lemma_name_le_total(a.drop_first(), b.drop_first());
    }
}

/// The order of names is transitive.
pub proof fn lemma_name_le_transitive(a: Seq<char>, b: Seq<char>, c: Seq<char>)
    requires
        name_le(a, b),
        name_le(b, c),
    ensures
        name_le(a, c),
    decreases a.len(),
{
    if a.len() > 0 && b.len() > 0 && c.len() > 0 && a.first() == b.first() && b.first()
        == c.first() {
        lemma_name_le_transitive(a.drop_first(), b.drop_first(), c.drop_first());
    }
}

/// Two names that each come no later than the other are the same name.
pub proof fn lemma_name_le_antisymmetric(a: Seq<char>, b: Seq<char>)
    requires
        name_le(a, b),
        name_le(b, a),
    ensures
        a == b,
    decreases a.len(),
{
    if a.len() > 0 && b.len() > 0 {
        lemma_name_le_antisymmetric(a.drop_first(), b.drop_first());
        assert(a =~= seq![a.first()] + a.drop_first());
        assert(b =~= seq![b.first()] + b.drop_first());
    } else {
        assert(a =~= b);
    }
}

/// Whether the name `a` comes no later than `b`.
pub fn name_comes_first(a: &str, b: &str) -> (r: bool)
    ensures
        r == name_le(a@, b@),
{
    let mut xs = a.chars();
    let mut ys = b.chars();
    loop
        invariant
            xs.obeys_prophetic_iter_laws(),
            ys.obeys_prophetic_iter_laws(),
            xs.decrease() is Some,
            name_le(a@, b@) == name_le(xs.remaining(), ys.remaining()),
        decreases xs.decrease()->0,
    {
        match xs.next() {
            None => {
                return true;
            },
            Some(x) => match ys.next() {
                None => {
                    return false;
                },
                Some(y) => {
                    if x != y {
                        return x < y;
                    }
                },
            },
        }
    }
}

/// Whether `p` is where a record named `name` goes into the ordered
/// `records`: behind every record that comes no later, before the first
/// that comes later.
pub open spec fn is_insert_position(records: Seq<RecordView>, name: Seq<char>, p: int) -> bool {
    &&& 0 <= p <= records.len()
    &&& forall|i: int| 0 <= i < p ==> name_le((#[trigger] records[i]).name, name)
    &&& p < records.len() ==> !name_le(records[p].name, name)
}

/// `records` with `record` put in at its place by name.
pub open spec fn insert_by_name(records: Seq<RecordView>, record: RecordView) -> Seq<RecordView> {
    records.insert(choose|p: int| is_insert_position(records, record.name, p), record)
}

/// The records put in order of their names, one after the other; records
/// of one name keep the order in which they came.
pub open spec fn in_name_order(records: Seq<RecordView>) -> Seq<RecordView>
    decreases records.len(),
{
    if records.len() == 0 {
        Seq::empty()
    } else {
        insert_by_name(in_name_order(records.drop_last()), records.last())
    }
}

/// The listing of a snapshot: the records of its entries in the order of
/// their names.
pub open spec fn listing_of(entries: Seq<EntryView>) -> Seq<RecordView> {
    in_name_order(records_of(entries))
}

/// A record has exactly one place in an ordered sequence.
pub proof fn lemma_insert_position_unique(
    records: Seq<RecordView>,
    name: Seq<char>,
    p: int,
    q: int,
)
    requires
        is_insert_position(records, name, p),
        is_insert_position(records, name, q),
    ensures
        p == q,
{
    if p < q {
        assert(name_le(records[p].name, name));
    }
    if q < p {
        assert(name_le(records[q].name, name));
    }
}

/// Putting a record in at its place keeps the order and adds just that
/// record.
pub proof fn lemma_insert_keeps_order(records: Seq<RecordView>, record: RecordView, p: int)
    requires
        sorted_by_name(records),
        is_insert_position(records, record.name, p),
    ensures
        insert_by_name(records, record) == records.insert(p, record),
        sorted_by_name(records.insert(p, record)),
        records.insert(p, record).to_multiset() == records.to_multiset().insert(record),
{
    let q = choose|q: int| is_insert_position(records, record.name, q);
    lemma_insert_position_unique(records, record.name, p, q);
    let after = records.insert(p, record);
    assert forall|i: int, j: int| 0 <= i < j < after.len() implies name_le(
        (#[trigger] after[i]).name,
        (#[trigger] after[j]).name,
    ) by {
        if j < p {
            assert(after[i] == records[i] && after[j] == records[j]);
        } else if j == p {
            assert(after[i] == records[i]);
        } else if i < p {
            assert(after[i] == records[i] && after[j] == records[j - 1]);
        } else if i == p {
            assert(after[j] == records[j - 1]);
            lemma_name_le_total(records[p].name, record.name);
            if j - 1 > p {
                assert(name_le(records[p].name, records[j - 1].name));
                lemma_name_le_transitive(record.name, records[p].name, records[j - 1].name);
            }
        } else {
            assert(after[i] == records[i - 1] && after[j] == records[j - 1]);
        }
    }
    assert(after.to_multiset() =~= records.to_multiset().insert(record)) by {
        broadcast use vstd::seq_lib::group_to_multiset_ensures;

        assert(after.remove(p) =~= records);
        assert(after[p] == record);
        assert(after.contains(record));
        assert(after.remove(p).to_multiset() =~= after.to_multiset().remove(after[p]));
    }
}

/// Every ordered sequence has a place for a record of any name.
pub proof fn lemma_insert_position_exists(records: Seq<RecordView>, name: Seq<char>) -> (p: int)
    ensures
        is_insert_position(records, name, p),
    decreases records.len(),
{
    if records.len() == 0 {
        0
    } else {
        let front = records.drop_last();
        let p = lemma_insert_position_exists(front, name);
        if p < front.len() {
            assert(records[p] == front[p]);
            assert forall|i: int| 0 <= i < p implies name_le((#[trigger] records[i]).name, name) by {
                assert(records[i] == front[i]);
            }
            p
        } else {
            assert forall|i: int| 0 <= i < p implies name_le((#[trigger] records[i]).name, name) by {
                assert(records[i] == front[i]);
            }
            if name_le(records.last().name, name) {
                p + 1
            } else {
                p
            }
        }
    }
}

/// Putting records in name order gives an ordered sequence that holds the
/// same records, each as often as before.
pub proof fn lemma_in_name_order(records: Seq<RecordView>)
    ensures
        sorted_by_name(in_name_order(records)),
        in_name_order(records).to_multiset() == records.to_multiset(),
        in_name_order(records).len() == records.len(),
    decreases records.len(),
{
    broadcast use vstd::seq_lib::group_to_multiset_ensures;

    if records.len() == 0 {
        assert(records =~= Seq::empty());
    } else {
        let front = records.drop_last();
        lemma_in_name_order(front);
        let ordered = in_name_order(front);
        let p = lemma_insert_position_exists(ordered, records.last().name);
        lemma_insert_keeps_order(ordered, records.last(), p);
        assert(records =~= front.push(records.last()));
        assert(in_name_order(records).to_multiset() =~= records.to_multiset());
        assert(in_name_order(records).len() == ordered.len() + 1);
    }
}

/// Every record of a snapshot shows its two times as dates and times.
pub proof fn lemma_records_have_date_times(entries: Seq<EntryView>)
    ensures
        forall|i: int|
            0 <= i < records_of(entries).len() ==> has_date_times(#[trigger] records_of(entries)[i]),
    decreases entries.len(),
{
    if entries.len() > 0 {
        let front = entries.drop_last();
        lemma_records_have_date_times(front);
        if let Some(meta) = entries.last().meta {
            lemma_shown_time_is_date_time(formatted(meta.created), formatted(meta.modified));
            lemma_shown_time_is_date_time(formatted(meta.modified), formatted(meta.created));
        }
        assert forall|i: int| 0 <= i < records_of(entries).len() implies has_date_times(
            #[trigger] records_of(entries)[i],
        ) by {
            if i < records_of(front).len() {
                assert(records_of(entries)[i] == records_of(front)[i]);
            }
        }
    }
}

/// Every record of a listing shows its two times as dates and times with
/// the offset of UTC, whatever the file system told of the file.
pub proof fn lemma_listing_has_date_times(entries: Seq<EntryView>)
    ensures
        forall|k: int|
            0 <= k < listing_of(entries).len() ==> has_date_times(#[trigger] listing_of(entries)[k]),
{
    broadcast use vstd::seq_lib::group_to_multiset_ensures;

    let records = records_of(entries);
    let listing = listing_of(entries);
    lemma_records_have_date_times(entries);
    lemma_in_name_order(records);
    assert forall|k: int| 0 <= k < listing.len() implies has_date_times(#[trigger] listing[k]) by {
        let record = listing[k];
        assert(listing.contains(record));
        assert(records.to_multiset().count(record) > 0);
        assert(records.contains(record));
        let i = choose|i: int| 0 <= i < records.len() && records[i] == record;
        assert(has_date_times(records[i]));
    }
}

/// The names of the entries, in their order.
pub open spec fn entry_names(entries: Seq<EntryView>) -> Seq<Seq<char>> {
    entries.map_values(|e: EntryView| e.name)
}

/// Whether `entry` is the regular file that `dir` holds under its name,
/// with the size of that file.
pub open spec fn is_file_of(entry: EntryView, dir: Directory) -> bool {
    &&& entry.meta matches Some(m)
    &&& m.is_file
    &&& dir.contains_key(entry.name)
    &&& m.size == dir[entry.name].len()
}

/// Whether `entries` is a snapshot of the folder `dir`: one entry for each
/// file of the folder, and nothing else.
pub open spec fn describes(entries: Seq<EntryView>, dir: Directory) -> bool {
    &&& entry_names(entries).no_duplicates()
    &&& entry_names(entries).to_set() == dir.dom()
    &&& forall|i: int| 0 <= i < entries.len() ==> is_file_of(#[trigger] entries[i], dir)
}

/// Where every entry is a regular file with metadata, every entry has its
/// record.
proof fn lemma_records_of_files(entries: Seq<EntryView>)
    requires
        forall|i: int| 0 <= i < entries.len() ==> record_of(#[trigger] entries[i]) is Some,
    ensures
        records_of(entries).len() == entries.len(),
        forall|i: int|
            0 <= i < entries.len() ==> (#[trigger] records_of(entries)[i]) == record_of(
                entries[i],
            ).unwrap(),
    decreases entries.len(),
{
    if entries.len() > 0 {
        let front = entries.drop_last();
        assert forall|i: int| 0 <= i < front.len() implies record_of(#[trigger] front[i])
            is Some by {
            assert(front[i] == entries[i]);
        }
        lemma_records_of_files(front);
        assert(record_of(entries.last()) is Some);
        assert forall|i: int| 0 <= i < entries.len() implies (#[trigger] records_of(entries)[i])
            == record_of(entries[i]).unwrap() by {
            if i < front.len() {
                assert(records_of(entries)[i] == records_of(front)[i]);
                assert(front[i] == entries[i]);
            }
        }
    }
}

/// The listing of a snapshot of a folder has one record for each file of
/// the folder, under the file's name and with the file's size.
pub proof fn lemma_listing_shows_folder(entries: Seq<EntryView>, dir: Directory)
    requires
        describes(entries, dir),
    ensures
        dir.dom().finite(),
        listing_of(entries).len() == dir.dom().len(),
        sorted_by_name(listing_of(entries)),
        forall|k: int|
            0 <= k < listing_of(entries).len() ==> {
                let record = #[trigger] listing_of(entries)[k];
                dir.contains_key(record.name) && record.size == dir[record.name].len()
            },
        forall|name: Seq<char>| #[trigger]
            dir.contains_key(name) ==> exists|k: int|
                0 <= k < listing_of(entries).len() && (#[trigger] listing_of(entries)[k]).name
                    == name,
{
    broadcast use vstd::seq_lib::group_to_multiset_ensures;

    let names = entry_names(entries);
    let records = records_of(entries);
    let listing = listing_of(entries);
    names.unique_seq_to_set();
    vstd::seq_lib::seq_to_set_is_finite(names);
    assert forall|i: int| 0 <= i < entries.len() implies record_of(#[trigger] entries[i])
        is Some by {
        assert(is_file_of(entries[i], dir));
    }
    lemma_records_of_files(entries);
    lemma_in_name_order(records);
    assert forall|k: int| 0 <= k < listing.len() implies {
        let record = #[trigger] listing[k];
        dir.contains_key(record.name) && record.size == dir[record.name].len()
    } by {
        let record = listing[k];
        assert(listing.contains(record));
        assert(records.to_multiset().count(record) > 0);
        assert(records.contains(record));
        let i = choose|i: int| 0 <= i < records.len() && records[i] == record;
        assert(is_file_of(entries[i], dir));
    }
    assert forall|name: Seq<char>| #[trigger] dir.contains_key(name) implies exists|k: int|
        0 <= k < listing.len() && (#[trigger] listing[k]).name == name by {
        assert(names.to_set().contains(name));
        assert(names.contains(name));
        let i = choose|i: int| 0 <= i < names.len() && names[i] == name;
        let record = records[i];
        assert(record.name == name);
        assert(records.contains(record));
        assert(listing.to_multiset().count(record) > 0);
        assert(listing.contains(record));
        let k = choose|k: int| 0 <= k < listing.len() && listing[k] == record;
        assert(listing[k].name == name);
    }
}

/// Whether `listing` has a record under `name` of `size` bytes.
pub open spec fn lists(listing: Seq<RecordView>, name: Seq<char>, size: nat) -> bool {
    exists|k: int|
        0 <= k < listing.len() && (#[trigger] listing[k]).name == name && listing[k].size == size
}

/// After uploads that each succeed and resolve to stored names of their
/// own, the listing of the folder has as many records as there were
/// uploads, and for each upload a record under its stored name with the
/// size of its payload.
pub proof fn lemma_listing_after_uploads(
    limit: nat,
    overwrite: bool,
    requests: Seq<Request>,
    entries: Seq<EntryView>,
)
    requires
        forall|i: int|
            0 <= i < requests.len() ==> #[trigger] succeeds_in_turn(
                Map::empty(),
                limit,
                overwrite,
                requests,
                i,
            ),
        forall|i: int, j: int|
            0 <= i < j < requests.len() ==> stored_name_of(requests, i) != stored_name_of(
                requests,
                j,
            ),
        describes(entries, upload_all(Map::empty(), limit, overwrite, requests)),
    ensures
        listing_of(entries).len() == requests.len(),
        forall|i: int|
            0 <= i < requests.len() ==> lists(
                listing_of(entries),
                #[trigger] stored_name_of(requests, i),
                requests[i].payload.len(),
            ),
{
    let dir = upload_all(Map::empty(), limit, overwrite, requests);
    lemma_uploads_fill_folder(limit, overwrite, requests);
    lemma_listing_shows_folder(entries, dir);
    let listing = listing_of(entries);
    assert forall|i: int| 0 <= i < requests.len() implies lists(
        listing,
        #[trigger] stored_name_of(requests, i),
        requests[i].payload.len(),
    ) by {
        let name = stored_name_of(requests, i);
        assert(dir.contains_key(name));
        let k = choose|k: int| 0 <= k < listing.len() && (#[trigger] listing[k]).name == name;
        assert(listing[k].size == dir[listing[k].name].len());
    }
}

/// The view of an optional text.
pub open spec fn text_view(text: Option<String>) -> Option<Seq<char>> {
    match text {
        Some(t) => Some(t@),
        None => None,
    }
}

/// The view of an optional record.
pub open spec fn record_view(record: Option<FileListSucessfullyInfo>) -> Option<RecordView> {
    match record {
        Some(r) => Some(r@),
        None => None,
    }
}

/// A run of digits ends at or behind its beginning.
proof fn lemma_digits_end(s: Seq<char>, i: int)
    requires
        0 <= i <= s.len(),
    ensures
        i <= digits_end(s, i) <= s.len(),
        forall|j: int| i <= j < digits_end(s, i) ==> is_digit(#[trigger] s[j]),
    decreases s.len() - i,
{
    if i < s.len() && is_digit(s[i]) {
        lemma_digits_end(s, i + 1);
    }
}

/// A date and time has at least twenty-one characters behind its year.
proof fn lemma_date_time_is_long(s: Seq<char>)
    requires
        is_utc_date_time(s),
    ensures
        s.len() >= digits_end(s, year_start(s)) + 21,
        s.len() >= 25,
{
    let y = digits_end(s, year_start(s));
    if has_char_at(s, y + 15, '.') {
        lemma_digits_end(s, y + 16);
    }
}

/// The characters of `text`, one by one.
fn chars_of(text: &str) -> (chars: Vec<char>)
    ensures
        chars@ == text@,
{
    let mut chars: Vec<char> = Vec::new();
    proof {
        assert(text@.take(0) =~= Seq::<char>::empty());
    }
    for c in it: text.chars()
        invariant
            it.seq() == text@,
            chars@ == text@.take(it.index()),
    {
        proof {
            assert(text@.take(it.index() + 1) =~= text@.take(it.index()).push(c));
        }
        chars.push(c);
    }
    proof {
        assert(text@.take(text@.len() as int) =~= text@);
    }
    chars
}

/// Whether `c` is one of the digits `0` to `9`.
fn digit(c: char) -> (r: bool)
    ensures
        r == is_digit(c),
{
    '0' <= c && c <= '9'
}

/// Where the run of digits that begins at index `from` ends.
fn skip_digits(s: &Vec<char>, from: usize) -> (end: usize)
    requires
        from <= s.len(),
    ensures
        end == digits_end(s@, from as int),
        from <= end <= s.len(),
{
    let mut i: usize = from;
    while i < s.len() && digit(s[i])
        invariant
            from <= i <= s.len(),
            digits_end(s@, from as int) == digits_end(s@, i as int),
        decreases s.len() - i,
    {
        i = i + 1;
    }
    i
}

/// Whether `text` is written as ISO 8601 writes a date and time of day with
/// the offset of UTC.
pub fn is_date_time(text: &str) -> (ok: bool)
    ensures
        ok == is_utc_date_time(text@),
{
    let s = chars_of(text);
    let n = s.len();
    proof {
        if is_utc_date_time(s@) {
            lemma_date_time_is_long(s@);
        }
    }
    if n < 25 {
        return false;
    }
    let sign: usize = if s[0] == '+' || s[0] == '-' {
        1
    } else {
        0
    };
    let y = skip_digits(&s, sign);
    if y - sign < 4 || y > n - 21 {
        return false;
    }
    let date = s[y] == '-' && digit(s[y + 1]) && digit(s[y + 2]) && s[y + 3] == '-' && digit(
        s[y + 4],
    ) && digit(s[y + 5]);
    let time = s[y + 6] == 'T' && digit(s[y + 7]) && digit(s[y + 8]) && s[y + 9] == ':' && digit(
        s[y + 10],
    ) && digit(s[y + 11]) && s[y + 12] == ':' && digit(s[y + 13]) && digit(s[y + 14]);
    if !date || !time {
        return false;
    }
    let fraction = s[y + 15] == '.';
    let z = if fraction {
        skip_digits(&s, y + 16)
    } else {
        y + 15
    };
    if (fraction && z <= y + 16) || n - z != 6 {
        return false;
    }
    s[z] == '+' && s[z + 1] == '0' && s[z + 2] == '0' && s[z + 3] == ':' && s[z + 4] == '0' && s[z
        + 5] == '0'
}

/// The text that a listing shows for a time, given what the formatter made
/// of that time and of the other time of the same file.
pub fn show_time(own: &Option<String>, other: &Option<String>) -> (text: String)
    ensures
        text@ == shown_time(text_view(*own), text_view(*other)),
        is_utc_date_time(text@),
{
    proof {
        lemma_epoch_is_date_time();
    }
    if let Some(t) = own {
        if is_date_time(t.as_str()) {
            return t.clone();
        }
    }
    if let Some(t) = other {
        if is_date_time(t.as_str()) {
            return t.clone();
        }
    }
    "1970-01-01T00:00:00+00:00".to_owned()
}

/// The record for an entry named `name` with the metadata `meta`, given
/// the two times as the formatter wrote them. There is none for an entry
/// without metadata and none for what is not a regular file. A text that is
/// no date and time is replaced by the other, and by the start of 1970
/// where neither is one.
pub fn record_for(
    name: &str,
    meta: Option<EntryMeta>,
    created: Option<String>,
    modified: Option<String>,
) -> (record: Option<FileListSucessfullyInfo>)
    ensures
        match record {
            Some(r) => meta matches Some(m) && m.is_file && has_date_times(r@) && r@ == (RecordView {
                name: name@,
                size: m.size,
                created_at: shown_time(text_view(created), text_view(modified)),
                modified_at: shown_time(text_view(modified), text_view(created)),
            }),
            None => !(meta matches Some(m) && m.is_file),
        },
{
    match meta {
        Some(m) => {
            if m.is_file {
                Some(
                    FileListSucessfullyInfo {
                        name: name.to_owned(),
                        size: m.size,
                        created_at: show_time(&created, &modified),
                        modified_at: show_time(&modified, &created),
                    },
                )
            } else {
                None
            }
        },
        None => None,
    }
}

/// The time `t` as chrono writes it, where it is known and chrono can
/// represent it.
fn format_time(t: Option<Timestamp>) -> (text: Option<String>)
    ensures
        text_view(text) == formatted(t),
{
    match t {
        Some(t) => format_timestamp(t.secs, t.nanos),
        None => None,
    }
}

/// The record that a listing shows for `entry`.
pub fn describe_entry(entry: &DirEntryInfo) -> (record: Option<FileListSucessfullyInfo>)
    ensures
        record_view(record) == record_of(entry@),
        record matches Some(r) ==> has_date_times(r@),
{
    match entry.meta {
        Some(m) => {
            let created = format_time(m.created);
            let modified = format_time(m.modified);
            record_for(entry.name.as_str(), entry.meta, created, modified)
        },
        None => None,
    }
}

/// Puts `record` into the ordered `records` at its place by name.
fn insert_sorted(records: &mut Vec<FileListSucessfullyInfo>, record: FileListSucessfullyInfo)
    requires
        sorted_by_name(record_views(old(records)@)),
    ensures
        record_views(final(records)@) == insert_by_name(record_views(old(records)@), record@),
        sorted_by_name(record_views(final(records)@)),
{
    let ghost before = record_views(records@);
    let mut p: usize = 0;
    while p < records.len() && name_comes_first(records[p].name.as_str(), record.name.as_str())
        invariant
            p <= records.len(),
            before == record_views(records@),
            forall|i: int| 0 <= i < p ==> name_le((#[trigger] before[i]).name, record@.name),
        decreases records.len() - p,
    {
        p = p + 1;
    }
    proof {
        assert(is_insert_position(before, record@.name, p as int));
        lemma_insert_keeps_order(before, record@, p as int);
    }
    records.insert(p, record);
    proof {
        assert(record_views(records@) =~= before.insert(p as int, record@));
    }
}

/// The listing of a snapshot of the storage folder: one record for every
/// regular file whose metadata could be read, in the order of the names.
pub fn list_records(entries: &Vec<DirEntryInfo>) -> (records: Vec<FileListSucessfullyInfo>)
    ensures
        record_views(records@) == listing_of(entry_views(entries@)),
        sorted_by_name(record_views(records@)),
        record_views(records@).to_multiset() == records_of(entry_views(entries@)).to_multiset(),
        records@.len() == records_of(entry_views(entries@)).len(),
        forall|k: int| 0 <= k < records@.len() ==> has_date_times(#[trigger] records@[k]@),
{
    let mut records: Vec<FileListSucessfullyInfo> = Vec::new();
    let ghost all = entry_views(entries@);
    let mut i: usize = 0;
    proof {
        assert(all.take(0) =~= Seq::empty());
        assert(record_views(records@) =~= Seq::empty());
    }
    while i < entries.len()
        invariant
            i <= entries.len(),
            all == entry_views(entries@),
            record_views(records@) == listing_of(all.take(i as int)),
            sorted_by_name(record_views(records@)),
        decreases entries.len() - i,
    {
        proof {
            let done = records_of(all.take(i as int));
            assert(all.take(i + 1).drop_last() =~= all.take(i as int));
            assert(all.take(i + 1).last() == entries@[i as int]@);
            if let Some(record) = record_of(entries@[i as int]@) {
                assert(done.push(record).drop_last() =~= done);
                assert(done.push(record).last() == record);
            }
        }
        match describe_entry(&entries[i]) {
            Some(record) => {
                insert_sorted(&mut records, record);
            },
            None => {},
        }
        i = i + 1;
    }
    proof {
        assert(all.take(entries.len() as int) =~= all);
        lemma_in_name_order(records_of(all));
        lemma_listing_has_date_times(all);
        assert forall|k: int| 0 <= k < records@.len() implies has_date_times(
            #[trigger] records@[k]@,
        ) by {
            assert(record_views(records@)[k] == records@[k]@);
        }
    }
    records
}

} // verus!
