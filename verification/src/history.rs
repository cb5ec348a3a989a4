use vstd::prelude::*;

use crate::archive::{verify_complete_read, ArchiveError, ArchiveKind};
use crate::date::{local_date_fits, local_date_of_timestamp, CalendarDate};

verus! {

/// Byte of `:`.
pub open spec fn colon() -> u8 {
    58u8
}

/// Byte of `;`.
pub open spec fn semicolon() -> u8 {
    59u8
}

/// Byte of `-`.
pub open spec fn minus() -> u8 {
    45u8
}

/// An ASCII decimal digit.
pub open spec fn is_digit_byte(b: u8) -> bool {
    48 <= b <= 57
}

/// Index of the first occurrence of `b` in `s`.
pub open spec fn first_index_of(s: Seq<u8>, b: u8) -> Option<int>
    decreases s.len(),
{
    if s.len() == 0 {
        None
    } else if s[0] == b {
        Some(0)
    } else {
        match first_index_of(s.drop_first(), b) {
            Some(i) => Some(i + 1),
            None => None,
        }
    }
}

/// The number written by the decimal digits `s` (most significant first).
pub open spec fn digits_value(s: Seq<u8>) -> int
    decreases s.len(),
{
    if s.len() == 0 {
        0
    } else {
        digits_value(s.drop_last()) * 10 + (s.last() - 48)
    }
}

/// All bytes of `s` are decimal digits.
pub open spec fn all_digits(s: Seq<u8>) -> bool {
    forall|i: int| 0 <= i < s.len() ==> is_digit_byte(#[trigger] s[i])
}

/// The timestamp field of an extended history header: digits, with an optional
/// leading `-`.
pub open spec fn timestamp_field_valid(t: Seq<u8>) -> bool {
    &&& t.len() > 0
    &&& forall|i: int| 0 <= i < t.len() ==> is_digit_byte(#[trigger] t[i]) || (i == 0 && t[i] == minus())
}

/// The duration field of an extended history header: one or more digits.
pub open spec fn duration_field_valid(d: Seq<u8>) -> bool {
    d.len() > 0 && all_digits(d)
}

/// The integer that a valid timestamp field writes, if it writes one
/// (a lone `-` writes none).
pub open spec fn timestamp_field_value(t: Seq<u8>) -> Option<int> {
    if t[0] == minus() {
        if t.len() == 1 {
            None
        } else {
            Some(-digits_value(t.drop_first()))
        }
    } else {
        Some(digits_value(t))
    }
}

/// The timestamp of a Zsh `EXTENDED_HISTORY` header line
/// `: <timestamp>:<duration>;<command>`, when the line is one and the
/// timestamp fits in an `i64`.
pub open spec fn extended_history_timestamp(line: Seq<u8>) -> Option<i64> {
    if line.len() >= 2 && line[0] == colon() && line[1] == 32 {
        let fields = line.skip(2);
        match first_index_of(fields, colon()) {
            None => None,
            Some(te) => {
                let ts = fields.take(te);
                let rest = fields.skip(te + 1);
                match first_index_of(rest, semicolon()) {
                    None => None,
                    Some(de) => {
                        if timestamp_field_valid(ts) && duration_field_valid(rest.take(de)) {
                            match timestamp_field_value(ts) {
                                Some(v) => if i64::MIN <= v <= i64::MAX {
                                    Some(v as i64)
                                } else {
                                    None
                                },
                                None => None,
                            }
                        } else {
                            None
                        }
                    },
                }
            },
        }
    } else {
        None
    }
}

proof fn lemma_first_index_found(s: Seq<u8>, b: u8, i: int)
    requires
        0 <= i < s.len(),
        s[i] == b,
        forall|j: int| 0 <= j < i ==> s[j] != b,
    ensures
        first_index_of(s, b) == Some(i),
    decreases i,
{
    if i > 0 {
        lemma_first_index_found(s.drop_first(), b, i - 1);
    }
}

proof fn lemma_first_index_absent(s: Seq<u8>, b: u8)
    requires
        forall|j: int| 0 <= j < s.len() ==> s[j] != b,
    ensures
        first_index_of(s, b) == None::<int>,
    decreases s.len(),
{
    if s.len() > 0 {
        lemma_first_index_absent(s.drop_first(), b);
    }
}

/// Index of the first `b` in `s[from..to]`, counted from the start of `s`.
fn find_byte(s: &[u8], from: usize, to: usize, b: u8) -> (r: Option<usize>)
    requires
        from <= to <= s.len(),
    ensures
        r matches Some(i) ==> from <= i < to && first_index_of(s@.subrange(from as int, to as int), b)
            == Some(i - from),
        r is None ==> first_index_of(s@.subrange(from as int, to as int), b) == None::<int>,
{
    let mut i: usize = from;
    while i < to
        invariant
            from <= i <= to <= s.len(),
            forall|j: int| from <= j < i ==> s@[j] != b,
        decreases to - i,
    {
        if s[i] == b {
            proof {
                let sub = s@.subrange(from as int, to as int);
                assert forall|j: int| 0 <= j < i - from implies sub[j] != b by {
                    assert(sub[j] == s@[from + j]);
                }
                lemma_first_index_found(sub, b, i - from);
            }
            return Some(i);
        }
        i = i + 1;
    }
    proof {
        let sub = s@.subrange(from as int, to as int);
        assert forall|j: int| 0 <= j < sub.len() implies sub[j] != b by {
            assert(sub[j] == s@[from + j]);
        }
        lemma_first_index_absent(sub, b);
    }
    None
}

proof fn lemma_digits_value_nonneg(s: Seq<u8>)
    requires
        all_digits(s),
    ensures
        digits_value(s) >= 0,
    decreases s.len(),
{
    if s.len() > 0 {
        assert(all_digits(s.drop_last())) by {
            assert forall|i: int| 0 <= i < s.drop_last().len() implies is_digit_byte(
                #[trigger] s.drop_last()[i],
            ) by {
                assert(s.drop_last()[i] == s[i]);
            }
        }
        lemma_digits_value_nonneg(s.drop_last());
        assert(is_digit_byte(s[s.len() - 1]));
    }
}

/// The value of digits only grows when more digits follow.
proof fn lemma_digits_value_prefix(s: Seq<u8>, k: int)
    requires
        all_digits(s),
        0 <= k <= s.len(),
    ensures
        digits_value(s.take(k)) <= digits_value(s),
    decreases s.len() - k,
{
    if k < s.len() {
        lemma_digits_value_prefix(s, k + 1);
        let t = s.take(k + 1);
        assert(t.drop_last() =~= s.take(k));
        assert(all_digits(s.take(k))) by {
            assert forall|i: int| 0 <= i < s.take(k).len() implies is_digit_byte(
                #[trigger] s.take(k)[i],
            ) by {
                assert(s.take(k)[i] == s[i]);
            }
        }
        lemma_digits_value_nonneg(s.take(k));
        assert(is_digit_byte(s[k]));
        assert(t.last() == s[k]);
    } else {
        assert(s.take(k) =~= s);
    }
}

/// The value of the digits `s[from..to]`, or `None` when it exceeds `u64::MAX`.
fn decimal_value(s: &[u8], from: usize, to: usize) -> (r: Option<u64>)
    requires
        from <= to <= s.len(),
        all_digits(s@.subrange(from as int, to as int)),
    ensures
        r matches Some(v) ==> v == digits_value(s@.subrange(from as int, to as int)),
        r is None ==> digits_value(s@.subrange(from as int, to as int)) > u64::MAX,
{
    let ghost sub = s@.subrange(from as int, to as int);
    let mut acc: u64 = 0;
    let mut i: usize = from;
    assert(sub.take(0) =~= Seq::<u8>::empty());
    while i < to
        invariant
            from <= i <= to <= s.len(),
            sub == s@.subrange(from as int, to as int),
            all_digits(sub),
            acc == digits_value(sub.take(i - from)),
        decreases to - i,
    {
        let ghost k = i - from;
        assert(sub.take(k + 1).drop_last() =~= sub.take(k));
        assert(sub.take(k + 1).last() == s@[i as int]);
        assert(is_digit_byte(sub[k]));
        let d = (s[i] - 48) as u64;
        match acc.checked_mul(10) {
            Some(m) => match m.checked_add(d) {
                Some(v) => {
                    acc = v;
                },
                None => {
                    proof {
                        lemma_digits_value_prefix(sub, k + 1);
                    }
                    return None;
                },
            },
            None => {
                proof {
                    lemma_digits_value_prefix(sub, k + 1);
                }
                return None;
            },
        }
        i = i + 1;
    }
    assert(sub.take(to - from) =~= sub);
    Some(acc)
}

/// The timestamp of a Zsh `EXTENDED_HISTORY` header line
/// (`: <timestamp>:<duration>;<command>`), or `None` when `line` is no such
/// header or its timestamp does not fit in an `i64`.
#[verifier::loop_isolation(false)]
pub fn parse_extended_history_timestamp(line: &[u8]) -> (r: Option<i64>)
    ensures
        r == extended_history_timestamp(line@),
{
    if line.len() < 2 || line[0] != 58u8 || line[1] != 32u8 {
        return None;
    }
    let n = line.len();
    let ghost fields = line@.skip(2);
    assert(line@.subrange(2, n as int) =~= fields);
    let te = match find_byte(line, 2, n, 58u8) {
        Some(te) => te,
        None => {
            return None;
        },
    };
    let ghost ts = fields.take(te - 2);
    let ghost rest = fields.skip(te - 2 + 1);
    assert(line@.subrange(2, te as int) =~= ts);
    assert(line@.subrange(te + 1, n as int) =~= rest);
    // Timestamp: digits, with an optional leading minus sign.
    if te == 2 {
        return None;
    }
    let mut k: usize = 2;
    while k < te
        invariant
            2 <= k <= te < n == line.len(),
            ts == line@.subrange(2, te as int),
            forall|j: int| 0 <= j < k - 2 ==> is_digit_byte(#[trigger] ts[j]) || (j == 0 && ts[j] == minus()),
        decreases te - k,
    {
        let b = line[k];
        if !((48u8 <= b && b <= 57u8) || (k == 2 && b == 45u8)) {
            assert(ts[k - 2] == b);
            assert(!(is_digit_byte(ts[k - 2]) || (k - 2 == 0 && ts[k - 2] == minus())));
            assert(!timestamp_field_valid(ts));
            return None;
        }
        k = k + 1;
    }
    assert(timestamp_field_valid(ts));
    let de = match find_byte(line, te + 1, n, 59u8) {
        Some(de) => de,
        None => {
            return None;
        },
    };
    let ghost dur = rest.take(de - (te + 1));
    assert(line@.subrange(te + 1, de as int) =~= dur);
    if de == te + 1 {
        return None;
    }
    let mut k: usize = te + 1;
    while k < de
        invariant
            te + 1 <= k <= de <= n == line.len(),
            dur == line@.subrange(te + 1, de as int),
            forall|j: int| 0 <= j < k - (te + 1) ==> is_digit_byte(#[trigger] dur[j]),
        decreases de - k,
    {
        let b = line[k];
        if !(48u8 <= b && b <= 57u8) {
            assert(dur[k - (te + 1)] == b);
            assert(!is_digit_byte(dur[k - (te + 1)]));
            assert(!duration_field_valid(dur));
            return None;
        }
        k = k + 1;
    }
    assert(duration_field_valid(dur));
    if line[2] == 45u8 {
        if te == 3 {
            return None;
        }
        assert(ts.drop_first() =~= line@.subrange(3, te as int));
        assert(all_digits(line@.subrange(3, te as int))) by {
            assert forall|i: int| 0 <= i < te - 3 implies is_digit_byte(
                #[trigger] line@.subrange(3, te as int)[i],
            ) by {
                assert(line@.subrange(3, te as int)[i] == ts[i + 1]);
            }
        }
        match decimal_value(line, 3, te) {
            Some(m) => {
                if m <= 9_223_372_036_854_775_807u64 {
                    let v: i64 = m as i64;
                    Some(-v)
                } else if m == 9_223_372_036_854_775_808u64 {
                    Some(i64::MIN)
                } else {
                    None
                }
            },
            None => None,
        }
    } else {
        assert(all_digits(ts)) by {
            assert forall|i: int| 0 <= i < ts.len() implies is_digit_byte(#[trigger] ts[i]) by {
                if i == 0 {
                    assert(ts[0] == line@[2]);
                }
            }
        }
        match decimal_value(line, 2, te) {
            Some(m) => {
                if m <= 9_223_372_036_854_775_807u64 {
                    Some(m as i64)
                } else {
                    None
                }
            },
            None => None,
        }
    }
}

/// The ASCII decimal digits of `n` (no sign, no leading zero).
pub open spec fn decimal_bytes(n: nat) -> Seq<u8>
    decreases n,
{
    if n < 10 {
        seq![(48 + n) as u8]
    } else {
        decimal_bytes(n / 10).push((48 + n % 10) as u8)
    }
}

/// How Zsh writes a timestamp: decimal, with `-` in front when negative.
pub open spec fn timestamp_text(t: i64) -> Seq<u8> {
    if t < 0 {
        seq![minus()] + decimal_bytes((-t) as nat)
    } else {
        decimal_bytes(t as nat)
    }
}

/// The extended history header line `: <t>:<duration>;<command>`.
pub open spec fn history_header(t: i64, duration: Seq<u8>, command: Seq<u8>) -> Seq<u8> {
    seq![colon(), 32u8] + timestamp_text(t) + seq![colon()] + duration + seq![semicolon()] + command
}

proof fn lemma_decimal_bytes(n: nat)
    ensures
        all_digits(decimal_bytes(n)),
        decimal_bytes(n).len() >= 1,
        digits_value(decimal_bytes(n)) == n,
    decreases n,
{
    if n >= 10 {
        lemma_decimal_bytes(n / 10);
        let s = decimal_bytes(n);
        assert(s.drop_last() =~= decimal_bytes(n / 10));
        assert(s.last() == (48 + n % 10) as u8);
        assert(((48 + n % 10) as u8) - 48 == n % 10);
        assert((n / 10) * 10 + n % 10 == n);
        assert(s.len() > 0);
        assert(digits_value(s) == digits_value(s.drop_last()) * 10 + (s.last() - 48));
        assert(digits_value(s.drop_last()) == n / 10);
        assert forall|i: int| 0 <= i < s.len() implies is_digit_byte(#[trigger] s[i]) by {
            if i < s.len() - 1 {
                assert(s[i] == decimal_bytes(n / 10)[i]);
            }
        }
    } else {
        let s = decimal_bytes(n);
        assert(s.drop_last() =~= Seq::<u8>::empty());
        assert(s.last() == (48 + n) as u8);
        assert(digits_value(s) == digits_value(s.drop_last()) * 10 + (s.last() - 48));
    }
}

/// A header written with timestamp `t` reads back as `t`: whatever the
/// command, and whatever the duration as long as it is one or more ASCII
/// digits, of any length.
pub proof fn lemma_header_timestamp_roundtrip(t: i64, duration: Seq<u8>, command: Seq<u8>)
    requires
        duration.len() > 0,
        forall|i: int| 0 <= i < duration.len() ==> 48 <= #[trigger] duration[i] <= 57,
    ensures
        extended_history_timestamp(
            seq![58u8, 32u8] + timestamp_text(t) + seq![58u8] + duration + seq![59u8] + command,
        ) == Some(t),
{
    assert(history_header(t, duration, command) =~= seq![58u8, 32u8] + timestamp_text(t) + seq![58u8]
        + duration + seq![59u8] + command);
    assert(duration_field_valid(duration)) by {
        assert forall|i: int| 0 <= i < duration.len() implies is_digit_byte(#[trigger] duration[i]) by {
            assert(48 <= duration[i] <= 57);
        }
    }
    let line = history_header(t, duration, command);
    let ts = timestamp_text(t);
    let mag: nat = if t < 0 { (-t) as nat } else { t as nat };
    lemma_decimal_bytes(mag);
    let fields = line.skip(2);
    assert(fields =~= ts + seq![colon()] + duration + seq![semicolon()] + command);
    assert forall|j: int| 0 <= j < ts.len() implies ts[j] != colon() by {
        if t < 0 && j > 0 {
            assert(ts[j] == decimal_bytes(mag)[j - 1]);
        } else if t >= 0 {
            assert(is_digit_byte(decimal_bytes(mag)[j]));
        }
    }
    lemma_first_index_found(fields, colon(), ts.len() as int);
    assert(fields.take(ts.len() as int) =~= ts);
    let rest = fields.skip(ts.len() as int + 1);
    assert(rest =~= duration + seq![semicolon()] + command);
    assert forall|j: int| 0 <= j < duration.len() implies rest[j] != semicolon() by {
        assert(rest[j] == duration[j]);
        assert(is_digit_byte(duration[j]));
    }
    lemma_first_index_found(rest, semicolon(), duration.len() as int);
    assert(rest.take(duration.len() as int) =~= duration);
    if t < 0 {
        assert(ts.drop_first() =~= decimal_bytes(mag));
        assert forall|i: int| 0 <= i < ts.len() implies is_digit_byte(#[trigger] ts[i]) || (i == 0
            && ts[i] == minus()) by {
            if i > 0 {
                assert(ts[i] == decimal_bytes(mag)[i - 1]);
            }
        }
    }
}

/// A header line split into its parts: `: ` + `ts` + `:` + `duration` + `;`
/// + `command`, with a valid timestamp field writing `t` and a valid duration.
pub open spec fn is_header_of(line: Seq<u8>, t: i64, ts: Seq<u8>, duration: Seq<u8>, command: Seq<u8>) -> bool {
    &&& line == seq![colon(), 32u8] + ts + seq![colon()] + duration + seq![semicolon()] + command
    &&& timestamp_field_valid(ts)
    &&& duration_field_valid(duration)
    &&& timestamp_field_value(ts) == Some(t as int)
}

/// A line reads as the timestamp `t` exactly when it splits into
/// `: <ts>:<duration>;<command>`, `ts` being an optional `-` and digits that
/// write `t`, and `duration` one or more digits.
pub proof fn lemma_header_format(line: Seq<u8>, t: i64)
    ensures
        extended_history_timestamp(line) == Some(t) <==> exists|ts: Seq<u8>, duration: Seq<u8>, command: Seq<u8>|
            is_header_of(line, t, ts, duration, command),
{
    if extended_history_timestamp(line) == Some(t) {
        let fields = line.skip(2);
        let te = first_index_of(fields, colon())->0;
        lemma_first_index_bounds(fields, colon());
        let ts = fields.take(te);
        let rest = fields.skip(te + 1);
        let de = first_index_of(rest, semicolon())->0;
        lemma_first_index_bounds(rest, semicolon());
        let duration = rest.take(de);
        let command = rest.skip(de + 1);
        assert(line =~= seq![colon(), 32u8] + ts + seq![colon()] + duration + seq![semicolon()] + command);
        assert(is_header_of(line, t, ts, duration, command));
    }
    if exists|ts: Seq<u8>, duration: Seq<u8>, command: Seq<u8>| is_header_of(line, t, ts, duration, command) {
        let (ts, duration, command) = choose|ts: Seq<u8>, duration: Seq<u8>, command: Seq<u8>|
            is_header_of(line, t, ts, duration, command);
        let fields = line.skip(2);
        assert(fields =~= ts + seq![colon()] + duration + seq![semicolon()] + command);
        assert forall|j: int| 0 <= j < ts.len() implies fields[j] != colon() by {
            assert(fields[j] == ts[j]);
            assert(is_digit_byte(ts[j]) || (j == 0 && ts[j] == minus()));
        }
        assert(fields[ts.len() as int] == colon());
        lemma_first_index_found(fields, colon(), ts.len() as int);
        assert(fields.take(ts.len() as int) =~= ts);
        let rest = fields.skip(ts.len() as int + 1);
        assert(rest =~= duration + seq![semicolon()] + command);
        assert forall|j: int| 0 <= j < duration.len() implies rest[j] != semicolon() by {
            assert(rest[j] == duration[j]);
            assert(is_digit_byte(duration[j]));
        }
        assert(rest[duration.len() as int] == semicolon());
        lemma_first_index_found(rest, semicolon(), duration.len() as int);
        assert(rest.take(duration.len() as int) =~= duration);
    }
}

proof fn lemma_first_index_bounds(s: Seq<u8>, b: u8)
    ensures
        first_index_of(s, b) matches Some(i) ==> 0 <= i < s.len() && s[i] == b,
    decreases s.len(),
{
    if s.len() > 0 && s[0] != b {
        lemma_first_index_bounds(s.drop_first(), b);
    }
}

/// The running state of an export: it reads the history line by line and
/// decides, for each line, whether the line goes into the export.
#[derive(Clone, Copy, Debug)]
pub struct ExportScan {
    /// The local calendar date whose entries are exported.
    pub target_date: CalendarDate,
    /// Bytes of the history read so far.
    pub source_bytes_read: u64,
    /// Header lines (with a timestamp) seen so far.
    pub timestamped_entries: u64,
    /// Header lines whose local date is the target date.
    pub selected_entries: u64,
    /// Whether the entry that the last header opened goes into the export.
    pub include_current_entry: bool,
}

/// One line of the history, as the scan sees it: its length in bytes, and
/// `None` for a line that is no header, `Some(date)` for a header, `date`
/// being the local date of its timestamp (`None` when there is none).
pub type ScanEvent = (nat, Option<Option<CalendarDate>>);

/// The scan after one line: a header decides, by its local date, whether its
/// entry (the header and the lines up to the next header) is exported; other
/// lines follow the entry they belong to.
pub open spec fn scan_step(s: ExportScan, line_len: nat, entry_date: Option<Option<CalendarDate>>) -> ExportScan {
    match entry_date {
        None => ExportScan { source_bytes_read: (s.source_bytes_read + line_len) as u64, ..s },
        Some(date) => {
            let keep = date == Some(s.target_date);
            ExportScan {
                target_date: s.target_date,
                source_bytes_read: (s.source_bytes_read + line_len) as u64,
                timestamped_entries: (s.timestamped_entries + 1) as u64,
                selected_entries: if keep {
                    (s.selected_entries + 1) as u64
                } else {
                    s.selected_entries
                },
                include_current_entry: keep,
            }
        },
    }
}

/// A fresh scan for `target_date`.
pub open spec fn scan_start(target_date: CalendarDate) -> ExportScan {
    ExportScan {
        target_date,
        source_bytes_read: 0,
        timestamped_entries: 0,
        selected_entries: 0,
        include_current_entry: false,
    }
}

/// The scan after the lines `events`, in order.
pub open spec fn scan_all(start: ExportScan, events: Seq<ScanEvent>) -> ExportScan
    decreases events.len(),
{
    if events.len() == 0 {
        start
    } else {
        let prev = scan_all(start, events.drop_last());
        scan_step(prev, events.last().0, events.last().1)
    }
}

impl ExportScan {
    /// A scan that has read nothing yet.
    pub fn new(target_date: CalendarDate) -> (s: ExportScan)
        ensures
            s == scan_start(target_date),
    {
        ExportScan {
            target_date,
            source_bytes_read: 0,
            timestamped_entries: 0,
            selected_entries: 0,
            include_current_entry: false,
        }
    }

    /// Takes one line into account, given what its header says (see
    /// `ScanEvent`); returns whether the line goes into the export.
    pub fn advance(&mut self, line_len: u64, entry_date: Option<Option<CalendarDate>>) -> (keep: bool)
        requires
            old(self).source_bytes_read + line_len <= u64::MAX,
            old(self).timestamped_entries < u64::MAX,
            old(self).selected_entries < u64::MAX,
        ensures
            *final(self) == scan_step(*old(self), line_len as nat, entry_date),
            keep == final(self).include_current_entry,
    {
        self.source_bytes_read = self.source_bytes_read + line_len;
        match entry_date {
            None => {},
            Some(date) => {
                self.timestamped_entries = self.timestamped_entries + 1;
                let keep = match date {
                    Some(d) => d == self.target_date,
                    None => false,
                };
                self.include_current_entry = keep;
                if keep {
                    self.selected_entries = self.selected_entries + 1;
                }
            },
        }
        self.include_current_entry
    }

    /// Takes the history line `line` into account: a header's timestamp is
    /// turned into a local date (which depends on the machine's time zone;
    /// see `local_date_fits` for what is known of it);
    /// returns whether the line goes into the export.
    pub fn scan_line(&mut self, line: &[u8]) -> (keep: bool)
        requires
            old(self).source_bytes_read + line@.len() <= u64::MAX,
            old(self).timestamped_entries < u64::MAX,
            old(self).selected_entries < u64::MAX,
        ensures
            extended_history_timestamp(line@) is None ==> *final(self) == scan_step(
                *old(self),
                line@.len(),
                None,
            ),
            extended_history_timestamp(line@) matches Some(t) ==> exists|date: Option<CalendarDate>|
                #![trigger local_date_fits(t, date)]
                local_date_fits(t, date) && *final(self) == scan_step(*old(self), line@.len(), Some(date)),
            keep == final(self).include_current_entry,
    {
        let entry_date = match parse_extended_history_timestamp(line) {
            Some(timestamp) => Some(local_date_of_timestamp(timestamp)),
            None => None,
        };
        let keep = self.advance(line.len() as u64, entry_date);
        proof {
            if let Some(date) = entry_date {
                assert(local_date_fits(extended_history_timestamp(line@)->0, date));
                assert(*self == scan_step(*old(self), line@.len(), Some(date)));
            }
        }
        keep
    }

    /// Whether the export may be published, once the whole history was read:
    /// the history must have kept the size `source_bytes` it had when it was
    /// opened, and at least one header must have been seen.
    pub fn finish(&self, source_bytes: u64) -> (r: Result<(), ArchiveError>)
        ensures
            self.source_bytes_read != source_bytes ==> r == Err::<(), ArchiveError>(
                ArchiveError::SourceChanged {
                    kind: ArchiveKind::Export,
                    expected: source_bytes,
                    read: self.source_bytes_read,
                },
            ),
            self.source_bytes_read == source_bytes && self.timestamped_entries == 0 ==> r == Err::<
                (),
                ArchiveError,
            >(ArchiveError::NoTimestamps),
            self.source_bytes_read == source_bytes && self.timestamped_entries > 0 ==> r == Ok::<
                (),
                ArchiveError,
            >(()),
    {
        verify_complete_read(ArchiveKind::Export, source_bytes, self.source_bytes_read)?;
        if self.timestamped_entries == 0 {
            return Err(ArchiveError::NoTimestamps);
        }
        Ok(())
    }
}

/// The number of header lines among `events`.
pub open spec fn count_headers(events: Seq<ScanEvent>) -> nat
    decreases events.len(),
{
    if events.len() == 0 {
        0
    } else {
        count_headers(events.drop_last()) + if events.last().1 is Some {
            1nat
        } else {
            0nat
        }
    }
}

/// The number of header lines among `events` whose local date is `target`.
pub open spec fn count_matching(events: Seq<ScanEvent>, target: CalendarDate) -> nat
    decreases events.len(),
{
    if events.len() == 0 {
        0
    } else {
        count_matching(events.drop_last(), target) + if events.last().1 == Some(Some(target)) {
            1nat
        } else {
            0nat
        }
    }
}

/// The total length of the lines `events`.
pub open spec fn total_length(events: Seq<ScanEvent>) -> nat
    decreases events.len(),
{
    if events.len() == 0 {
        0
    } else {
        total_length(events.drop_last()) + events.last().0
    }
}

/// The line at `i` belongs to an exported entry: some header at or before it
/// has the target date, and no other header comes between the two.
pub open spec fn governed_by_matching_header(events: Seq<ScanEvent>, i: int, target: CalendarDate) -> bool {
    exists|j: int|
        0 <= j <= i && #[trigger] events[j].1 == Some(Some(target)) && forall|k: int|
            j < k <= i ==> (#[trigger] events[k].1) is None
}

/// An export takes a line exactly when the last header at or before it has
/// the target local date: a header with another date, or with no local date,
/// leaves out its whole entry, and lines before the first header are left out.
pub proof fn lemma_scan_selects_entries_of_target_date(target: CalendarDate, events: Seq<ScanEvent>)
    ensures
        scan_all(scan_start(target), events).target_date == target,
        events.len() > 0 ==> (scan_all(scan_start(target), events).include_current_entry
            <==> governed_by_matching_header(events, events.len() - 1, target)),
        events.len() == 0 ==> !scan_all(scan_start(target), events).include_current_entry,
    decreases events.len(),
{
    if events.len() > 0 {
        let prefix = events.drop_last();
        lemma_scan_selects_entries_of_target_date(target, prefix);
        let i = events.len() - 1;
        let after = scan_all(scan_start(target), events);
        match events.last().1 {
            Some(date) => {
                if date == Some(target) {
                    assert(events[i].1 == Some(Some(target)));
                    assert(governed_by_matching_header(events, i, target));
                } else {
                    assert(!after.include_current_entry);
                    if governed_by_matching_header(events, i, target) {
                        let j = choose|j: int|
                            0 <= j <= i && #[trigger] events[j].1 == Some(Some(target)) && forall|k: int|
                                j < k <= i ==> (#[trigger] events[k].1) is None;
                        if j < i {
                            assert(events[i].1 is None);
                        }
                    }
                }
            },
            None => {
                assert(events[i].1 is None);
                if i > 0 {
                    if governed_by_matching_header(events, i, target) {
                        let j = choose|j: int|
                            0 <= j <= i && #[trigger] events[j].1 == Some(Some(target)) && forall|k: int|
                                j < k <= i ==> (#[trigger] events[k].1) is None;
                        assert(j < i);
                        assert(prefix[j] == events[j]);
                        assert forall|k: int| j < k <= i - 1 implies (#[trigger] prefix[k].1) is None by {
                            assert(prefix[k] == events[k]);
                        }
                        assert(governed_by_matching_header(prefix, i - 1, target));
                    }
                    if governed_by_matching_header(prefix, i - 1, target) {
                        let j = choose|j: int|
                            0 <= j <= i - 1 && #[trigger] prefix[j].1 == Some(Some(target)) && forall|k: int|
                                j < k <= i - 1 ==> (#[trigger] prefix[k].1) is None;
                        assert(prefix[j] == events[j]);
                        assert forall|k: int| j < k <= i implies (#[trigger] events[k].1) is None by {
                            if k < i {
                                assert(prefix[k] == events[k]);
                            }
                        }
                        assert(governed_by_matching_header(events, i, target));
                    }
                } else {
                    if governed_by_matching_header(events, i, target) {
                        let j = choose|j: int|
                            0 <= j <= i && #[trigger] events[j].1 == Some(Some(target)) && forall|k: int|
                                j < k <= i ==> (#[trigger] events[k].1) is None;
                        assert(j == 0);
                    }
                }
            },
        }
    }
}

/// An export counts every header it saw, every header of the target date
/// and every byte it read (while the counts fit in a `u64`); so it never
/// counts more selected entries than timestamped ones.
pub proof fn lemma_scan_counts(target: CalendarDate, events: Seq<ScanEvent>)
    requires
        total_length(events) <= u64::MAX,
        events.len() <= u64::MAX,
    ensures
        scan_all(scan_start(target), events).source_bytes_read == total_length(events),
        scan_all(scan_start(target), events).timestamped_entries == count_headers(events),
        scan_all(scan_start(target), events).selected_entries == count_matching(events, target),
        count_matching(events, target) <= count_headers(events),
        count_headers(events) <= events.len(),
    decreases events.len(),
{
    if events.len() > 0 {
        let prefix = events.drop_last();
        lemma_scan_counts(target, prefix);
        lemma_scan_selects_entries_of_target_date(target, prefix);
    }
}

} // verus!
