//! The decisions behind the command-line tool: counting events, the lines
//! of the record listing and of the DDL extract, filtering events for an
//! export, and parsing an offset argument.

use vstd::prelude::*;
use crate::error::{DumpError, DumpErrorView};
use crate::parser::{NlsEncoding, lemma_record_step_bounds, record_step, RecordStep};
use crate::reader::{DumpEvent, DumpEventView, DumpReader, EventIter, EventState, event_step,
    event_result_view};
use crate::text::{chars_contain, chars_of, contains_seq, dec, lit, push_all, push_dec,
    push_space_padded, push_str, space_pad, string_from_chars, to_uppercase_chars, trim_chars,
    trim_end_char, trim_end_char_chars, trim_ws, unicode_upper};
use crate::types::{RawRecord, record_type_name};

verus! {

// ─────────────────────────────────────────────────────────────
// Counting events
// ─────────────────────────────────────────────────────────────

/// Each event the reader yields moves it forward by at least one record
/// header; an error or the end never moves it back.
pub proof fn lemma_event_step_progress(d: Seq<u8>, enc: Option<NlsEncoding>, st: EventState)
    requires
        st.pos >= 0,
    ensures
        ({
            let (r, st2) = event_step(d, enc, st);
            &&& r matches Some(Ok(_)) ==> st.pos + 4 <= st2.pos <= d.len()
            &&& st2.pos >= st.pos
        }),
    decreases d.len() - st.pos,
{
    lemma_record_step_bounds(d, st.pos);
    match record_step(d, st.pos) {
        RecordStep::Rec { code, start, len, next } => {
            let st1 = EventState { pos: next, ..st };
            lemma_event_step_progress(d, enc, st1);
            lemma_event_step_progress(d, enc, EventState { owner: Seq::empty(), ..st1 });
            let data = d.subrange(start, start + len);
            lemma_event_step_progress(
                d,
                enc,
                EventState {
                    owner: crate::text::trim_char(crate::reader::record_text(enc, data), '\0'),
                    ..st1
                },
            );
        },
        _ => {},
    }
}

/// Tables, rows and DDL statements counted from a reader state until the
/// end of the data or the EndOfFile event; or the first error.
pub open spec fn event_counts(d: Seq<u8>, enc: Option<NlsEncoding>, st: EventState) -> Result<
    (nat, nat, nat),
    DumpErrorView,
>
    decreases d.len() - st.pos,
{
    if st.pos < 0 {
        Ok((0, 0, 0))
    } else {
        let (r, st2) = event_step(d, enc, st);
        match r {
            None => Ok((0, 0, 0)),
            Some(Err(e)) => Err(e),
            Some(Ok(ev)) => if ev is EndOfFile {
                Ok((0, 0, 0))
            } else {
                proof {
                    lemma_event_step_progress(d, enc, st);
                }
                match event_counts(d, enc, st2) {
                    Err(e) => Err(e),
                    Ok((t, r2, dd)) => Ok(
                        (
                            t + if ev is TableStart {
                                1nat
                            } else {
                                0nat
                            },
                            r2 + if ev is Row {
                                1nat
                            } else {
                                0nat
                            },
                            dd + if ev is DdlStatement {
                                1nat
                            } else {
                                0nat
                            },
                        ),
                    ),
                }
            },
        }
    }
}

/// Counts the tables, rows and DDL statements of a dump, stopping at the
/// EndOfFile event; the first error ends the count.
pub fn info_counts(reader: &DumpReader) -> (r: Result<(u64, u64, u64), DumpError>)
    ensures
        match event_counts(
            reader.bytes(),
            reader.encoding(),
            EventState { pos: reader.records_start(), table: None, owner: Seq::empty(), rows: 0 },
        ) {
            Ok((t, rows, dd)) => r matches Ok((t2, r2, d2)) && t2 == t && r2 == rows && d2 == dd,
            Err(e) => r matches Err(e2) && e2@ == e,
        },
{
    let mut it = reader.events();
    let ghost d = it.bytes();
    let ghost enc = it.encoding();
    let ghost st0 = it.state();
    let mut tables: u64 = 0;
    let mut rows: u64 = 0;
    let mut ddl: u64 = 0;
    proof {
        it.lemma_fits();
    }
    loop
        invariant
            d == it.bytes(),
            enc == it.encoding(),
            it.state().pos >= 0,
            d.len() <= usize::MAX,
            tables + rows + ddl <= it.state().pos,
            it.state().pos <= d.len() || (tables == 0 && rows == 0 && ddl == 0),
            st0 == (EventState { pos: reader.records_start(), table: None, owner: Seq::empty(), rows: 0 }),
            d == reader.bytes(),
            enc == reader.encoding(),
            match event_counts(d, enc, st0) {
                Ok((t, r, dd)) => event_counts(d, enc, it.state()) matches Ok((t1, r1, dd1)) && t
                    == tables + t1 && r == rows + r1 && dd == ddl + dd1,
                Err(e) => event_counts(d, enc, it.state()) == Err::<(nat, nat, nat), DumpErrorView>(e),
            },
        decreases d.len() - it.state().pos,
    {
        let ghost st = it.state();
        proof {
            lemma_event_step_progress(d, enc, st);
        }
        let ev = it.next();
        match ev {
            None => return Ok((tables, rows, ddl)),
            Some(Err(e)) => return Err(e),
            Some(Ok(e)) => match e {
                DumpEvent::TableStart { .. } => tables = tables + 1,
                DumpEvent::Row { .. } => rows = rows + 1,
                DumpEvent::DdlStatement { .. } => ddl = ddl + 1,
                DumpEvent::EndOfFile => return Ok((tables, rows, ddl)),
                _ => {},
            },
        }
    }
}

// ─────────────────────────────────────────────────────────────
// Record listing and DDL extract
// ─────────────────────────────────────────────────────────────

/// A byte of the preview column: printable ASCII as itself, else `.`.
pub open spec fn preview_char(b: u8) -> char {
    if 0x20 <= b < 0x7F {
        b as char
    } else {
        '.'
    }
}

/// The listing line of a record: offset, type and length right-aligned
/// in widths 10, 25 and 10, then a preview of its first 40 bytes.
pub open spec fn record_line_text(rec: RawRecord) -> Seq<char> {
    let k = if rec.data@.len() < 40 {
        rec.data@.len() as int
    } else {
        40
    };
    space_pad(dec(rec.offset as nat), 10) + "  "@ + space_pad(record_type_name(rec.record_type), 25)
        + "  "@ + space_pad(dec(rec.data@.len()), 10) + "  "@ + rec.data@.subrange(0, k).map_values(
        |b: u8| preview_char(b),
    ) + "\n"@
}

/// The listing line of a record, newline included.
pub fn record_line(rec: &RawRecord) -> (line: String)
    ensures
        line@ == record_line_text(*rec),
{
    let mut v: Vec<char> = Vec::new();
    let mut off: Vec<char> = Vec::new();
    push_dec(&mut off, rec.offset as u64);
    push_space_padded(&mut v, &off, 10);
    push_str(&mut v, "  ");
    let name = chars_of(rec.record_type.to_string().as_str());
    push_space_padded(&mut v, &name, 25);
    push_str(&mut v, "  ");
    let mut len: Vec<char> = Vec::new();
    push_dec(&mut len, rec.data.len() as u64);
    push_space_padded(&mut v, &len, 10);
    push_str(&mut v, "  ");
    let ghost before = v@;
    let k: usize = if rec.data.len() < 40 { rec.data.len() } else { 40 };
    let mut i: usize = 0;
    while i < k
        invariant
            k <= rec.data@.len(),
            i <= k,
            v@ == before + rec.data@.subrange(0, i as int).map_values(|b: u8| preview_char(b)),
        decreases k - i,
    {
        let b = rec.data[i];
        v.push(if b >= 0x20 && b < 0x7F { b as char } else { '.' });
        i = i + 1;
        assert(v@ =~= before + rec.data@.subrange(0, i as int).map_values(|b: u8| preview_char(b)));
    }
    push_str(&mut v, "\n");
    string_from_chars(v)
}

/// What the DDL extract writes for a statement: the trimmed text without
/// trailing `;`, then `;` and a blank line; nothing for blank statements.
pub open spec fn ddl_text(sql: Seq<char>) -> Seq<char> {
    if trim_ws(sql).len() == 0 {
        Seq::empty()
    } else {
        trim_end_char(trim_ws(sql), ';') + ";\n"@ + "\n"@
    }
}

/// The text of the DDL extract for one statement.
pub fn ddl_output(sql: &str) -> (text: String)
    ensures
        text@ == ddl_text(sql@),
{
    let clean = trim_chars(chars_of(sql).as_slice());
    if clean.len() == 0 {
        return String::new();
    }
    let mut v = trim_end_char_chars(clean.as_slice(), ';');
    push_str(&mut v, ";\n");
    push_str(&mut v, "\n");
    string_from_chars(v)
}

// ─────────────────────────────────────────────────────────────
// Export filter
// ─────────────────────────────────────────────────────────────

/// What to do with an event during an export.
#[derive(Debug, Clone, Copy, PartialEq, Eq, Structural)]
pub enum FilterAction {
    /// Leave the event out
    Skip,
    /// Pass the event to the writer
    Handle,
    /// Pass the event to the writer, then stop
    HandleThenStop,
}

/// The state of an export filter.
pub struct FilterState {
    pub filter: Option<Seq<char>>,
    pub in_matching_table: bool,
    pub rows_in_table: u64,
    pub row_limit: u64,
}

/// The decision for an event, and the next state. With a table filter,
/// only tables whose upper-cased name contains the (upper-cased) filter
/// are passed, and DDL and other events are left out; at most
/// `row_limit` rows per table are passed when it is not 0.
pub open spec fn filter_step(st: FilterState, ev: DumpEventView) -> (FilterAction, FilterState) {
    match ev {
        DumpEventView::TableStart { table_name, .. } => {
            let m = match st.filter {
                Some(f) => contains_seq(unicode_upper(table_name), f),
                None => true,
            };
            (
                if m {
                    FilterAction::Handle
                } else {
                    FilterAction::Skip
                },
                FilterState { in_matching_table: m, rows_in_table: 0, ..st },
            )
        },
        DumpEventView::Row { .. } => if st.in_matching_table {
            if st.row_limit > 0 && st.rows_in_table >= st.row_limit {
                (FilterAction::Skip, st)
            } else {
                (FilterAction::Handle, FilterState { rows_in_table: (st.rows_in_table + 1) as u64, ..st })
            }
        } else {
            (FilterAction::Skip, st)
        },
        DumpEventView::TableEnd { .. } => (
            if st.in_matching_table {
                FilterAction::Handle
            } else {
                FilterAction::Skip
            },
            FilterState { in_matching_table: false, ..st },
        ),
        DumpEventView::EndOfFile => (FilterAction::HandleThenStop, st),
        _ => (
            if st.filter is None {
                FilterAction::Handle
            } else {
                FilterAction::Skip
            },
            st,
        ),
    }
}

/// Chooses the events of an export by table name and row limit.
pub struct EventFilter {
    filter_upper: Option<Vec<char>>,
    in_matching_table: bool,
    rows_in_table: u64,
    row_limit: u64,
}

impl EventFilter {
    /// The filter's state.
    pub closed spec fn state(&self) -> FilterState {
        FilterState {
            filter: match self.filter_upper {
                Some(f) => Some(f@),
                None => None,
            },
            in_matching_table: self.in_matching_table,
            rows_in_table: self.rows_in_table,
            row_limit: self.row_limit,
        }
    }

    /// A filter for an optional table name (matched case-insensitively as
    /// a substring) and a row limit per table (0 for none).
    pub fn new(table_filter: Option<&str>, row_limit: u64) -> (f: Self)
        ensures
            f.state() == (FilterState {
                filter: match table_filter {
                    Some(t) => Some(unicode_upper(t@)),
                    None => None,
                },
                in_matching_table: false,
                rows_in_table: 0,
                row_limit,
            }),
    {
        let filter_upper = match table_filter {
            Some(t) => Some(to_uppercase_chars(t)),
            None => None,
        };
        EventFilter { filter_upper, in_matching_table: false, rows_in_table: 0, row_limit }
    }

    /// Rows passed in the current table.
    pub fn rows_in_table(&self) -> (n: u64)
        ensures
            n == self.state().rows_in_table,
    {
        self.rows_in_table
    }

    /// The decision for an event. For a row, the row counter must have
    /// room for another one.
    pub fn decide(&mut self, event: &DumpEvent) -> (a: FilterAction)
        requires
            event@ is Row ==> old(self).state().rows_in_table < u64::MAX,
        ensures
            (a, final(self).state()) == filter_step(old(self).state(), event@),
    {
        match event {
            DumpEvent::TableStart { table_name, .. } => {
                let m = match &self.filter_upper {
                    Some(f) => {
                        let upper = to_uppercase_chars(table_name.as_str());
                        chars_contain(upper.as_slice(), f.as_slice())
                    },
                    None => true,
                };
                self.in_matching_table = m;
                self.rows_in_table = 0;
                if m {
                    FilterAction::Handle
                } else {
                    FilterAction::Skip
                }
            },
            DumpEvent::Row { .. } => {
                if self.in_matching_table {
                    if self.row_limit > 0 && self.rows_in_table >= self.row_limit {
                        FilterAction::Skip
                    } else {
                        self.rows_in_table = self.rows_in_table + 1;
                        FilterAction::Handle
                    }
                } else {
                    FilterAction::Skip
                }
            },
            DumpEvent::TableEnd { .. } => {
                let m = self.in_matching_table;
                self.in_matching_table = false;
                if m {
                    FilterAction::Handle
                } else {
                    FilterAction::Skip
                }
            },
            DumpEvent::EndOfFile => FilterAction::HandleThenStop,
            _ => {
                if self.filter_upper.is_none() {
                    FilterAction::Handle
                } else {
                    FilterAction::Skip
                }
            },
        }
    }
}

// ─────────────────────────────────────────────────────────────
// Offsets
// ─────────────────────────────────────────────────────────────

/// Why an offset argument is not a number.
#[derive(Debug, Clone, Copy, PartialEq, Eq, Structural)]
pub enum OffsetError {
    /// Nothing to parse
    Empty,
    /// A character that is not a digit of the radix
    InvalidDigit,
    /// The number does not fit in a `usize`
    PosOverflow,
}

/// The value of a digit in radix 10 or 16 (`char::to_digit`).
pub open spec fn digit_value(c: char, radix: nat) -> Option<nat> {
    if '0' <= c <= '9' {
        Some((c as u32 - '0' as u32) as nat)
    } else if radix == 16 && 'a' <= c <= 'f' {
        Some((c as u32 - 'a' as u32 + 10) as nat)
    } else if radix == 16 && 'A' <= c <= 'F' {
        Some((c as u32 - 'A' as u32 + 10) as nat)
    } else {
        None
    }
}

/// The digits from `i` on, accumulated into `acc` left to right as
/// `usize::from_str_radix` does: a bad digit, then an overflow of the
/// multiplication or the addition, is an error.
pub open spec fn digits_value(s: Seq<char>, radix: nat, acc: nat, i: int) -> Result<nat, OffsetError>
    decreases s.len() - i,
{
    if i < 0 || i >= s.len() {
        Ok(acc)
    } else {
        match digit_value(s[i], radix) {
            None => Err(OffsetError::InvalidDigit),
            Some(x) => if acc * radix > usize::MAX || acc * radix + x > usize::MAX {
                Err(OffsetError::PosOverflow)
            } else {
                digits_value(s, radix, acc * radix + x, i + 1)
            },
        }
    }
}

/// An unsigned number in the radix, with an optional leading `+`.
pub open spec fn uint_value(s: Seq<char>, radix: nat) -> Result<nat, OffsetError> {
    if s.len() == 0 {
        Err(OffsetError::Empty)
    } else if s.len() == 1 && (s[0] == '+' || s[0] == '-') {
        Err(OffsetError::InvalidDigit)
    } else if s[0] == '+' {
        digits_value(s, radix, 0, 1)
    } else {
        digits_value(s, radix, 0, 0)
    }
}

/// An offset argument: hexadecimal after `0x` or `0X`, else decimal.
pub open spec fn offset_value(s: Seq<char>) -> Result<nat, OffsetError> {
    if s.len() >= 2 && s[0] == '0' && (s[1] == 'x' || s[1] == 'X') {
        uint_value(s.subrange(2, s.len() as int), 16)
    } else {
        uint_value(s, 10)
    }
}

fn uint_from_chars(s: &[char], radix: u32) -> (r: Result<usize, OffsetError>)
    requires
        radix == 10 || radix == 16,
    ensures
        match uint_value(s@, radix as nat) {
            Ok(v) => r == Ok::<usize, OffsetError>(v as usize),
            Err(e) => r == Err::<usize, OffsetError>(e),
        },
{
    if s.len() == 0 {
        return Err(OffsetError::Empty);
    }
    if s.len() == 1 && (s[0] == '+' || s[0] == '-') {
        return Err(OffsetError::InvalidDigit);
    }
    let mut i: usize = if s[0] == '+' { 1 } else { 0 };
    let mut acc: usize = 0;
    let r = radix as usize;
    while i < s.len()
        invariant
            i <= s@.len(),
            r == radix,
            radix == 10 || radix == 16,
            uint_value(s@, radix as nat) == digits_value(s@, radix as nat, acc as nat, i as int),
        decreases s@.len() - i,
    {
        let c = s[i];
        let x: usize = if '0' <= c && c <= '9' {
            (c as u32 - '0' as u32) as usize
        } else if radix == 16 && 'a' <= c && c <= 'f' {
            (c as u32 - 'a' as u32 + 10) as usize
        } else if radix == 16 && 'A' <= c && c <= 'F' {
            (c as u32 - 'A' as u32 + 10) as usize
        } else {
            return Err(OffsetError::InvalidDigit);
        };
        if acc > usize::MAX / r {
            assert(acc * r > usize::MAX) by (nonlinear_arith)
                requires
                    acc > usize::MAX / r,
                    r > 0,
            ;
            return Err(OffsetError::PosOverflow);
        }
        assert(acc * r <= usize::MAX) by (nonlinear_arith)
            requires
                acc <= usize::MAX / r,
                r > 0,
        ;
        let m = acc * r;
        if m > usize::MAX - x {
            return Err(OffsetError::PosOverflow);
        }
        acc = m + x;
        i = i + 1;
    }
    Ok(acc)
}

/// Parses an offset argument: `0x`/`0X` then hexadecimal digits, or
/// decimal digits; a leading `+` is allowed.
pub fn parse_offset(s: &str) -> (r: Result<usize, OffsetError>)
    ensures
        match offset_value(s@) {
            Ok(v) => r == Ok::<usize, OffsetError>(v as usize),
            Err(e) => r == Err::<usize, OffsetError>(e),
        },
{
    let v = chars_of(s);
    if v.len() >= 2 && v[0] == '0' && (v[1] == 'x' || v[1] == 'X') {
        let rest = v.as_slice().split_at(2).1;
        assert(rest@ =~= v@.subrange(2, v@.len() as int));
        uint_from_chars(rest, 16)
    } else {
        uint_from_chars(v.as_slice(), 10)
    }
}

/// The byte range a hex dump of `length` bytes from `offset` shows in a
/// file of `file_len` bytes: cut at the end of the file, and none when the
/// offset is at or past the end.
pub fn hexdump_range(offset: usize, length: usize, file_len: usize) -> (r: Option<(usize, usize)>)
    requires
        offset + length <= usize::MAX,
    ensures
        offset >= file_len ==> r is None,
        offset < file_len ==> r == Some(
            (offset, if offset + length < file_len { (offset + length) as usize } else { file_len }),
        ),
{
    let end = if offset + length < file_len { offset + length } else { file_len };
    if offset >= file_len {
        None
    } else {
        Some((offset, end))
    }
}

} // verus!
