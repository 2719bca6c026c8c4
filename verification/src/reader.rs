//! `DumpReader` over the bytes of a dump, and the high-level events it yields.

use vstd::prelude::*;
use vstd::utf8::{valid_utf8, decode_utf8};
use crate::error::{DumpError, DumpErrorView};
use crate::parser::{
    RecordIter, RecordStep, NlsEncoding, record_step, records_start_spec, header_from_data,
    row_cols, cols_view, text_of, nls_encoding_of, with_version, with_charset, first_nul, printable,
    version_slice_overruns, lemma_record_step_bounds, find_records_start, parse_header_record,
    parse_row_data, charset_to_encoding, decode_text_chars,
};
use crate::text::{byte_chars, chars_of, lit, string_from_chars, trim_char, trim_char_chars,
    trim_chars, trim_ws, unicode_upper, utf8_chars};
use crate::types::{DumpHeader, DumpHeaderView, RawRecord, RecordType, empty_header, record_type_of};

verus! {

// ─────────────────────────────────────────────────────────────
// Events
// ─────────────────────────────────────────────────────────────

/// A high-level event of a dump.
#[derive(Debug)]
pub enum DumpEvent {
    /// File header metadata
    Header(DumpHeader),
    /// A DDL statement (CREATE TABLE, CREATE INDEX, GRANT, ...)
    DdlStatement { sql: String, byte_offset: usize },
    /// Start of a table's rows
    TableStart { owner: String, table_name: String },
    /// One row; `None` is a NULL column
    Row {
        table: String,
        owner: String,
        row_index: u64,
        raw_values: Vec<Option<Vec<u8>>>,
        byte_offset: usize,
    },
    /// End of a table's rows
    TableEnd { table: String, rows_written: u64 },
    /// End of the dump
    EndOfFile,
    /// A record of an unknown type
    Unknown { record_type: u16, byte_offset: usize, length: usize },
}

/// A `DumpEvent` with strings and bytes seen as sequences.
pub enum DumpEventView {
    Header(DumpHeaderView),
    DdlStatement { sql: Seq<char>, byte_offset: usize },
    TableStart { owner: Seq<char>, table_name: Seq<char> },
    Row {
        table: Seq<char>,
        owner: Seq<char>,
        row_index: u64,
        raw_values: Seq<Option<Seq<u8>>>,
        byte_offset: usize,
    },
    TableEnd { table: Seq<char>, rows_written: u64 },
    EndOfFile,
    Unknown { record_type: u16, byte_offset: usize, length: usize },
}

/// Owned column values seen through their bytes.
pub open spec fn values_view(v: Seq<Option<Vec<u8>>>) -> Seq<Option<Seq<u8>>> {
    v.map_values(|o: Option<Vec<u8>>| match o {
        Some(b) => Some(b@),
        None => None,
    })
}

impl View for DumpEvent {
    type V = DumpEventView;

    open spec fn view(&self) -> DumpEventView {
        match self {
            DumpEvent::Header(h) => DumpEventView::Header(h@),
            DumpEvent::DdlStatement { sql, byte_offset } => DumpEventView::DdlStatement {
                sql: sql@,
                byte_offset: *byte_offset,
            },
            DumpEvent::TableStart { owner, table_name } => DumpEventView::TableStart {
                owner: owner@,
                table_name: table_name@,
            },
            DumpEvent::Row { table, owner, row_index, raw_values, byte_offset } => DumpEventView::Row {
                table: table@,
                owner: owner@,
                row_index: *row_index,
                raw_values: values_view(raw_values@),
                byte_offset: *byte_offset,
            },
            DumpEvent::TableEnd { table, rows_written } => DumpEventView::TableEnd {
                table: table@,
                rows_written: *rows_written,
            },
            DumpEvent::EndOfFile => DumpEventView::EndOfFile,
            DumpEvent::Unknown { record_type, byte_offset, length } => DumpEventView::Unknown {
                record_type: *record_type,
                byte_offset: *byte_offset,
                length: *length,
            },
        }
    }
}

/// What a call of `EventIter::next` returns, seen through views.
pub open spec fn event_result_view(r: Option<Result<DumpEvent, DumpError>>) -> Option<
    Result<DumpEventView, DumpErrorView>,
> {
    match r {
        None => None,
        Some(Ok(e)) => Some(Ok(e@)),
        Some(Err(e)) => Some(Err(e@)),
    }
}

/// Text of a record, in the character set, with NULs trimmed from both ends.
pub open spec fn record_text(enc: Option<NlsEncoding>, d: Seq<u8>) -> Seq<char> {
    trim_char(text_of(enc, d), '\0')
}

/// The printable ASCII bytes of `s`, in order, as characters.
pub open spec fn printable_chars(s: Seq<u8>) -> Seq<char>
    decreases s.len(),
{
    if s.len() == 0 {
        Seq::empty()
    } else if printable(s.last()) {
        printable_chars(s.drop_last()).push(s.last() as char)
    } else {
        printable_chars(s.drop_last())
    }
}

/// The table name at the start of a TableDataStart record: the printable
/// bytes among the first 64 before the first NUL, or `UNKNOWN`.
pub open spec fn table_name_of(d: Seq<u8>) -> Seq<char> {
    let end = match first_nul(d, 0) {
        Some(e) => e,
        None => d.len() as int,
    };
    let k = if end < 64 {
        end
    } else {
        64
    };
    let s = printable_chars(d.subrange(0, k));
    if s.len() == 0 {
        "UNKNOWN"@
    } else {
        s
    }
}

/// True for the record types reported as DDL statements.
pub open spec fn is_ddl_type(t: RecordType) -> bool {
    t is DdlStatement || t is ViewDefinition || t is TriggerDefinition || t is ProcedureBody
        || t is SequenceDefinition || t is SynonymDefinition
}

/// The state of the event reader between calls.
pub struct EventState {
    pub pos: int,
    pub table: Option<Seq<char>>,
    pub owner: Seq<char>,
    pub rows: u64,
}

/// The table name of the state, empty when no table is open.
pub open spec fn table_or_empty(t: Option<Seq<char>>) -> Seq<char> {
    match t {
        Some(s) => s,
        None => Seq::empty(),
    }
}

/// One call of the event reader: the event (or error, or end) and the
/// next state. Records that yield no event (DDL that is only white space,
/// schema info, other known types) are passed over.
pub open spec fn event_step(d: Seq<u8>, enc: Option<NlsEncoding>, st: EventState) -> (
    Option<Result<DumpEventView, DumpErrorView>>,
    EventState,
)
    decreases d.len() - st.pos,
{
    if st.pos < 0 {
        (None, st)
    } else {
        match record_step(d, st.pos) {
            RecordStep::End => (None, st),
            RecordStep::Fail { at, next } => (
                Some(Err(DumpErrorView::UnexpectedEof { offset: at as usize })),
                EventState { pos: next, ..st },
            ),
            RecordStep::Rec { code, start, len, next } => {
                proof {
                    lemma_record_step_bounds(d, st.pos);
                }
                let data = d.subrange(start, start + len);
                let st1 = EventState { pos: next, ..st };
                let off = st.pos as usize;
                let t = record_type_of(code);
                if t is FileHeader {
                    (Some(Ok(DumpEventView::Header(header_from_data(data)))), st1)
                } else if is_ddl_type(t) {
                    let sql = record_text(enc, data);
                    if trim_ws(sql).len() > 0 {
                        (Some(Ok(DumpEventView::DdlStatement { sql, byte_offset: off })), st1)
                    } else {
                        event_step(d, enc, st1)
                    }
                } else if t is TableDataStart {
                    let name = table_name_of(data);
                    (
                        Some(Ok(DumpEventView::TableStart { owner: st.owner, table_name: name })),
                        EventState { table: Some(name), rows: 0, ..st1 },
                    )
                } else if t is RowData {
                    match row_cols(data, 0) {
                        Err(at) => (Some(Err(DumpErrorView::UnexpectedEof { offset: at as usize })), st1),
                        Ok(cols) => (
                            Some(
                                Ok(
                                    DumpEventView::Row {
                                        table: table_or_empty(st.table),
                                        owner: st.owner,
                                        row_index: st.rows,
                                        raw_values: cols,
                                        byte_offset: off,
                                    },
                                ),
                            ),
                            EventState { rows: (st.rows + 1) as u64, ..st1 },
                        ),
                    }
                } else if t is TableDataEnd {
                    (
                        Some(
                            Ok(
                                DumpEventView::TableEnd {
                                    table: table_or_empty(st.table),
                                    rows_written: st.rows,
                                },
                            ),
                        ),
                        EventState { table: None, rows: 0, ..st1 },
                    )
                } else if t is SchemaInfo {
                    event_step(
                        d,
                        enc,
                        EventState { owner: trim_char(record_text(enc, data), '\0'), ..st1 },
                    )
                } else if t is EndOfFile {
                    (Some(Ok(DumpEventView::EndOfFile)), st1)
                } else if t is Unknown {
                    (
                        Some(
                            Ok(
                                DumpEventView::Unknown {
                                    record_type: code,
                                    byte_offset: off,
                                    length: len as usize,
                                },
                            ),
                        ),
                        st1,
                    )
                } else {
                    event_step(d, enc, st1)
                }
            },
        }
    }
}

/// Decodes record text in the character set (lossy UTF-8 when there is
/// none) and trims NULs from both ends.
fn decode_text(data: &[u8], enc: Option<NlsEncoding>) -> (s: String)
    ensures
        s@ == record_text(enc, data@),
{
    let v = decode_text_chars(enc, data);
    string_from_chars(trim_char_chars(v.as_slice(), '\0'))
}

/// The table name at the start of a TableDataStart record.
fn extract_table_name_from_context(data: &[u8]) -> (s: String)
    ensures
        s@ == table_name_of(data@),
{
    let ghost d = data@;
    let mut end: usize = 0;
    while end < data.len() && data[end] != 0
        invariant
            d == data@,
            end <= d.len(),
            first_nul(d, 0) == first_nul(d, end as int),
        decreases d.len() - end,
    {
        end = end + 1;
    }
    let k: usize = if end < 64 { end } else { 64 };
    let mut v: Vec<char> = Vec::new();
    let mut i: usize = 0;
    while i < k
        invariant
            d == data@,
            k <= d.len(),
            i <= k,
            v@ == printable_chars(d.subrange(0, i as int)),
        decreases k - i,
    {
        let b = data[i];
        if b >= 0x20 && b < 0x7F {
            v.push(b as char);
        }
        i = i + 1;
        assert(d.subrange(0, i as int).drop_last() =~= d.subrange(0, i - 1));
    }
    if v.len() == 0 {
        proof {
            reveal_strlit("UNKNOWN");
        }
        string_from_chars(chars_of("UNKNOWN"))
    } else {
        string_from_chars(v)
    }
}

// ─────────────────────────────────────────────────────────────
// EventIter
// ─────────────────────────────────────────────────────────────

/// Iterator over the events of a dump.
pub struct EventIter<'a> {
    raw: RecordIter<'a>,
    charset_enc: Option<NlsEncoding>,
    current_table: Option<String>,
    current_owner: String,
    row_count: u64,
}

/// An optional string seen as an optional sequence.
pub open spec fn opt_string_view(t: Option<String>) -> Option<Seq<char>> {
    match t {
        Some(s) => Some(s@),
        None => None,
    }
}

impl<'a> EventIter<'a> {
    #[verifier::type_invariant]
    spec fn rows_bounded(&self) -> bool {
        self.row_count as int <= self.raw.pos()
    }

    /// The bytes of the dump.
    pub closed spec fn bytes(&self) -> Seq<u8> {
        self.raw.bytes()
    }

    /// The encoding used for text.
    pub closed spec fn encoding(&self) -> Option<NlsEncoding> {
        self.charset_enc
    }

    /// The reader state.
    pub closed spec fn state(&self) -> EventState {
        EventState {
            pos: self.raw.pos(),
            table: opt_string_view(self.current_table),
            owner: self.current_owner@,
            rows: self.row_count,
        }
    }

    /// The position and the length of the data are `usize` values.
    pub proof fn lemma_fits(&self)
        ensures
            0 <= self.state().pos <= usize::MAX,
            self.bytes().len() <= usize::MAX,
    {
        self.raw.lemma_pos_fits();
    }

    /// The next event, or `None` at the end of the data. Errors do not end
    /// the iteration.
    pub fn next(&mut self) -> (r: Option<Result<DumpEvent, DumpError>>)
        ensures
            final(self).bytes() == old(self).bytes(),
            final(self).encoding() == old(self).encoding(),
            (event_result_view(r), final(self).state()) == event_step(
                old(self).bytes(),
                old(self).encoding(),
                old(self).state(),
            ),
    {
        proof {
            use_type_invariant(&*self);
        }
        let ghost d = self.raw.bytes();
        let ghost enc = self.charset_enc;
        let ghost st0 = self.state();
        loop
            invariant
                d == self.raw.bytes(),
                enc == self.charset_enc,
                d == old(self).bytes(),
                enc == old(self).encoding(),
                st0 == old(self).state(),
                self.raw.pos() >= 0,
                self.row_count as int <= self.raw.pos(),
                event_step(d, enc, st0) == event_step(d, enc, self.state()),
            decreases d.len() - self.raw.pos(),
        {
            proof {
                lemma_record_step_bounds(d, self.raw.pos());
            }
            let ghost st = self.state();
            let mut raw = self.raw;
            let next = raw.next();
            self.raw = raw;
            let rec = match next {
                None => return None,
                Some(Err(e)) => return Some(Err(e)),
                Some(Ok(r)) => r,
            };
            match rec.record_type {
                RecordType::FileHeader => {
                    let header = parse_header_record(&rec);
                    return Some(Ok(DumpEvent::Header(header)));
                },
                RecordType::DdlStatement
                | RecordType::ViewDefinition
                | RecordType::TriggerDefinition
                | RecordType::ProcedureBody
                | RecordType::SequenceDefinition
                | RecordType::SynonymDefinition => {
                    let sql = decode_text(rec.data, self.charset_enc);
                    let trimmed = trim_chars(chars_of(sql.as_str()).as_slice());
                    if trimmed.len() > 0 {
                        return Some(Ok(DumpEvent::DdlStatement { sql, byte_offset: rec.offset }));
                    }
                },
                RecordType::TableDataStart => {
                    let name = extract_table_name_from_context(rec.data);
                    self.current_table = Some(name.clone());
                    self.row_count = 0;
                    return Some(
                        Ok(
                            DumpEvent::TableStart {
                                owner: self.current_owner.clone(),
                                table_name: name,
                            },
                        ),
                    );
                },
                RecordType::RowData => {
                    let offset = rec.offset;
                    let raw_cols = match parse_row_data(rec.data) {
                        Ok(cols) => cols,
                        Err(e) => return Some(Err(e)),
                    };
                    let mut raw_values: Vec<Option<Vec<u8>>> = Vec::new();
                    let mut i: usize = 0;
                    while i < raw_cols.len()
                        invariant
                            i <= raw_cols@.len(),
                            raw_values@.len() == i,
                            values_view(raw_values@) == cols_view(raw_cols@).subrange(0, i as int),
                        decreases raw_cols@.len() - i,
                    {
                        let ghost old_rv = raw_values@;
                        let item: Option<Vec<u8>> = match raw_cols[i] {
                            Some(s) => Some(vstd::slice::slice_to_vec(s)),
                            None => None,
                        };
                        assert(match item {
                            Some(b) => Some(b@),
                            None => None::<Seq<u8>>,
                        } == cols_view(raw_cols@)[i as int]);
                        raw_values.push(item);
                        assert(raw_values@ == old_rv.push(item));
                        i = i + 1;
                        assert forall|j: int| 0 <= j < i implies #[trigger] values_view(raw_values@)[j]
                            == cols_view(raw_cols@)[j] by {
                            if j < i - 1 {
                                assert(raw_values@[j] == old_rv[j]);
                                assert(values_view(old_rv)[j] == cols_view(raw_cols@).subrange(0, i - 1)[j]);
                            }
                        }
                        assert(values_view(raw_values@) =~= cols_view(raw_cols@).subrange(0, i as int));
                    }
                    assert(cols_view(raw_cols@).subrange(0, i as int) =~= cols_view(raw_cols@));
                    let idx = self.row_count;
                    proof {
                        self.raw.lemma_pos_fits();
                    }
                    self.row_count = self.row_count + 1;
                    let table = match &self.current_table {
                        Some(t) => t.clone(),
                        None => String::new(),
                    };
                    return Some(
                        Ok(
                            DumpEvent::Row {
                                table,
                                owner: self.current_owner.clone(),
                                row_index: idx,
                                raw_values,
                                byte_offset: offset,
                            },
                        ),
                    );
                },
                RecordType::TableDataEnd => {
                    let table = match &self.current_table {
                        Some(t) => t.clone(),
                        None => String::new(),
                    };
                    self.current_table = None;
                    let rows = self.row_count;
                    self.row_count = 0;
                    return Some(Ok(DumpEvent::TableEnd { table, rows_written: rows }));
                },
                RecordType::SchemaInfo => {
                    let text = decode_text(rec.data, self.charset_enc);
                    let owner = trim_char_chars(chars_of(text.as_str()).as_slice(), '\0');
                    self.current_owner = string_from_chars(owner);
                },
                RecordType::EndOfFile => {
                    return Some(Ok(DumpEvent::EndOfFile));
                },
                RecordType::Unknown(code) => {
                    return Some(
                        Ok(
                            DumpEvent::Unknown {
                                record_type: code,
                                byte_offset: rec.offset,
                                length: rec.data.len(),
                            },
                        ),
                    );
                },
                _ => {},
            }
        }
    }
}

// ─────────────────────────────────────────────────────────────
// DumpReader
// ─────────────────────────────────────────────────────────────

/// How many records after the file header are scanned for header facts.
pub const HEADER_SCAN_RECORDS: usize = 20;

/// The header facts gathered from at most `k` records from `pos`: a
/// FileHeader record replaces the header, a CharacterSet record that is
/// valid UTF-8 sets the character set (NULs trimmed), EndOfFile stops.
pub open spec fn scan_header(d: Seq<u8>, pos: int, k: nat, h: DumpHeaderView) -> Result<
    DumpHeaderView,
    DumpErrorView,
>
    decreases k,
{
    if k == 0 || pos < 0 {
        Ok(h)
    } else {
        match record_step(d, pos) {
            RecordStep::End => Ok(h),
            RecordStep::Fail { at, next } => Err(DumpErrorView::UnexpectedEof { offset: at as usize }),
            RecordStep::Rec { code, start, len, next } => {
                let data = d.subrange(start, start + len);
                let t = record_type_of(code);
                if t is FileHeader {
                    scan_header(d, next, (k - 1) as nat, header_from_data(data))
                } else if t is CharacterSet {
                    let h2 = if valid_utf8(data) {
                        with_charset(h, trim_char(decode_utf8(data), '\0'))
                    } else {
                        h
                    };
                    scan_header(d, next, (k - 1) as nat, h2)
                } else if t is EndOfFile {
                    Ok(h)
                } else {
                    scan_header(d, next, (k - 1) as nat, h)
                }
            },
        }
    }
}

/// What opening a dump gives: the offset of its first record, its header
/// and the encoding of its character set; or the error.
pub open spec fn reader_spec(d: Seq<u8>) -> Result<(int, DumpHeaderView, Option<NlsEncoding>), DumpErrorView> {
    match records_start_spec(d) {
        Err(e) => Err(e),
        Ok((p, v)) => match scan_header(d, p, HEADER_SCAN_RECORDS as nat, with_version(empty_header(), v)) {
            Err(e) => Err(e),
            Ok(h) => Ok((p, h, nls_encoding_of(unicode_upper(h.charset)))),
        },
    }
}

/// A dump's bytes (borrowed, so a memory-mapped file is read in place),
/// with its header already read.
pub struct DumpReader<'a> {
    data: &'a [u8],
    records_start: usize,
    header: DumpHeader,
    charset_enc: Option<NlsEncoding>,
}

impl<'a> DumpReader<'a> {
    /// The bytes of the dump.
    pub closed spec fn bytes(&self) -> Seq<u8> {
        self.data@
    }

    /// Where the records begin.
    pub closed spec fn records_start(&self) -> int {
        self.records_start as int
    }

    /// The header.
    pub closed spec fn header_view(&self) -> DumpHeaderView {
        self.header@
    }

    /// The encoding of the dump's character set, if known.
    pub closed spec fn encoding(&self) -> Option<NlsEncoding> {
        self.charset_enc
    }

    /// Reads the header of a dump: finds where records begin, then scans
    /// the first records for the file header and the character set.
    pub fn from_bytes(data: &'a [u8]) -> (r: Result<DumpReader<'a>, DumpError>)
        requires
            !version_slice_overruns(data@),
        ensures
            match reader_spec(data@) {
                Ok((p, h, enc)) => r matches Ok(rd) && rd.bytes() == data@ && rd.records_start() == p
                    && rd.header_view() == h && rd.encoding() == enc,
                Err(e) => r matches Err(e2) && e2@ == e,
            },
    {
        let (records_start, version) = match find_records_start(data) {
            Ok(x) => x,
            Err(e) => return Err(e),
        };
        let mut header = DumpHeader::default();
        header.export_version = version;
        let ghost d = data@;
        let ghost h0 = header@;
        assert(h0 == with_version(empty_header(), version@));
        let mut it = RecordIter::new(data, records_start);
        let mut n: usize = 0;
        while n < HEADER_SCAN_RECORDS
            invariant_except_break
                scan_header(d, records_start as int, HEADER_SCAN_RECORDS as nat, h0)
                    == scan_header(d, it.pos(), (HEADER_SCAN_RECORDS - n) as nat, header@),
            invariant
                d == data@,
                it.bytes() == d,
                it.pos() >= 0,
                n <= HEADER_SCAN_RECORDS,
                records_start_spec(d) == Ok::<(int, Seq<char>), DumpErrorView>((records_start as int, version@)),
                h0 == with_version(empty_header(), version@),
            ensures
                scan_header(d, records_start as int, HEADER_SCAN_RECORDS as nat, h0) == Ok::<DumpHeaderView, DumpErrorView>(header@),
            decreases HEADER_SCAN_RECORDS - n,
        {
            proof {
                lemma_record_step_bounds(d, it.pos());
            }
            let rec = match it.next() {
                None => break,
                Some(Err(e)) => return Err(e),
                Some(Ok(r)) => r,
            };
            match rec.record_type {
                RecordType::FileHeader => {
                    header = parse_header_record(&rec);
                },
                RecordType::CharacterSet => {
                    match utf8_chars(rec.data) {
                        Some(chars) => {
                            let trimmed = trim_char_chars(chars.as_slice(), '\0');
                            header.charset = string_from_chars(trimmed);
                        },
                        None => {},
                    }
                },
                RecordType::EndOfFile => {
                    break;
                },
                _ => {},
            }
            n = n + 1;
        }
        let charset_enc = charset_to_encoding(header.charset.as_str());
        Ok(DumpReader { data, records_start, header, charset_enc })
    }

    /// The header read from the dump.
    pub fn header(&self) -> (h: &DumpHeader)
        ensures
            h@ == self.header_view(),
    {
        &self.header
    }

    /// The events of the dump, from its first record on.
    pub fn events(&self) -> (it: EventIter<'a>)
        ensures
            it.bytes() == self.bytes(),
            it.encoding() == self.encoding(),
            it.state() == (EventState {
                pos: self.records_start(),
                table: None,
                owner: Seq::empty(),
                rows: 0,
            }),
    {
        EventIter {
            raw: RecordIter::new(self.data, self.records_start),
            charset_enc: self.charset_enc,
            current_table: None,
            current_owner: String::new(),
            row_count: 0,
        }
    }

    /// The raw records of the dump, from its first record on.
    pub fn raw_records(&self) -> (it: RecordIter<'a>)
        ensures
            it.bytes() == self.bytes(),
            it.pos() == self.records_start(),
    {
        RecordIter::new(self.data, self.records_start)
    }

    /// The size of the dump in bytes.
    pub fn file_size(&self) -> (n: usize)
        ensures
            n == self.bytes().len(),
    {
        self.data.len()
    }
}

} // verus!
