//! Parser for Oracle EXP (classic export) dump files.
//!
//! ```text
//! HEADER: a few bytes, then "EXPORT:Vxx.xx.xx", then padding
//! RECORD 1..N: [type: u16 BE][len: u16 BE][data: len bytes]
//!              len == 0xFFFF: the real length follows as u32 BE
//! ```
//!
//! Row data is a run of columns, each `[indicator: u8][data]`:
//! `0xFF` is NULL, `0xFE` is followed by a u32 BE length, `0x00` is an
//! empty value, any other indicator is the length itself.

use vstd::prelude::*;
use vstd::utf8::{decode_utf8, valid_utf8};
use crate::error::{DumpError, DumpErrorView};
pub use crate::number::{decode_oracle_date, decode_oracle_number, decode_oracle_timestamp};
use crate::number::{date_text, number_digits_in_range, number_text, timestamp_text};
use crate::types::{ColumnValue, ColumnValueView, OracleType, DumpHeader, DumpHeaderView, RawRecord, RecordType, empty_header, record_type_of};
use crate::text::{all_ascii, byte_chars, chars_contain, chars_contain_char, chars_of, chars_start_with,
    ascii_upper, chars_eq, contains_seq, lemma_split_on_push, to_uppercase_chars, unicode_upper, lossy_chars, split_on, starts_with, string_from_chars,
    trim_end_chars, trim_end_ws, utf8_lossy};

verus! {

/// Big-endian u16 at `p`.
pub open spec fn be16(d: Seq<u8>, p: int) -> int {
    d[p] as int * 256 + d[p + 1] as int
}

/// Big-endian u32 at `p`.
pub open spec fn be32(d: Seq<u8>, p: int) -> int {
    d[p] as int * 16777216 + d[p + 1] as int * 65536 + d[p + 2] as int * 256 + d[p + 3] as int
}

fn read_u8(data: &[u8], pos: usize) -> (r: Result<u8, DumpError>)
    ensures
        pos < data@.len() ==> r == Ok::<u8, DumpError>(data@[pos as int]),
        pos >= data@.len() ==> (r matches Err(e) && e@ == (DumpErrorView::UnexpectedEof { offset: pos })),
{
    if pos < data.len() {
        Ok(data[pos])
    } else {
        Err(DumpError::UnexpectedEof { offset: pos })
    }
}

fn read_u16be(data: &[u8], pos: usize) -> (r: Result<u16, DumpError>)
    ensures
        pos + 2 <= data@.len() ==> (r matches Ok(v) && v as int == be16(data@, pos as int)),
        pos + 2 > data@.len() ==> (r matches Err(e) && e@ == (DumpErrorView::UnexpectedEof { offset: pos })),
{
    if pos > data.len() || data.len() - pos < 2 {
        return Err(DumpError::UnexpectedEof { offset: pos });
    }
    Ok(data[pos] as u16 * 256 + data[pos + 1] as u16)
}

fn read_u32be(data: &[u8], pos: usize) -> (r: Result<u32, DumpError>)
    ensures
        pos + 4 <= data@.len() ==> (r matches Ok(v) && v as int == be32(data@, pos as int)),
        pos + 4 > data@.len() ==> (r matches Err(e) && e@ == (DumpErrorView::UnexpectedEof { offset: pos })),
{
    if pos > data.len() || data.len() - pos < 4 {
        return Err(DumpError::UnexpectedEof { offset: pos });
    }
    Ok(data[pos] as u32 * 16777216 + data[pos + 1] as u32 * 65536 + data[pos + 2] as u32 * 256
        + data[pos + 3] as u32)
}

// ─────────────────────────────────────────────────────────────
// Record framing
// ─────────────────────────────────────────────────────────────

/// What reading one record at a position gives.
pub enum RecordStep {
    /// The position is at or past the end: no more records.
    End,
    /// The record is cut short: `UnexpectedEof` at `at`, reading resumes at `next`.
    Fail { at: int, next: int },
    /// A record of type `code` whose data is `start..start + len`; the next one starts at `next`.
    Rec { code: u16, start: int, len: int, next: int },
}

/// The record framed at `pos`.
pub open spec fn record_step(d: Seq<u8>, pos: int) -> RecordStep {
    if pos >= d.len() {
        RecordStep::End
    } else if pos + 2 > d.len() {
        RecordStep::Fail { at: pos, next: pos }
    } else if pos + 4 > d.len() {
        RecordStep::Fail { at: pos + 2, next: pos + 2 }
    } else if be16(d, pos + 2) == 0xFFFF {
        if pos + 8 > d.len() {
            RecordStep::Fail { at: pos + 4, next: pos + 4 }
        } else if pos + 8 + be32(d, pos + 4) > d.len() {
            RecordStep::Fail { at: pos + 8, next: pos + 8 }
        } else {
            RecordStep::Rec {
                code: be16(d, pos) as u16,
                start: pos + 8,
                len: be32(d, pos + 4),
                next: pos + 8 + be32(d, pos + 4),
            }
        }
    } else if pos + 4 + be16(d, pos + 2) > d.len() {
        RecordStep::Fail { at: pos + 4, next: pos + 4 }
    } else {
        RecordStep::Rec {
            code: be16(d, pos) as u16,
            start: pos + 4,
            len: be16(d, pos + 2),
            next: pos + 4 + be16(d, pos + 2),
        }
    }
}

/// Facts about every step: it never moves backwards, and a record moves
/// forward by at least its 4-byte header and lies inside the data.
pub proof fn lemma_record_step_bounds(d: Seq<u8>, pos: int)
    requires
        0 <= pos,
    ensures
        match record_step(d, pos) {
            RecordStep::End => pos >= d.len(),
            RecordStep::Fail { at, next } => pos <= at == next <= d.len() && pos < d.len(),
            RecordStep::Rec { code, start, len, next } => pos + 4 <= start && 0 <= len && next
                == start + len && next <= d.len() && code as int == be16(d, pos),
        },
{
}

/// Iterator over the raw records of a dump; each record's data is a slice
/// of the dump.
#[derive(Clone, Copy)]
pub struct RecordIter<'a> {
    data: &'a [u8],
    pos: usize,
}

impl<'a> RecordIter<'a> {
    /// The bytes being read.
    pub closed spec fn bytes(&self) -> Seq<u8> {
        self.data@
    }

    /// The current position.
    pub closed spec fn pos(&self) -> int {
        self.pos as int
    }

    /// The position is a `usize`.
    pub proof fn lemma_pos_fits(&self)
        ensures
            0 <= self.pos() <= usize::MAX,
            self.bytes().len() <= usize::MAX,
    {
        vstd::slice::axiom_spec_len(self.data);
    }

    /// An iterator that reads records from `start` on.
    pub fn new(data: &'a [u8], start: usize) -> (r: Self)
        ensures
            r.bytes() == data@,
            r.pos() == start,
    {
        Self { data, pos: start }
    }

    /// The current byte offset.
    pub fn offset(&self) -> (r: usize)
        ensures
            r as int == self.pos(),
    {
        self.pos
    }

    /// Reads the next record. `None` at the end of the data; an
    /// `UnexpectedEof` when the record is cut short, after which reading
    /// resumes where the failed field began.
    pub fn next(&mut self) -> (r: Option<Result<RawRecord<'a>, DumpError>>)
        ensures
            final(self).bytes() == old(self).bytes(),
            final(self).pos() >= old(self).pos(),
            match record_step(old(self).bytes(), old(self).pos()) {
                RecordStep::End => r is None && final(self).pos() == old(self).pos(),
                RecordStep::Fail { at, next } => r matches Some(Err(e)) && e@
                    == (DumpErrorView::UnexpectedEof { offset: at as usize }) && final(self).pos()
                    == next,
                RecordStep::Rec { code, start, len, next } => r matches Some(Ok(rec))
                    && final(self).pos() >= old(self).pos() + 4
                    && rec.record_type == record_type_of(code) && rec.offset == old(self).pos()
                    && rec.data@ == old(self).bytes().subrange(start, start + len)
                    && final(self).pos() == next,
            },
    {
        proof {
            lemma_record_step_bounds(self.data@, self.pos as int);
        }
        if self.pos >= self.data.len() {
            return None;
        }
        let offset = self.pos;
        let rtype_raw = match read_u16be(self.data, self.pos) {
            Ok(v) => v,
            Err(e) => return Some(Err(e)),
        };
        self.pos = self.pos + 2;
        let len_short = match read_u16be(self.data, self.pos) {
            Ok(v) => v,
            Err(e) => return Some(Err(e)),
        };
        self.pos = self.pos + 2;
        let data_len: usize = if len_short == 0xFFFF {
            let long_len = match read_u32be(self.data, self.pos) {
                Ok(v) => v,
                Err(e) => return Some(Err(e)),
            };
            self.pos = self.pos + 4;
            long_len as usize
        } else {
            len_short as usize
        };
        if data_len > self.data.len() - self.pos {
            return Some(Err(DumpError::UnexpectedEof { offset: self.pos }));
        }
        let payload = &self.data[self.pos..self.pos + data_len];
        self.pos = self.pos + data_len;
        Some(Ok(RawRecord { record_type: RecordType::from(rtype_raw), offset, data: payload }))
    }
}

// ─────────────────────────────────────────────────────────────
// Header detection
// ─────────────────────────────────────────────────────────────

/// Files shorter than this are never dumps.
pub const MIN_HEADER_LEN: usize = 20;

/// The bytes of `EXPORT:V`, present in every dump header.
pub open spec fn export_magic() -> Seq<u8> {
    seq![0x45u8, 0x58u8, 0x50u8, 0x4Fu8, 0x52u8, 0x54u8, 0x3Au8, 0x56u8]
}

/// The first `i >= from` with `EXPORT:V` at `i..i + 8` inside the first `w` bytes.
pub open spec fn first_magic(d: Seq<u8>, w: int, from: int) -> Option<int>
    decreases w - from,
{
    if from < 0 || from + 8 > w || w > d.len() {
        None
    } else if d.subrange(from, from + 8) == export_magic() {
        Some(from)
    } else {
        first_magic(d, w, from + 1)
    }
}

/// The length of the window searched for the magic: the first 64 bytes.
pub open spec fn magic_window(d: Seq<u8>) -> int {
    if d.len() < 64 {
        d.len() as int
    } else {
        64
    }
}

/// The first index `>= from` holding a byte below 0x20, if any.
pub open spec fn first_control(d: Seq<u8>, from: int) -> Option<int>
    decreases d.len() - from,
{
    if from < 0 || from >= d.len() {
        None
    } else if d[from] < 0x20 {
        Some(from)
    } else {
        first_control(d, from + 1)
    }
}

/// Where the version string that starts at `m` ends: at the first control
/// byte, or 20 bytes on when there is none.
pub open spec fn version_end(d: Seq<u8>, m: int) -> int {
    match first_control(d, m) {
        Some(e) => e,
        None => m + 20,
    }
}

/// True when a record type code in 1..=28 starts at `p`.
pub open spec fn plausible_record(d: Seq<u8>, p: int) -> bool {
    1 <= be16(d, p) <= 28
}

/// The first `p' >= p` with `p' < len - 4` where a plausible record type starts.
pub open spec fn first_record_from(d: Seq<u8>, p: int) -> Option<int>
    decreases d.len() - p,
{
    if p < 0 || p + 4 >= d.len() {
        None
    } else if plausible_record(d, p) {
        Some(p)
    } else {
        first_record_from(d, p + 1)
    }
}

/// True when `find_records_start` would slice past the end of the data:
/// the magic is found, no control byte follows it, and fewer than 20 bytes
/// remain from the magic on.
pub open spec fn version_slice_overruns(d: Seq<u8>) -> bool {
    &&& d.len() >= MIN_HEADER_LEN
    &&& first_magic(d, magic_window(d), 0) matches Some(m)
    &&& first_control(d, m) is None
    &&& m + 20 > d.len()
}

/// What `find_records_start` computes: the offset of the first record and
/// the version string, or the error.
pub open spec fn records_start_spec(d: Seq<u8>) -> Result<(int, Seq<char>), DumpErrorView> {
    if d.len() < MIN_HEADER_LEN {
        Err(DumpErrorView::InvalidMagic)
    } else {
        match first_magic(d, magic_window(d), 0) {
            None => Err(DumpErrorView::InvalidMagic),
            Some(m) => {
                let e = version_end(d, m);
                match first_record_from(d, e) {
                    None => Err(
                        DumpErrorView::ParseError {
                            offset: e as usize,
                            message: "Could not find first record"@,
                        },
                    ),
                    Some(p) => Ok((p, utf8_lossy(d.subrange(m, e)))),
                }
            },
        }
    }
}

/// Whether `find_records_start` would slice past the end of `data`
/// (see `version_slice_overruns`); callers test this first.
pub fn version_slice_would_overrun(data: &[u8]) -> (r: bool)
    ensures
        r == version_slice_overruns(data@),
{
    if data.len() < MIN_HEADER_LEN {
        return false;
    }
    let w: usize = if data.len() < 64 { data.len() } else { 64 };
    let ghost d = data@;
    let mut i: usize = 0;
    while i + 8 <= w
        invariant
            w == magic_window(d),
            d == data@,
            d.len() >= MIN_HEADER_LEN,
            i <= w,
            w <= d.len(),
            first_magic(d, w as int, 0) == first_magic(d, w as int, i as int),
        decreases w - i,
    {
        if magic_at(data, i) {
            assert(first_magic(d, w as int, i as int) == Some(i as int));
            let mut j: usize = i;
            while j < data.len()
                invariant
                    d == data@,
                    d.len() >= MIN_HEADER_LEN,
                    w == magic_window(d),
                    first_magic(d, w as int, 0) == Some(i as int),
                    i <= j <= d.len(),
                    first_control(d, i as int) == first_control(d, j as int),
                decreases d.len() - j,
            {
                if data[j] < 0x20 {
                    assert(first_control(d, j as int) == Some(j as int));
                    return false;
                }
                j = j + 1;
            }
            assert(first_control(d, j as int) is None);
            return i + 20 > data.len();
        }
        i = i + 1;
    }
    false
}

fn magic_at(data: &[u8], i: usize) -> (r: bool)
    requires
        i + 8 <= data@.len(),
    ensures
        r == (data@.subrange(i as int, i + 8) == export_magic()),
{
    let r = data[i] == 0x45 && data[i + 1] == 0x58 && data[i + 2] == 0x50 && data[i + 3] == 0x4F
        && data[i + 4] == 0x52 && data[i + 5] == 0x54 && data[i + 6] == 0x3A && data[i + 7] == 0x56;
    proof {
        let sub = data@.subrange(i as int, i + 8);
        if r {
            assert(sub =~= export_magic());
        } else {
            if sub == export_magic() {
                assert(sub[0] == 0x45u8 && sub[1] == 0x58u8 && sub[2] == 0x50u8 && sub[3] == 0x4Fu8
                    && sub[4] == 0x52u8 && sub[5] == 0x54u8 && sub[6] == 0x3Au8 && sub[7] == 0x56u8);
            }
        }
    }
    r
}

/// The offset just after the variable-length file header where records
/// begin, and the export version string (`EXPORT:V...`).
pub fn find_records_start(data: &[u8]) -> (r: Result<(usize, String), DumpError>)
    requires
        !version_slice_overruns(data@),
    ensures
        match records_start_spec(data@) {
            Ok((p, v)) => r matches Ok((p2, v2)) && p2 == p && v2@ == v,
            Err(e) => r matches Err(e2) && e2@ == e,
        },
        r matches Ok((_, v)) ==> 8 <= v@.len() && v@.subrange(0, 8) == "EXPORT:V"@,
{
    if data.len() < MIN_HEADER_LEN {
        return Err(DumpError::InvalidMagic);
    }
    let w: usize = if data.len() < 64 { data.len() } else { 64 };
    let ghost d = data@;
    let mut i: usize = 0;
    let mut found = false;
    while i + 8 <= w
        invariant_except_break
            !found,
        invariant
            w == magic_window(d),
            d == data@,
            i <= w,
            w <= d.len(),
            first_magic(d, w as int, 0) == first_magic(d, w as int, i as int),
        ensures
            found ==> i + 8 <= w && d.subrange(i as int, i + 8) == export_magic()
                && first_magic(d, w as int, 0) == first_magic(d, w as int, i as int),
            !found ==> i + 8 > w && first_magic(d, w as int, 0) == first_magic(d, w as int, i as int),
        decreases w - i,
    {
        if magic_at(data, i) {
            found = true;
            break;
        }
        i = i + 1;
    }
    if !found {
        return Err(DumpError::InvalidMagic);
    }
    let ver_start = i;
    assert(first_magic(d, w as int, 0) == Some(ver_start as int));
    let mut j: usize = ver_start;
    let mut ctl = false;
    while j < data.len()
        invariant_except_break
            !ctl,
        invariant
            d == data@,
            ver_start <= j <= data@.len(),
            first_control(d, ver_start as int) == first_control(d, j as int),
        ensures
            ctl ==> j < d.len() && d[j as int] < 0x20 && first_control(d, ver_start as int) == Some(j as int),
            !ctl ==> first_control(d, ver_start as int) is None,
        decreases data@.len() - j,
    {
        if data[j] < 0x20 {
            ctl = true;
            break;
        }
        j = j + 1;
    }
    let ver_end: usize = if ctl { j } else { ver_start + 20 };
    assert(ver_end == version_end(d, ver_start as int));
    let bytes = lossy_chars(&data[ver_start..ver_end]);
    proof {
        let sub = data@.subrange(ver_start as int, ver_end as int);
        assert(sub.subrange(0, 8) == export_magic());
        assert(all_ascii(sub.subrange(0, 8)));
        reveal_strlit("EXPORT:V");
        assert(byte_chars(sub.subrange(0, 8)) =~= "EXPORT:V"@);
    }
    let version = string_from_chars(bytes);
    match find_first_record(data, ver_end) {
        Ok(records_start) => Ok((records_start, version)),
        Err(e) => Err(e),
    }
}

/// Finds the first position from `from` on (before the last four bytes)
/// where a record type code in 1..=28 starts: the first plausible record
/// header. NUL padding holds no such code, so it is passed over.
fn find_first_record(data: &[u8], from: usize) -> (r: Result<usize, DumpError>)
    ensures
        match first_record_from(data@, from as int) {
            Some(p) => 0 <= p < data@.len() && r == Ok::<usize, DumpError>(p as usize),
            None => r matches Err(e) && e@ == (DumpErrorView::ParseError {
                offset: from,
                message: "Could not find first record"@,
            }),
        },
{
    let ghost d = data@;
    let mut pos = from;
    let end: usize = if data.len() >= 4 { data.len() - 4 } else { 0 };
    while pos < end
        invariant
            d == data@,
            end as int == (if d.len() >= 4 { d.len() - 4 } else { 0 }),
            from <= pos,
            first_record_from(d, from as int) == first_record_from(d, pos as int),
        decreases end - pos,
    {
        let rtype = data[pos] as u16 * 256 + data[pos + 1] as u16;
        if rtype >= 1 && rtype <= 28 {
            return Ok(pos);
        }
        pos = pos + 1;
    }
    let msg = string_from_chars(chars_of("Could not find first record"));
    Err(DumpError::ParseError { offset: from, message: msg })
}

// ─────────────────────────────────────────────────────────────
// Row data
// ─────────────────────────────────────────────────────────────

/// Indicator of a NULL column.
pub const COL_NULL: u8 = 0xFF;
/// Indicator of a long column: a u32 BE length follows.
pub const COL_LONG: u8 = 0xFE;

/// Puts `c` in front of the columns of `r`, or keeps its error.
pub open spec fn cons_col(
    c: Option<Seq<u8>>,
    r: Result<Seq<Option<Seq<u8>>>, int>,
) -> Result<Seq<Option<Seq<u8>>>, int> {
    match r {
        Ok(cols) => Ok(seq![c] + cols),
        Err(e) => Err(e),
    }
}

/// The columns encoded from `pos` to the end of `d`, or the offset of the
/// `UnexpectedEof` that cuts them short.
pub open spec fn row_cols(d: Seq<u8>, pos: int) -> Result<Seq<Option<Seq<u8>>>, int>
    decreases d.len() - pos,
{
    if pos < 0 || pos >= d.len() {
        Ok(Seq::empty())
    } else {
        let ind = d[pos];
        let p = pos + 1;
        if ind == COL_NULL {
            cons_col(None, row_cols(d, p))
        } else if ind == COL_LONG {
            if p + 4 > d.len() {
                Err(p)
            } else if p + 4 + be32(d, p) > d.len() {
                Err(p + 4)
            } else {
                cons_col(
                    Some(d.subrange(p + 4, p + 4 + be32(d, p))),
                    row_cols(d, p + 4 + be32(d, p)),
                )
            }
        } else if ind == 0 {
            cons_col(Some(Seq::empty()), row_cols(d, p))
        } else if p + ind > d.len() {
            Err(p)
        } else {
            cons_col(Some(d.subrange(p, p + ind)), row_cols(d, p + ind))
        }
    }
}

/// Columns seen through their bytes.
pub open spec fn cols_view(v: Seq<Option<&[u8]>>) -> Seq<Option<Seq<u8>>> {
    v.map_values(|o: Option<&[u8]>| match o {
        Some(s) => Some(s@),
        None => None,
    })
}

/// `prefix` in front of the columns of `r`, or the error of `r`.
pub open spec fn prefix_cols(
    prefix: Seq<Option<Seq<u8>>>,
    r: Result<Seq<Option<Seq<u8>>>, int>,
) -> Result<Seq<Option<Seq<u8>>>, int> {
    match r {
        Ok(cols) => Ok(prefix + cols),
        Err(e) => Err(e),
    }
}

proof fn lemma_prefix_cons(a: Seq<Option<Seq<u8>>>, c: Option<Seq<u8>>, r: Result<Seq<Option<Seq<u8>>>, int>)
    ensures
        prefix_cols(a, cons_col(c, r)) == prefix_cols(a + seq![c], r),
{
    if let Ok(cols) = r {
        assert(a + (seq![c] + cols) =~= (a + seq![c]) + cols);
    }
}

/// Splits a RowData record into its columns (`None` is NULL); each column
/// is a slice of `data`.
pub fn parse_row_data<'a>(data: &'a [u8]) -> (r: Result<Vec<Option<&'a [u8]>>, DumpError>)
    ensures
        match row_cols(data@, 0) {
            Ok(cols) => r matches Ok(v) && cols_view(v@) == cols,
            Err(at) => r matches Err(e) && e@ == (DumpErrorView::UnexpectedEof { offset: at as usize }),
        },
{
    let ghost d = data@;
    let mut pos: usize = 0;
    let mut cols: Vec<Option<&'a [u8]>> = Vec::new();
    while pos < data.len()
        invariant
            d == data@,
            pos <= data@.len(),
            row_cols(d, 0) == prefix_cols(cols_view(cols@), row_cols(d, pos as int)),
        decreases data@.len() - pos,
    {
        let ghost old_cols = cols@;
        let ghost old_pos = pos as int;
        let indicator = data[pos];
        pos = pos + 1;
        if indicator == COL_NULL {
            cols.push(None);
            assert(cols_view(cols@) =~= cols_view(old_cols) + seq![None::<Seq<u8>>]);
            proof { lemma_prefix_cons(cols_view(old_cols), None, row_cols(d, pos as int)); }
        } else if indicator == COL_LONG {
            let len = match read_u32be(data, pos) {
                Ok(v) => v as usize,
                Err(e) => return Err(e),
            };
            pos = pos + 4;
            if len > data.len() - pos {
                return Err(DumpError::UnexpectedEof { offset: pos });
            }
            cols.push(Some(&data[pos..pos + len]));
            assert(cols_view(cols@) =~= cols_view(old_cols) + seq![Some(d.subrange(pos as int, pos + len))]);
            proof { lemma_prefix_cons(cols_view(old_cols), Some(d.subrange(pos as int, pos + len)), row_cols(d, pos + len)); }
            pos = pos + len;
        } else if indicator == 0 {
            let empty: &'a [u8] = &data[pos..pos];
            assert(empty@ =~= Seq::<u8>::empty());
            cols.push(Some(empty));
            assert(cols_view(cols@) =~= cols_view(old_cols) + seq![Some(Seq::<u8>::empty())]);
            proof { lemma_prefix_cons(cols_view(old_cols), Some(Seq::<u8>::empty()), row_cols(d, pos as int)); }
        } else {
            let len = indicator as usize;
            if len > data.len() - pos {
                return Err(DumpError::UnexpectedEof { offset: pos });
            }
            cols.push(Some(&data[pos..pos + len]));
            assert(cols_view(cols@) =~= cols_view(old_cols) + seq![Some(d.subrange(pos as int, pos + len))]);
            proof { lemma_prefix_cons(cols_view(old_cols), Some(d.subrange(pos as int, pos + len)), row_cols(d, pos + len)); }
            pos = pos + len;
        }
    }
    assert(cols_view(cols@) + Seq::<Option<Seq<u8>>>::empty() == cols_view(cols@));
    Ok(cols)
}

// ─────────────────────────────────────────────────────────────
// Strings
// ─────────────────────────────────────────────────────────────

/// The first index `>= from` holding a NUL byte, if any.
pub open spec fn first_nul(d: Seq<u8>, from: int) -> Option<int>
    decreases d.len() - from,
{
    if from < 0 || from >= d.len() {
        None
    } else if d[from] == 0 {
        Some(from)
    } else {
        first_nul(d, from + 1)
    }
}

/// Reads the NUL-terminated string at `pos` (up to the end when there is no
/// NUL) and the position after the terminator.
pub fn read_nul_string(data: &[u8], pos: usize) -> (r: (String, usize))
    requires
        pos <= data@.len(),
        data@.len() < usize::MAX,
    ensures
        ({
            let end = match first_nul(data@, pos as int) {
                Some(e) => e,
                None => data@.len() as int,
            };
            &&& r.0@ == utf8_lossy(data@.subrange(pos as int, end))
            &&& valid_utf8(data@.subrange(pos as int, end)) ==> r.0@ == decode_utf8(
                data@.subrange(pos as int, end),
            )
            &&& r.1 == end + 1
        }),
{
    let ghost d = data@;
    let mut end = pos;
    while end < data.len() && data[end] != 0
        invariant
            d == data@,
            pos <= end <= data@.len(),
            first_nul(d, pos as int) == first_nul(d, end as int),
        decreases data@.len() - end,
    {
        end = end + 1;
    }
    let s = string_from_chars(lossy_chars(&data[pos..end]));
    (s, end + 1)
}

/// Reads a string with a 1-byte length prefix at `pos`; returns it and the
/// position after it.
pub fn read_len1_string(data: &[u8], pos: usize) -> (r: Result<(String, usize), DumpError>)
    ensures
        pos >= data@.len() ==> (r matches Err(e) && e@ == (DumpErrorView::UnexpectedEof { offset: pos })),
        pos < data@.len() && pos + 1 + data@[pos as int] > data@.len() ==> (r matches Err(e) && e@
            == (DumpErrorView::UnexpectedEof { offset: pos })),
        pos < data@.len() && pos + 1 + data@[pos as int] <= data@.len() ==> (r matches Ok((s, n))
            && s@ == utf8_lossy(data@.subrange(pos + 1, pos + 1 + data@[pos as int])) && n == pos + 1
            + data@[pos as int] && (valid_utf8(data@.subrange(pos + 1, pos + 1 + data@[pos as int]))
            ==> s@ == decode_utf8(data@.subrange(pos + 1, pos + 1 + data@[pos as int])))),
{
    let len = match read_u8(data, pos) {
        Ok(v) => v as usize,
        Err(e) => return Err(e),
    };
    if len > data.len() - pos - 1 {
        return Err(DumpError::UnexpectedEof { offset: pos });
    }
    let s = string_from_chars(lossy_chars(&data[pos + 1..pos + 1 + len]));
    Ok((s, pos + 1 + len))
}

/// Reads a string with a 2-byte big-endian length prefix at `pos`; returns
/// it and the position after it. Any `pos` within the data is accepted;
/// past it, `pos + 2` must not overflow.
pub fn read_len2_string(data: &[u8], pos: usize) -> (r: Result<(String, usize), DumpError>)
    requires
        pos <= data@.len() || pos + 2 <= usize::MAX,
    ensures
        pos + 2 > data@.len() ==> (r matches Err(e) && e@ == (DumpErrorView::UnexpectedEof { offset: pos })),
        pos + 2 <= data@.len() && pos + 2 + be16(data@, pos as int) > data@.len() ==> (r matches Err(e)
            && e@ == (DumpErrorView::UnexpectedEof { offset: pos })),
        pos + 2 <= data@.len() && pos + 2 + be16(data@, pos as int) <= data@.len() ==> (r matches Ok(
            (s, n),
        ) && s@ == utf8_lossy(data@.subrange(pos + 2, pos + 2 + be16(data@, pos as int))) && n == pos
            + 2 + be16(data@, pos as int) && (valid_utf8(
            data@.subrange(pos + 2, pos + 2 + be16(data@, pos as int)),
        ) ==> s@ == decode_utf8(data@.subrange(pos + 2, pos + 2 + be16(data@, pos as int))))),
{
    let len = match read_u16be(data, pos) {
        Ok(v) => v as usize,
        Err(e) => return Err(e),
    };
    if len > data.len() - pos - 2 {
        return Err(DumpError::UnexpectedEof { offset: pos });
    }
    let s = string_from_chars(lossy_chars(&data[pos + 2..pos + 2 + len]));
    Ok((s, pos + 2 + len))
}

// ─────────────────────────────────────────────────────────────
// File header record
// ─────────────────────────────────────────────────────────────

/// A header with its export version replaced.
pub open spec fn with_version(h: DumpHeaderView, v: Seq<char>) -> DumpHeaderView {
    DumpHeaderView { export_version: v, ..h }
}

/// A header with its export date replaced.
pub open spec fn with_date(h: DumpHeaderView, v: Seq<char>) -> DumpHeaderView {
    DumpHeaderView { export_date: v, ..h }
}

/// A header with its character set replaced.
pub open spec fn with_charset(h: DumpHeaderView, v: Seq<char>) -> DumpHeaderView {
    DumpHeaderView { charset: v, ..h }
}

/// A header with its national character set replaced.
pub open spec fn with_ncharset(h: DumpHeaderView, v: Seq<char>) -> DumpHeaderView {
    DumpHeaderView { ncharset: v, ..h }
}

/// What one NUL-separated line of the header text sets: the version
/// (`EXPORT:V...`, trailing white space dropped), the character set
/// (`NLS_CHARACTERSET=`) or the national one (`NLS_NCHAR_CHARACTERSET=`).
pub open spec fn apply_header_line(h: DumpHeaderView, line: Seq<char>) -> DumpHeaderView {
    if line.len() == 0 {
        h
    } else if starts_with(line, "EXPORT:V"@) {
        with_version(h, "EXPORT:V"@ + trim_end_ws(line.subrange(8, line.len() as int)))
    } else if starts_with(line, "NLS_CHARACTERSET="@) {
        with_charset(h, line.subrange(17, line.len() as int))
    } else if starts_with(line, "NLS_NCHAR_CHARACTERSET="@) {
        with_ncharset(h, line.subrange(23, line.len() as int))
    } else {
        h
    }
}

/// The lines applied in order.
pub open spec fn fold_header_lines(h: DumpHeaderView, lines: Seq<Seq<char>>) -> DumpHeaderView
    decreases lines.len(),
{
    if lines.len() == 0 {
        h
    } else {
        apply_header_line(fold_header_lines(h, lines.drop_last()), lines.last())
    }
}

/// True for the printable ASCII bytes 0x20..0x7E.
pub open spec fn printable(b: u8) -> bool {
    0x20 <= b < 0x7F
}

/// True when every byte is printable ASCII.
pub open spec fn all_printable(s: Seq<u8>) -> bool {
    forall|i: int| 0 <= i < s.len() ==> printable(#[trigger] s[i])
}

/// What one printable string of the header record fills in, when the
/// field is still empty: the version, a date (longer than 5 and holding
/// `/`), or a character set (holding `WE8`, `UTF8` or `AL32`).
pub open spec fn apply_header_string(h: DumpHeaderView, s: Seq<char>) -> DumpHeaderView {
    if starts_with(s, "EXPORT:V"@) && h.export_version.len() == 0 {
        with_version(h, s)
    } else if s.len() > 5 && s.contains('/') && h.export_date.len() == 0 {
        with_date(h, s)
    } else if (contains_seq(s, "WE8"@) || contains_seq(s, "UTF8"@) || contains_seq(s, "AL32"@))
        && h.charset.len() == 0 {
        with_charset(h, s)
    } else {
        h
    }
}

/// The NUL-terminated chunks applied in order; empty chunks and chunks
/// with non-printable bytes are passed over.
pub open spec fn fold_header_strings(h: DumpHeaderView, chunks: Seq<Seq<u8>>) -> DumpHeaderView
    decreases chunks.len(),
{
    if chunks.len() == 0 {
        h
    } else {
        let prev = fold_header_strings(h, chunks.drop_last());
        let c = chunks.last();
        if c.len() > 0 && all_printable(c) {
            apply_header_string(prev, byte_chars(c))
        } else {
            prev
        }
    }
}

/// The header that a FileHeader record's data describes.
pub open spec fn header_from_data(d: Seq<u8>) -> DumpHeaderView {
    fold_header_strings(
        fold_header_lines(empty_header(), split_on(utf8_lossy(d), '\0')),
        split_on(d, 0u8).drop_last(),
    )
}

fn set_from_chars(field: &mut String, v: Vec<char>)
    ensures
        final(field)@ == v@,
{
    *field = string_from_chars(v);
}

fn apply_line(h: &mut DumpHeader, line: &Vec<char>)
    ensures
        final(h)@ == apply_header_line(old(h)@, line@),
{
    if line.len() == 0 {
        return;
    }
    let p1 = chars_of("EXPORT:V");
    let p2 = chars_of("NLS_CHARACTERSET=");
    let p3 = chars_of("NLS_NCHAR_CHARACTERSET=");
    proof {
        reveal_strlit("EXPORT:V");
        reveal_strlit("NLS_CHARACTERSET=");
        reveal_strlit("NLS_NCHAR_CHARACTERSET=");
    }
    if chars_start_with(line.as_slice(), p1.as_slice()) {
        let rest = trim_end_chars(line.as_slice().split_at(8).1);
        let mut v = p1;
        crate::text::push_all(&mut v, rest.as_slice());
        set_from_chars(&mut h.export_version, v);
    } else if chars_start_with(line.as_slice(), p2.as_slice()) {
        let v = vstd::slice::slice_to_vec(line.as_slice().split_at(17).1);
        set_from_chars(&mut h.charset, v);
    } else if chars_start_with(line.as_slice(), p3.as_slice()) {
        let v = vstd::slice::slice_to_vec(line.as_slice().split_at(23).1);
        set_from_chars(&mut h.ncharset, v);
    }
}

/// Parses a FileHeader record's data: NUL-separated lines of text that
/// set the version and character sets, then printable strings that fill
/// in what is still empty.
pub fn parse_header_record(record: &RawRecord<'_>) -> (h: DumpHeader)
    ensures
        h@ == header_from_data(record.data@),
{
    let text = lossy_chars(record.data);
    let mut header = DumpHeader::default();
    let mut cur: Vec<char> = Vec::new();
    let mut i: usize = 0;
    proof {
        assert(text@.subrange(0, 0) =~= Seq::<char>::empty());
    }
    while i < text.len()
        invariant
            i <= text@.len(),
            split_on(text@.subrange(0, i as int), '\0').len() >= 1,
            header@ == fold_header_lines(
                empty_header(),
                split_on(text@.subrange(0, i as int), '\0').drop_last(),
            ),
            cur@ == split_on(text@.subrange(0, i as int), '\0').last(),
        decreases text@.len() - i,
    {
        let c = text[i];
        proof {
            lemma_split_on_push(text@.subrange(0, i as int), c, '\0');
            assert(text@.subrange(0, i + 1) =~= text@.subrange(0, i as int).push(c));
        }
        let ghost prev = split_on(text@.subrange(0, i as int), '\0');
        if c == '\0' {
            apply_line(&mut header, &cur);
            cur = Vec::new();
            assert(prev.push(Seq::<char>::empty()).drop_last() =~= prev);
        } else {
            cur.push(c);
            assert(prev.drop_last().push(prev.last().push(c)).drop_last() =~= prev.drop_last());
        }
        i = i + 1;
    }
    apply_line(&mut header, &cur);
    proof {
        assert(text@.subrange(0, text@.len() as int) =~= text@);
    }
    extract_header_strings(record.data, &mut header);
    header
}

fn all_printable_bytes(s: &[u8]) -> (r: bool)
    ensures
        r == all_printable(s@),
{
    let mut i: usize = 0;
    while i < s.len()
        invariant
            i <= s@.len(),
            forall|k: int| 0 <= k < i ==> printable(#[trigger] s@[k]),
        decreases s@.len() - i,
    {
        if !(s[i] >= 0x20 && s[i] < 0x7F) {
            return false;
        }
        i = i + 1;
    }
    true
}

fn apply_string(h: &mut DumpHeader, s: &Vec<char>)
    ensures
        final(h)@ == apply_header_string(old(h)@, s@),
{
    let p1 = chars_of("EXPORT:V");
    proof {
        reveal_strlit("EXPORT:V");
        reveal_strlit("WE8");
        reveal_strlit("UTF8");
        reveal_strlit("AL32");
    }
    if chars_start_with(s.as_slice(), p1.as_slice()) && h.export_version.as_str().is_empty() {
        set_from_chars(&mut h.export_version, s.clone());
    } else if s.len() > 5 && chars_contain_char(s.as_slice(), '/') && h.export_date.as_str().is_empty() {
        set_from_chars(&mut h.export_date, s.clone());
    } else if (chars_contain(s.as_slice(), chars_of("WE8").as_slice()) || chars_contain(
        s.as_slice(),
        chars_of("UTF8").as_slice(),
    ) || chars_contain(s.as_slice(), chars_of("AL32").as_slice()))
        && h.charset.as_str().is_empty() {
        set_from_chars(&mut h.charset, s.clone());
    }
}

fn extract_header_strings(data: &[u8], header: &mut DumpHeader)
    ensures
        final(header)@ == fold_header_strings(old(header)@, split_on(data@, 0u8).drop_last()),
{
    let ghost d = data@;
    let mut start: usize = 0;
    let mut i: usize = 0;
    proof {
        assert(d.subrange(0, 0) =~= Seq::<u8>::empty());
    }
    while i < data.len()
        invariant
            d == data@,
            start <= i <= d.len(),
            split_on(d.subrange(0, i as int), 0u8).len() >= 1,
            header@ == fold_header_strings(
                old(header)@,
                split_on(d.subrange(0, i as int), 0u8).drop_last(),
            ),
            split_on(d.subrange(0, i as int), 0u8).last() == d.subrange(start as int, i as int),
        decreases d.len() - i,
    {
        let b = data[i];
        let ghost prev = split_on(d.subrange(0, i as int), 0u8);
        proof {
            lemma_split_on_push(d.subrange(0, i as int), b, 0u8);
            assert(d.subrange(0, i + 1) =~= d.subrange(0, i as int).push(b));
        }
        if b == 0 {
            if i > start {
                let chunk = &data[start..i];
                if all_printable_bytes(chunk) {
                    proof {
                        assert forall|k: int| 0 <= k < chunk@.len() implies #[trigger] chunk@[k] < 0x80 by {
                            assert(printable(chunk@[k]));
                        }
                    }
                    let s = lossy_chars(chunk);
                    apply_string(header, &s);
                }
            }
            assert(prev.push(Seq::<u8>::empty()).drop_last() =~= prev);
            start = i + 1;
            assert(d.subrange(start as int, i + 1) =~= Seq::<u8>::empty());
        } else {
            assert(prev.drop_last().push(prev.last().push(b)).drop_last() =~= prev.drop_last());
            assert(d.subrange(start as int, i as int).push(b) =~= d.subrange(start as int, i + 1));
        }
        i = i + 1;
    }
    assert(d.subrange(0, d.len() as int) =~= d);
}

// ─────────────────────────────────────────────────────────────
// Character sets
// ─────────────────────────────────────────────────────────────

/// The text encodings that Oracle NLS character sets map to.
#[derive(Debug, Clone, Copy, PartialEq, Eq, Structural)]
pub enum NlsEncoding {
    Utf8,
    Windows1252,
    Iso8859_2,
    Windows1251,
    Utf16Be,
    ShiftJis,
    EucJp,
    Gbk,
    Big5,
    EucKr,
    Windows1256,
    Windows1254,
    Windows1253,
    Windows1255,
}

/// What `encoding_rs::Encoding::decode` makes of the bytes with the
/// encoding (BOM sniffing and replacement characters included).
pub uninterp spec fn encoding_decode(enc: NlsEncoding, bytes: Seq<u8>) -> Seq<char>;

/// Decodes bytes with `encoding_rs::Encoding::decode` for the encoding.
/// Claimed: the characters are `encoding_decode(enc, bytes)`; ASCII-only
/// input with an ASCII-compatible encoding (all but UTF-16BE) decodes to
/// the same characters, as the crate documents (it borrows the input).
#[verifier::external_body]
pub(crate) fn decode_with(enc: NlsEncoding, bytes: &[u8]) -> (v: Vec<char>)
    ensures
        v@ == encoding_decode(enc, bytes@),
        enc != NlsEncoding::Utf16Be && all_ascii(bytes@) ==> v@ == byte_chars(bytes@),
{
    let e: &'static encoding_rs::Encoding = match enc {
        NlsEncoding::Utf8 => encoding_rs::UTF_8, NlsEncoding::Windows1252 => encoding_rs::WINDOWS_1252,
        NlsEncoding::Iso8859_2 => encoding_rs::ISO_8859_2, NlsEncoding::Windows1251 => encoding_rs::WINDOWS_1251,
        NlsEncoding::Utf16Be => encoding_rs::UTF_16BE, NlsEncoding::ShiftJis => encoding_rs::SHIFT_JIS,
        NlsEncoding::EucJp => encoding_rs::EUC_JP, NlsEncoding::Gbk => encoding_rs::GBK,
        NlsEncoding::Big5 => encoding_rs::BIG5, NlsEncoding::EucKr => encoding_rs::EUC_KR,
        NlsEncoding::Windows1256 => encoding_rs::WINDOWS_1256, NlsEncoding::Windows1254 => encoding_rs::WINDOWS_1254,
        NlsEncoding::Windows1253 => encoding_rs::WINDOWS_1253, NlsEncoding::Windows1255 => encoding_rs::WINDOWS_1255,
    };
    e.decode(bytes).0.chars().collect()
}

/// The encoding for an upper-case Oracle NLS character set name.
pub open spec fn nls_encoding_of(name: Seq<char>) -> Option<NlsEncoding> {
    if name == "AL32UTF8"@ || name == "UTF8"@ || name == "UTF-8"@ {
        Some(NlsEncoding::Utf8)
    } else if name == "WE8MSWIN1252"@ || name == "WE8ISO8859P1"@ {
        Some(NlsEncoding::Windows1252)
    } else if name == "EE8MSWIN1250"@ || name == "EE8ISO8859P2"@ {
        Some(NlsEncoding::Iso8859_2)
    } else if name == "CL8MSWIN1251"@ || name == "CL8ISO8859P5"@ {
        Some(NlsEncoding::Windows1251)
    } else if name == "AL16UTF16"@ {
        Some(NlsEncoding::Utf16Be)
    } else if name == "JA16SJIS"@ {
        Some(NlsEncoding::ShiftJis)
    } else if name == "JA16EUC"@ {
        Some(NlsEncoding::EucJp)
    } else if name == "ZHS16GBK"@ {
        Some(NlsEncoding::Gbk)
    } else if name == "ZHT16BIG5"@ {
        Some(NlsEncoding::Big5)
    } else if name == "KO16MSWIN949"@ || name == "KO16KSC5601"@ {
        Some(NlsEncoding::EucKr)
    } else if name == "AR8MSWIN1256"@ {
        Some(NlsEncoding::Windows1256)
    } else if name == "TR8MSWIN1254"@ {
        Some(NlsEncoding::Windows1254)
    } else if name == "EL8MSWIN1253"@ {
        Some(NlsEncoding::Windows1253)
    } else if name == "IW8MSWIN1255"@ {
        Some(NlsEncoding::Windows1255)
    } else {
        None
    }
}

fn is_name(name: &[char], lit: &str) -> (r: bool)
    ensures
        r == (name@ == lit@),
{
    chars_eq(name, chars_of(lit).as_slice())
}

/// The encoding for an already upper-cased NLS character set name.
pub fn encoding_for_upper_name(name: &str) -> (r: Option<NlsEncoding>)
    ensures
        r == nls_encoding_of(name@),
{
    let v = chars_of(name);
    let n = v.as_slice();
    if is_name(n, "AL32UTF8") || is_name(n, "UTF8") || is_name(n, "UTF-8") {
        Some(NlsEncoding::Utf8)
    } else if is_name(n, "WE8MSWIN1252") || is_name(n, "WE8ISO8859P1") {
        Some(NlsEncoding::Windows1252)
    } else if is_name(n, "EE8MSWIN1250") || is_name(n, "EE8ISO8859P2") {
        Some(NlsEncoding::Iso8859_2)
    } else if is_name(n, "CL8MSWIN1251") || is_name(n, "CL8ISO8859P5") {
        Some(NlsEncoding::Windows1251)
    } else if is_name(n, "AL16UTF16") {
        Some(NlsEncoding::Utf16Be)
    } else if is_name(n, "JA16SJIS") {
        Some(NlsEncoding::ShiftJis)
    } else if is_name(n, "JA16EUC") {
        Some(NlsEncoding::EucJp)
    } else if is_name(n, "ZHS16GBK") {
        Some(NlsEncoding::Gbk)
    } else if is_name(n, "ZHT16BIG5") {
        Some(NlsEncoding::Big5)
    } else if is_name(n, "KO16MSWIN949") || is_name(n, "KO16KSC5601") {
        Some(NlsEncoding::EucKr)
    } else if is_name(n, "AR8MSWIN1256") {
        Some(NlsEncoding::Windows1256)
    } else if is_name(n, "TR8MSWIN1254") {
        Some(NlsEncoding::Windows1254)
    } else if is_name(n, "EL8MSWIN1253") {
        Some(NlsEncoding::Windows1253)
    } else if is_name(n, "IW8MSWIN1255") {
        Some(NlsEncoding::Windows1255)
    } else {
        None
    }
}

/// Resolves an Oracle NLS character set name, in any case, to its encoding.
pub fn charset_to_encoding(charset: &str) -> (r: Option<NlsEncoding>)
    ensures
        r == nls_encoding_of(unicode_upper(charset@)),
        (forall|i: int| 0 <= i < charset@.len() ==> (#[trigger] charset@[i] as u32) < 0x80) ==> r
            == nls_encoding_of(charset@.map_values(|c: char| ascii_upper(c))),
{
    let upper = string_from_chars(to_uppercase_chars(charset));
    encoding_for_upper_name(upper.as_str())
}

/// Text in the given encoding, or decoded as lossy UTF-8 when there is none.
pub open spec fn text_of(enc: Option<NlsEncoding>, bytes: Seq<u8>) -> Seq<char> {
    match enc {
        Some(e) => encoding_decode(e, bytes),
        None => utf8_lossy(bytes),
    }
}

/// Decodes bytes as text in the given encoding, or as lossy UTF-8.
pub fn decode_text_chars(enc: Option<NlsEncoding>, bytes: &[u8]) -> (v: Vec<char>)
    ensures
        v@ == text_of(enc, bytes@),
{
    match enc {
        Some(e) => decode_with(e, bytes),
        None => lossy_chars(bytes),
    }
}

/// True for the column types decoded as text.
pub open spec fn is_text_type(t: OracleType) -> bool {
    t is Varchar2 || t is Nvarchar2 || t is Char || t is Nchar || t is Long || t is XmlType
        || t is Clob || t is Nclob
}

/// The value that a raw column decodes to for its type.
pub open spec fn column_value_of(raw: Seq<u8>, t: OracleType, enc: Option<NlsEncoding>) -> ColumnValueView {
    if raw.len() == 0 {
        ColumnValueView::Text(Seq::empty())
    } else if is_text_type(t) {
        ColumnValueView::Text(text_of(enc, raw))
    } else if t is Number || t is Float {
        ColumnValueView::Number(number_text(raw))
    } else if t is Date {
        ColumnValueView::Text(date_text(raw))
    } else if t is Timestamp || t is TimestampWithTZ || t is TimestampWithLocalTZ {
        ColumnValueView::Text(timestamp_text(raw))
    } else {
        ColumnValueView::Bytes(raw)
    }
}

/// Decodes a raw column to a typed value: text types through the character
/// set, NUMBER/FLOAT to decimal text, DATE and TIMESTAMP to their text,
/// everything else as bytes.
pub fn decode_column_value(raw: &[u8], col_type: &OracleType, charset_enc: Option<NlsEncoding>) -> (v: ColumnValue)
    requires
        (*col_type is Number || *col_type is Float) ==> number_digits_in_range(raw@),
    ensures
        v@ == column_value_of(raw@, *col_type, charset_enc),
{
    if raw.len() == 0 {
        return ColumnValue::Text(String::new());
    }
    match col_type {
        OracleType::Varchar2 | OracleType::Nvarchar2 | OracleType::Char | OracleType::Nchar
        | OracleType::Long | OracleType::XmlType | OracleType::Clob | OracleType::Nclob => {
            ColumnValue::Text(string_from_chars(decode_text_chars(charset_enc, raw)))
        },
        OracleType::Number | OracleType::Float => ColumnValue::Number(decode_oracle_number(raw)),
        OracleType::Date => ColumnValue::Text(decode_oracle_date(raw)),
        OracleType::Timestamp | OracleType::TimestampWithTZ | OracleType::TimestampWithLocalTZ => {
            ColumnValue::Text(decode_oracle_timestamp(raw))
        },
        _ => ColumnValue::Bytes(vstd::slice::slice_to_vec(raw)),
    }
}

} // verus!
