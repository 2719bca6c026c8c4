//! Properties of the dump format and of the decoders that span several
//! functions or calls.

use vstd::prelude::*;
use crate::number::{date_text, digit_of, digits_text, first_index_of, mant_bytes, number_text, timestamp_text,
    trim_leading_zeros};
use crate::text::{dec, digit_char, signed_pad, utf8_lossy, zero_pad};
use crate::parser::column_value_of;
use crate::types::{ColumnValueView, OracleType};
use crate::parser::{NlsEncoding, RecordStep, be16, be32, cons_col, record_step, row_cols};
use crate::error::DumpErrorView;
use crate::reader::{DumpEventView, EventState, event_step};
use crate::text::starts_with;
use crate::cli::{FilterAction, FilterState, filter_step};
use crate::output::{CsvState, SqlState, csv_cell, csv_escape_text, csv_step, first_line, insert_statement, join,
    lines_text,
    replace_char, sql_step};

verus! {

// ─────────────────────────────────────────────────────────────
// Record framing
// ─────────────────────────────────────────────────────────────

/// Big-endian bytes of a 16-bit value.
pub open spec fn be16_bytes(v: int) -> Seq<u8> {
    seq![(v / 256) as u8, (v % 256) as u8]
}

/// Big-endian bytes of a 32-bit value.
pub open spec fn be32_bytes(v: int) -> Seq<u8> {
    seq![(v / 16777216) as u8, ((v / 65536) % 256) as u8, ((v / 256) % 256) as u8, (v % 256) as u8]
}

/// A record as a dump frames it: type, then the length in two bytes, or
/// `0xFFFF` and the length in four bytes when it does not fit below
/// `0xFFFF`; then the data.
pub open spec fn encode_record(code: u16, data: Seq<u8>) -> Seq<u8> {
    if data.len() < 0xFFFF {
        be16_bytes(code as int) + be16_bytes(data.len() as int) + data
    } else {
        be16_bytes(code as int) + be16_bytes(0xFFFF) + be32_bytes(data.len() as int) + data
    }
}

proof fn lemma_be16_roundtrip(v: int)
    requires
        0 <= v < 65536,
    ensures
        be16(be16_bytes(v), 0) == v,
{
}

proof fn lemma_be32_roundtrip(v: int)
    requires
        0 <= v < 0x1_0000_0000,
    ensures
        be32(be32_bytes(v), 0) == v,
{
    assert(v == (v / 16777216) * 16777216 + ((v / 65536) % 256) * 65536 + ((v / 256) % 256) * 256 + v % 256)
        by (nonlinear_arith)
        requires
            0 <= v < 0x1_0000_0000,
    ;
}

/// Reading a framed record back, wherever it stands in the dump, gives its
/// type and exactly its data, and the next record starts right after it.
pub proof fn law_record_roundtrip(before: Seq<u8>, code: u16, data: Seq<u8>, after: Seq<u8>)
    requires
        data.len() < 0x1_0000_0000,
    ensures
        ({
            let d = before + encode_record(code, data) + after;
            let h = encode_record(code, data).len() - data.len();
            record_step(d, before.len() as int) == (RecordStep::Rec {
                code,
                start: before.len() + h as int,
                len: data.len() as int,
                next: before.len() + encode_record(code, data).len() as int,
            })
        }),
{
    let d = before + encode_record(code, data) + after;
    let p = before.len() as int;
    let e = encode_record(code, data);
    assert forall|i: int| 0 <= i < e.len() implies d[p + i] == e[i] by {
        assert(d[p + i] == (before + e)[p + i]);
    }
    lemma_be16_roundtrip(code as int);
    assert(be16(d, p) == be16(be16_bytes(code as int), 0));
    if data.len() < 0xFFFF {
        lemma_be16_roundtrip(data.len() as int);
        assert(be16(d, p + 2) == be16(be16_bytes(data.len() as int), 0));
    } else {
        lemma_be16_roundtrip(0xFFFF);
        assert(be16(d, p + 2) == be16(be16_bytes(0xFFFF), 0));
        lemma_be32_roundtrip(data.len() as int);
        assert(be32(d, p + 4) == be32(be32_bytes(data.len() as int), 0));
    }
}

// ─────────────────────────────────────────────────────────────
// Row data
// ─────────────────────────────────────────────────────────────

/// A column as row data encodes it: `0xFF` for NULL, `0x00` for empty,
/// the length byte for 1..=253 bytes, else `0xFE` and a 4-byte length.
pub open spec fn encode_col(c: Option<Seq<u8>>) -> Seq<u8> {
    match c {
        None => seq![0xFFu8],
        Some(b) => if b.len() == 0 {
            seq![0x00u8]
        } else if b.len() < 0xFE {
            seq![b.len() as u8] + b
        } else {
            seq![0xFEu8] + be32_bytes(b.len() as int) + b
        },
    }
}

/// A row as row data encodes it: its columns one after the other.
pub open spec fn encode_row(cols: Seq<Option<Seq<u8>>>) -> Seq<u8>
    decreases cols.len(),
{
    if cols.len() == 0 {
        Seq::empty()
    } else {
        encode_col(cols[0]) + encode_row(cols.subrange(1, cols.len() as int))
    }
}

/// True when every column is shorter than 2^32 bytes.
pub open spec fn cols_fit(cols: Seq<Option<Seq<u8>>>) -> bool {
    forall|i: int| 0 <= i < cols.len() ==> (#[trigger] cols[i] matches Some(b) ==> b.len() < 0x1_0000_0000)
}

/// An error offset moved by `k`.
pub open spec fn shift_err(r: Result<Seq<Option<Seq<u8>>>, int>, k: int) -> Result<Seq<Option<Seq<u8>>>, int> {
    match r {
        Ok(c) => Ok(c),
        Err(e) => Err(e + k),
    }
}

proof fn lemma_row_cols_prefix(p: Seq<u8>, s: Seq<u8>, pos: int)
    requires
        0 <= pos,
    ensures
        row_cols(p + s, p.len() + pos) == shift_err(row_cols(s, pos), p.len() as int),
    decreases s.len() - pos,
{
    let d = p + s;
    let q = p.len() + pos;
    if pos < s.len() {
        assert(d[q] == s[pos]);
        let ind = s[pos];
        if ind == 0xFF || ind == 0 {
            lemma_row_cols_prefix(p, s, pos + 1);
        } else if ind == 0xFE {
            if pos + 1 + 4 <= s.len() {
                assert(be32(d, q + 1) == be32(s, pos + 1));
                let l = be32(s, pos + 1);
                if pos + 5 + l <= s.len() {
                    lemma_row_cols_prefix(p, s, pos + 5 + l);
                    assert(d.subrange(q + 5, q + 5 + l) =~= s.subrange(pos + 5, pos + 5 + l));
                }
            }
        } else {
            if pos + 1 + ind <= s.len() {
                lemma_row_cols_prefix(p, s, pos + 1 + ind);
                assert(d.subrange(q + 1, q + 1 + ind) =~= s.subrange(pos + 1, pos + 1 + ind));
            }
        }
    }
}

proof fn lemma_row_cols_one(c: Option<Seq<u8>>, rest: Seq<u8>)
    requires
        c matches Some(b) ==> b.len() < 0x1_0000_0000,
        row_cols(rest, 0) is Ok,
    ensures
        row_cols(encode_col(c) + rest, 0) == cons_col(c, row_cols(rest, 0)),
{
    let e = encode_col(c);
    let d = e + rest;
    lemma_row_cols_prefix(e, rest, 0);
    let k = e.len() as int;
    assert(row_cols(d, k) == shift_err(row_cols(rest, 0), k));
    assert(row_cols(d, k) == row_cols(rest, 0));
    match c {
        None => {
            assert(d[0] == 0xFFu8);
            assert(k == 1);
            assert(d.len() > 0);
            assert(row_cols(d, 0) == cons_col(None, row_cols(d, 1)));
            assert(row_cols(d, 1) == row_cols(rest, 0));
            assert(row_cols(d, 0) == cons_col(c, row_cols(rest, 0)));
        },
        Some(b) => {
            if b.len() == 0 {
                assert(d[0] == 0u8);
                assert(k == 1);
                assert(b =~= Seq::<u8>::empty());
                assert(row_cols(d, 0) == cons_col(Some(Seq::<u8>::empty()), row_cols(d, 1)));
            } else if b.len() < 0xFE {
                assert(d[0] == b.len() as u8);
                assert(k == 1 + b.len());
                assert(d.subrange(1, 1 + b.len() as int) =~= b);
                assert(d[0] as int == b.len());
                assert(row_cols(d, 0) == cons_col(Some(d.subrange(1, 1 + b.len() as int)), row_cols(d, k)));
            } else {
                assert(d[0] == 0xFEu8);
                lemma_be32_roundtrip(b.len() as int);
                assert(be32(d, 1) == be32(be32_bytes(b.len() as int), 0));
                assert(k == 5 + b.len());
                assert(d.subrange(5, 5 + b.len() as int) =~= b);
                assert(row_cols(d, 0) == cons_col(Some(d.subrange(5, 5 + b.len() as int)), row_cols(d, k)));
            }
        },
    }
    assert(row_cols(d, 0) == cons_col(c, row_cols(rest, 0)));
}

/// Parsing the encoding of a row gives back its columns: NULLs, empty
/// values, short and long values alike.
pub proof fn law_row_roundtrip(cols: Seq<Option<Seq<u8>>>)
    requires
        cols_fit(cols),
    ensures
        row_cols(encode_row(cols), 0) == Ok::<Seq<Option<Seq<u8>>>, int>(cols),
    decreases cols.len(),
{
    if cols.len() == 0 {
        assert(encode_row(cols) =~= Seq::<u8>::empty());
        assert(cols =~= Seq::<Option<Seq<u8>>>::empty());
    } else {
        let rest = cols.subrange(1, cols.len() as int);
        assert(cols_fit(rest)) by {
            assert forall|i: int| 0 <= i < rest.len() implies (#[trigger] rest[i] matches Some(b) ==> b.len()
                < 0x1_0000_0000) by {
                assert(rest[i] == cols[i + 1]);
            }
        }
        assert(cols[0] matches Some(b) ==> b.len() < 0x1_0000_0000);
        law_row_roundtrip(rest);
        lemma_row_cols_one(cols[0], encode_row(rest));
        assert(encode_row(cols) == encode_col(cols[0]) + encode_row(rest));
        assert(seq![cols[0]] + rest =~= cols);
        assert(row_cols(encode_row(cols), 0) == cons_col(cols[0], Ok::<Seq<Option<Seq<u8>>>, int>(rest)));
    }
}

// ─────────────────────────────────────────────────────────────
// Decoders
// ─────────────────────────────────────────────────────────────

/// A TIMESTAMP of at least seven bytes starts with the DATE text of those
/// seven bytes (the time and nanoseconds, if shown, follow it).
pub proof fn law_timestamp_extends_date(d: Seq<u8>)
    requires
        d.len() >= 7,
    ensures
        starts_with(timestamp_text(d), date_text(d.subrange(0, 7))),
{
    let t = timestamp_text(d);
    let p = date_text(d.subrange(0, 7));
    assert(t.subrange(0, p.len() as int) =~= p);
}

/// The complement encoding of a NUMBER. For a positive NUMBER with
/// exponent byte `e` and mantissa `m` (every byte in 1..=100), the
/// complemented exponent byte, each mantissa byte `b` as `102 - b`, and
/// the `0x66` terminator.
pub open spec fn negated_number(e: u8, m: Seq<u8>) -> Seq<u8> {
    seq![(255 - e) as u8] + m.map_values(|b: u8| (102 - b) as u8) + seq![0x66u8]
}

/// A negative NUMBER in complement encoding decodes to `-` followed by the
/// decoding of the positive NUMBER it negates (when that one is not zero).
pub proof fn law_number_negation(e: u8, m: Seq<u8>)
    requires
        e >= 0x81,
        m.len() >= 1,
        forall|i: int| 0 <= i < m.len() ==> 1 <= #[trigger] m[i] <= 100,
        exists|i: int| 0 <= i < m.len() && #[trigger] m[i] >= 2,
    ensures
        number_text(negated_number(e, m)) == seq!['-'] + number_text(seq![e] + m),
{
    let p = seq![e] + m;
    let n = negated_number(e, m);
    let mc = m.map_values(|b: u8| (102 - b) as u8);
    let rest = n.subrange(1, n.len() as int);
    assert(rest =~= mc + seq![0x66u8]);
    lemma_first_terminator(mc, 0);
    assert(mant_bytes(n, true) =~= mc);
    assert(p.subrange(1, p.len() as int) =~= m);
    assert(mant_bytes(p, false) =~= m);
    lemma_complement_digits(m);
    lemma_digits_nonzero(m);
    let t = digits_text(m, false);
    let k = choose|k: int| 0 <= k < t.len() && t[k] != '0';
    lemma_trim_keeps_nonzero(t, k);
}

/// The `0x66` terminator is the first one after complemented mantissa
/// bytes, none of which is `0x66`.
proof fn lemma_first_terminator(mc: Seq<u8>, from: int)
    requires
        0 <= from <= mc.len(),
        forall|i: int| 0 <= i < mc.len() ==> #[trigger] mc[i] != 0x66u8,
    ensures
        first_index_of(mc + seq![0x66u8], 0x66, from) == Some(mc.len() as int),
    decreases mc.len() - from,
{
    let s = mc + seq![0x66u8];
    if from < mc.len() {
        assert(s[from] == mc[from]);
        lemma_first_terminator(mc, from + 1);
    } else {
        assert(s[from] == 0x66u8);
    }
}

/// Complemented mantissa bytes give the same digits.
proof fn lemma_complement_digits(m: Seq<u8>)
    requires
        forall|i: int| 0 <= i < m.len() ==> 1 <= #[trigger] m[i] <= 100,
    ensures
        digits_text(m.map_values(|b: u8| (102 - b) as u8), true) == digits_text(m, false),
    decreases m.len(),
{
    let mc = m.map_values(|b: u8| (102 - b) as u8);
    if m.len() > 0 {
        let m0 = m.drop_last();
        assert(mc.drop_last() =~= m0.map_values(|b: u8| (102 - b) as u8));
        assert(forall|i: int| 0 <= i < m0.len() ==> m0[i] == m[i]);
        lemma_complement_digits(m0);
        assert(mc.last() == (102 - m.last()) as u8);
        assert(digit_of(mc.last(), true) == digit_of(m.last(), false));
    }
}

/// A mantissa with a byte of at least 2 has a digit other than `0`.
proof fn lemma_digits_nonzero(m: Seq<u8>)
    requires
        forall|i: int| 0 <= i < m.len() ==> 1 <= #[trigger] m[i] <= 100,
        exists|i: int| 0 <= i < m.len() && #[trigger] m[i] >= 2,
    ensures
        exists|k: int| 0 <= k < digits_text(m, false).len() && digits_text(m, false)[k] != '0',
    decreases m.len(),
{
    let t = digits_text(m, false);
    let m0 = m.drop_last();
    let t0 = digits_text(m0, false);
    let d = (m.last() - 1) as nat;
    let pad = zero_pad(dec(d), 2);
    assert(t == t0 + pad);
    if m.last() >= 2 {
        if d < 10 {
            assert(dec(d) == seq![digit_char(d)]);
            assert(pad[1] == digit_char(d));
            assert((digit_char(d) as u32) == 48 + d);
            assert(t[t0.len() + 1int] == pad[1]);
        } else {
            assert(dec(d / 10) == seq![digit_char(d / 10)]);
            assert(pad[0] == digit_char(d / 10));
            assert((digit_char(d / 10) as u32) == 48 + d / 10);
            assert(t[t0.len() as int] == pad[0]);
        }
    } else {
        let i = choose|i: int| 0 <= i < m.len() && m[i] >= 2;
        assert(i < m.len() - 1);
        assert(m0[i] == m[i]);
        assert(forall|j: int| 0 <= j < m0.len() ==> m0[j] == m[j]);
        lemma_digits_nonzero(m0);
        let k = choose|k: int| 0 <= k < t0.len() && t0[k] != '0';
        assert(t[k] == t0[k]);
    }
}

/// Dropping leading zeros leaves something when a character is not `0`.
proof fn lemma_trim_keeps_nonzero(s: Seq<char>, k: int)
    requires
        0 <= k < s.len(),
        s[k] != '0',
    ensures
        trim_leading_zeros(s).len() > 0,
    decreases s.len(),
{
    if s[0] == '0' {
        let s1 = s.subrange(1, s.len() as int);
        assert(s1[k - 1] == s[k]);
        lemma_trim_keeps_nonzero(s1, k - 1);
    }
}

// ─────────────────────────────────────────────────────────────
// Events
// ─────────────────────────────────────────────────────────────

/// Row counting across calls of the event reader: a Row event carries the
/// number of rows seen since the last table start or end and counts
/// itself; a TableEnd event reports that number and starts it again; a
/// TableStart starts it again; nothing else changes it.
pub proof fn law_row_counting(d: Seq<u8>, enc: Option<NlsEncoding>, st: EventState)
    requires
        st.rows < u64::MAX,
    ensures
        ({
            let (r, st2) = event_step(d, enc, st);
            match r {
                Some(Ok(DumpEventView::Row { row_index, .. })) => row_index == st.rows && st2.rows
                    == st.rows + 1,
                Some(Ok(DumpEventView::TableEnd { rows_written, .. })) => rows_written == st.rows
                    && st2.rows == 0,
                Some(Ok(DumpEventView::TableStart { .. })) => st2.rows == 0,
                _ => st2.rows == st.rows,
            }
        }),
    decreases d.len() - st.pos,
{
    if st.pos >= 0 {
        crate::parser::lemma_record_step_bounds(d, st.pos);
        match record_step(d, st.pos) {
            RecordStep::Rec { code, start, len, next } => {
                let st1 = EventState { pos: next, ..st };
                law_row_counting(d, enc, st1);
                let data = d.subrange(start, start + len);
                law_row_counting(
                    d,
                    enc,
                    EventState {
                        owner: crate::text::trim_char(crate::reader::record_text(enc, data), '\0'),
                        ..st1
                    },
                );
            },
            _ => {},
        }
    }
}

/// The state of the event reader after `n` calls from `st`.
pub open spec fn state_after(d: Seq<u8>, enc: Option<NlsEncoding>, st: EventState, n: nat) -> EventState
    decreases n,
{
    if n == 0 {
        st
    } else {
        event_step(d, enc, state_after(d, enc, st, (n - 1) as nat)).1
    }
}

/// The results of `n` successive calls of the event reader from `st`.
pub open spec fn event_run(d: Seq<u8>, enc: Option<NlsEncoding>, st: EventState, n: nat) -> Seq<
    Option<Result<DumpEventView, DumpErrorView>>,
>
    decreases n,
{
    if n == 0 {
        Seq::empty()
    } else {
        event_run(d, enc, st, (n - 1) as nat).push(
            event_step(d, enc, state_after(d, enc, st, (n - 1) as nat)).0,
        )
    }
}

/// The number of Row events since the last TableStart or TableEnd in
/// `evs`, or `base` plus all of them when there is none.
pub open spec fn rows_since_reset(evs: Seq<Option<Result<DumpEventView, DumpErrorView>>>, base: int) -> int
    decreases evs.len(),
{
    if evs.len() == 0 {
        base
    } else {
        match evs.last() {
            Some(Ok(DumpEventView::Row { .. })) => rows_since_reset(evs.drop_last(), base) + 1,
            Some(Ok(DumpEventView::TableStart { .. })) => 0,
            Some(Ok(DumpEventView::TableEnd { .. })) => 0,
            _ => rows_since_reset(evs.drop_last(), base),
        }
    }
}

proof fn lemma_run_prefix(d: Seq<u8>, enc: Option<NlsEncoding>, st: EventState, n: nat, j: nat)
    requires
        j <= n,
    ensures
        event_run(d, enc, st, n).len() == n,
        event_run(d, enc, st, n).subrange(0, j as int) == event_run(d, enc, st, j),
    decreases n,
{
    if n > 0 {
        lemma_run_prefix(d, enc, st, (n - 1) as nat, if j == n { (n - 1) as nat } else { j });
        if j < n {
            assert(event_run(d, enc, st, n).subrange(0, j as int) =~= event_run(
                d,
                enc,
                st,
                (n - 1) as nat,
            ).subrange(0, j as int));
        } else {
            assert(event_run(d, enc, st, n).subrange(0, j as int) =~= event_run(d, enc, st, n));
        }
    } else {
        assert(event_run(d, enc, st, n).subrange(0, j as int) =~= event_run(d, enc, st, j));
    }
}

proof fn lemma_rows_tracked(d: Seq<u8>, enc: Option<NlsEncoding>, st: EventState, n: nat)
    requires
        st.rows + n < u64::MAX,
    ensures
        state_after(d, enc, st, n).rows == rows_since_reset(event_run(d, enc, st, n), st.rows as int),
        state_after(d, enc, st, n).rows <= st.rows + n,
    decreases n,
{
    if n > 0 {
        let m = (n - 1) as nat;
        lemma_rows_tracked(d, enc, st, m);
        let s = state_after(d, enc, st, m);
        law_row_counting(d, enc, s);
        let evs = event_run(d, enc, st, n);
        assert(evs.drop_last() =~= event_run(d, enc, st, m));
        assert(evs.last() == event_step(d, enc, s).0);
    }
}

/// Row counting over a whole sequence of calls of the event reader: each
/// Row event's index, and each TableEnd's row count, is the number of Row
/// events since the last TableStart or TableEnd (counted on from the
/// reader's count when there is none).
pub proof fn law_row_counting_run(d: Seq<u8>, enc: Option<NlsEncoding>, st: EventState, n: nat, j: nat)
    requires
        st.rows + n < u64::MAX,
        j < n,
    ensures
        ({
            let evs = event_run(d, enc, st, n);
            let before = rows_since_reset(evs.subrange(0, j as int), st.rows as int);
            match evs[j as int] {
                Some(Ok(DumpEventView::Row { row_index, .. })) => row_index == before,
                Some(Ok(DumpEventView::TableEnd { rows_written, .. })) => rows_written == before,
                _ => true,
            }
        }),
{
    lemma_run_prefix(d, enc, st, n, j);
    lemma_run_prefix(d, enc, st, n, j + 1);
    lemma_rows_tracked(d, enc, st, j);
    let s = state_after(d, enc, st, j);
    law_row_counting(d, enc, s);
    let evs = event_run(d, enc, st, n);
    assert(evs[j as int] == event_run(d, enc, st, j + 1)[j as int]);
}

// ─────────────────────────────────────────────────────────────
// Export filter
// ─────────────────────────────────────────────────────────────

/// A row limit holds across the calls of an export filter: with a limit
/// of `n > 0`, no more than `n` rows of a table are passed, a row is
/// passed only while fewer than `n` have been, and the count never goes
/// past `n`.
pub proof fn law_row_limit(st: FilterState, ev: DumpEventView)
    requires
        st.row_limit > 0,
        st.rows_in_table <= st.row_limit,
    ensures
        ({
            let (a, st2) = filter_step(st, ev);
            &&& st2.rows_in_table <= st2.row_limit
            &&& st2.row_limit == st.row_limit
            &&& (ev is Row && a == FilterAction::Handle) ==> st.rows_in_table < st.row_limit
                && st2.rows_in_table == st.rows_in_table + 1
        }),
{
}

// ─────────────────────────────────────────────────────────────
// SQL batches
// ─────────────────────────────────────────────────────────────

/// Batching holds across the calls of the SQL writer: the buffer never
/// holds a whole batch after an event, a row either joins the buffer or
/// fills it and the whole batch is written with that row last, and the
/// end of a table writes out every row still buffered.
pub proof fn law_sql_batch(st: SqlState, ev: DumpEventView)
    requires
        st.batch_size >= 1,
        st.buffer.len() < st.batch_size,
    ensures
        ({
            let (out, st2) = sql_step(st, ev);
            &&& st2.batch_size == st.batch_size
            &&& st2.buffer.len() < st2.batch_size
            &&& match ev {
                DumpEventView::Row { raw_values, owner, table, .. } => {
                    let line = insert_statement(owner, table, raw_values);
                    if st.buffer.len() + 1 < st.batch_size {
                        st2.buffer == st.buffer.push(line) && out.len() == 0
                    } else {
                        st2.buffer.len() == 0 && out == lines_text(st.buffer.push(line))
                    }
                },
                _ => true,
            }
            &&& (ev is TableEnd) ==> st2.buffer.len() == 0 && starts_with(out, lines_text(st.buffer))
        }),
{
    let (out, st2) = sql_step(st, ev);
    if ev is TableEnd {
        let l = lines_text(st.buffer);
        assert(out.subrange(0, l.len() as int) =~= l);
    }
}

/// The INSERT lines that one call of the SQL writer writes out: the whole
/// batch when a row fills it, every buffered line at the end of a table,
/// none otherwise.
pub open spec fn sql_step_flushed(st: SqlState, ev: DumpEventView) -> Seq<Seq<char>> {
    match ev {
        DumpEventView::Row { raw_values, owner, table, .. } => {
            let buf = st.buffer.push(insert_statement(owner, table, raw_values));
            if buf.len() >= st.batch_size {
                buf
            } else {
                Seq::empty()
            }
        },
        DumpEventView::TableEnd { .. } => st.buffer,
        _ => Seq::empty(),
    }
}

/// The state of the SQL writer after the events `evs`, from `st`.
pub open spec fn sql_state_after(st: SqlState, evs: Seq<DumpEventView>) -> SqlState
    decreases evs.len(),
{
    if evs.len() == 0 {
        st
    } else {
        sql_step(sql_state_after(st, evs.drop_last()), evs.last()).1
    }
}

/// The INSERT lines written out over the events `evs`, in the order written.
pub open spec fn sql_flushed(st: SqlState, evs: Seq<DumpEventView>) -> Seq<Seq<char>>
    decreases evs.len(),
{
    if evs.len() == 0 {
        Seq::empty()
    } else {
        sql_flushed(st, evs.drop_last()) + sql_step_flushed(sql_state_after(st, evs.drop_last()), evs.last())
    }
}

/// The INSERT statement of each Row event, in event order.
pub open spec fn row_inserts(evs: Seq<DumpEventView>) -> Seq<Seq<char>>
    decreases evs.len(),
{
    if evs.len() == 0 {
        Seq::empty()
    } else {
        match evs.last() {
            DumpEventView::Row { raw_values, owner, table, .. } => row_inserts(evs.drop_last()).push(
                insert_statement(owner, table, raw_values),
            ),
            _ => row_inserts(evs.drop_last()),
        }
    }
}

/// What a call writes begins with the INSERT lines it writes out.
pub proof fn law_sql_step_writes_flushed(st: SqlState, ev: DumpEventView)
    ensures
        starts_with(sql_step(st, ev).0, lines_text(sql_step_flushed(st, ev))),
{
    let out = sql_step(st, ev).0;
    let l = lines_text(sql_step_flushed(st, ev));
    assert(out.subrange(0, l.len() as int) =~= l);
}

/// Batching over a whole sequence of calls of the SQL writer: the INSERT
/// lines written out, followed by those still buffered, are exactly the
/// statements of the Row events in order (none lost, none twice); fewer
/// than a batch stay buffered; and after a TableEnd none is.
pub proof fn law_sql_batch_run(st: SqlState, evs: Seq<DumpEventView>)
    requires
        st.batch_size >= 1,
        st.buffer.len() < st.batch_size,
    ensures
        sql_flushed(st, evs) + sql_state_after(st, evs).buffer == st.buffer + row_inserts(evs),
        sql_state_after(st, evs).batch_size == st.batch_size,
        sql_state_after(st, evs).buffer.len() < st.batch_size,
        evs.len() > 0 && evs.last() is TableEnd ==> sql_state_after(st, evs).buffer.len() == 0,
    decreases evs.len(),
{
    if evs.len() > 0 {
        let prev = evs.drop_last();
        law_sql_batch_run(st, prev);
        let s = sql_state_after(st, prev);
        law_sql_batch(s, evs.last());
        match evs.last() {
            DumpEventView::Row { raw_values, owner, table, .. } => {
                let line = insert_statement(owner, table, raw_values);
                assert(sql_flushed(st, evs) + sql_state_after(st, evs).buffer =~= sql_flushed(st, prev)
                    + s.buffer.push(line));
                assert(st.buffer + row_inserts(evs) =~= (st.buffer + row_inserts(prev)).push(line));
            },
            DumpEventView::TableEnd { .. } => {
                assert(sql_flushed(st, evs) + sql_state_after(st, evs).buffer =~= sql_flushed(st, prev)
                    + s.buffer);
            },
            _ => {
                assert(sql_flushed(st, evs) =~= sql_flushed(st, prev));
            },
        }
    }
}

// ─────────────────────────────────────────────────────────────
// CSV table spans
// ─────────────────────────────────────────────────────────────

/// The state of the CSV writer after the events `evs`, from `st`.
pub open spec fn csv_state_after(st: CsvState, evs: Seq<DumpEventView>) -> CsvState
    decreases evs.len(),
{
    if evs.len() == 0 {
        st
    } else {
        csv_step(csv_state_after(st, evs.drop_last()), evs.last()).1
    }
}

/// All the text the CSV writer writes for the events `evs`, from `st`.
pub open spec fn csv_text(st: CsvState, evs: Seq<DumpEventView>) -> Seq<char>
    decreases evs.len(),
{
    if evs.len() == 0 {
        Seq::empty()
    } else {
        csv_text(st, evs.drop_last()) + csv_step(csv_state_after(st, evs.drop_last()), evs.last()).0
    }
}

/// Whether a table is open after the events `evs`: the last TableStart or
/// TableEnd among them decides, `base` when there is none.
pub open spec fn in_table_after(evs: Seq<DumpEventView>, base: bool) -> bool
    decreases evs.len(),
{
    if evs.len() == 0 {
        base
    } else {
        match evs.last() {
            DumpEventView::TableStart { .. } => true,
            DumpEventView::TableEnd { .. } => false,
            _ => in_table_after(evs.drop_last(), base),
        }
    }
}

/// The text the CSV writer writes for an event, given whether a table is
/// open: a comment line for a table start, a table end and a DDL statement
/// (in any state), a line of cells for a row inside a table, nothing for a
/// row outside one and for any other event.
pub open spec fn csv_event_text(ev: DumpEventView, in_table: bool, delimiter: u8) -> Seq<char> {
    match ev {
        DumpEventView::TableStart { owner, table_name } => "-- Table: "@ + owner + "."@ + table_name + "\n"@,
        DumpEventView::Row { raw_values, .. } => if in_table {
            join(raw_values.map_values(|v: Option<Seq<u8>>| csv_cell(v)), seq![delimiter as char]) + "\n"@
        } else {
            Seq::empty()
        },
        DumpEventView::TableEnd { table, rows_written } => "-- End of "@ + table + ": "@ + dec(
            rows_written as nat,
        ) + " rows\n"@,
        DumpEventView::DdlStatement { sql, .. } => "-- DDL: "@ + first_line(sql) + "\n"@,
        _ => Seq::empty(),
    }
}

/// Table spans over a whole sequence of calls of the CSV writer: a
/// TableStart opens a span and a TableEnd closes it; the text of each
/// event is what `csv_event_text` gives for the span state left by the
/// events before it, so rows outside a span write nothing and rows inside
/// one write their line.
pub proof fn law_csv_table_span(st: CsvState, evs: Seq<DumpEventView>)
    ensures
        csv_state_after(st, evs).in_table == in_table_after(evs, st.in_table),
        csv_state_after(st, evs).delimiter == st.delimiter,
        evs.len() > 0 ==> csv_text(st, evs) == csv_text(st, evs.drop_last()) + csv_event_text(
            evs.last(),
            in_table_after(evs.drop_last(), st.in_table),
            st.delimiter,
        ),
    decreases evs.len(),
{
    if evs.len() > 0 {
        law_csv_table_span(st, evs.drop_last());
    }
}

// ─────────────────────────────────────────────────────────────
// CSV records
// ─────────────────────────────────────────────────────────────

/// Inside a quoted CSV field that starts before `i`: the index of its
/// closing quote (a `""` pair is a quote inside the field), or the length
/// when it is not closed.
pub open spec fn quoted_end(s: Seq<char>, i: int) -> int
    decreases s.len() - i,
{
    if i < 0 || i >= s.len() {
        s.len() as int
    } else if s[i] == '"' {
        if i + 1 < s.len() && s[i + 1] == '"' {
            quoted_end(s, i + 2)
        } else {
            i
        }
    } else {
        quoted_end(s, i + 1)
    }
}

/// The first index `>= i` of a comma, or the length.
pub open spec fn first_comma(s: Seq<char>, i: int) -> int
    decreases s.len() - i,
{
    if i < 0 || i >= s.len() {
        s.len() as int
    } else if s[i] == ',' {
        i
    } else {
        first_comma(s, i + 1)
    }
}

/// Where the first field of a CSV record ends: after the closing quote of
/// a quoted field, else at the first comma (or the end).
pub open spec fn field_end(s: Seq<char>) -> int {
    if s.len() > 0 && s[0] == '"' {
        let c = quoted_end(s, 1);
        if c < s.len() {
            c + 1
        } else {
            s.len() as int
        }
    } else {
        first_comma(s, 0)
    }
}

/// The text inside a quoted field: each `""` pair is one quote.
pub open spec fn undouble(s: Seq<char>) -> Seq<char>
    decreases s.len(),
{
    if s.len() == 0 {
        Seq::empty()
    } else if s.len() >= 2 && s[0] == '"' && s[1] == '"' {
        seq!['"'] + undouble(s.subrange(2, s.len() as int))
    } else {
        seq![s[0]] + undouble(s.subrange(1, s.len() as int))
    }
}

/// The value of a CSV field: a quoted field without its quotes and with
/// its pairs undoubled, any other field as it stands.
pub open spec fn field_value(f: Seq<char>) -> Seq<char> {
    if f.len() >= 2 && f[0] == '"' && f.last() == '"' {
        undouble(f.subrange(1, f.len() - 1))
    } else {
        f
    }
}

/// The field values of one CSV record (without its line end), parsed as
/// RFC 4180 reads it: comma-separated fields, each either plain text or
/// enclosed in double quotes with `""` standing for a quote.
pub open spec fn csv_fields(s: Seq<char>) -> Seq<Seq<char>>
    decreases s.len(),
{
    let k = field_end(s);
    if 0 <= k < s.len() {
        seq![field_value(s.subrange(0, k))] + csv_fields(s.subrange(k + 1, s.len() as int))
    } else {
        seq![field_value(s)]
    }
}

/// The text a CSV cell holds: nothing for NULL, else the bytes as text.
pub open spec fn cell_text(v: Option<Seq<u8>>) -> Seq<char> {
    match v {
        None => Seq::empty(),
        Some(b) => utf8_lossy(b),
    }
}

proof fn lemma_replace_append(a: Seq<char>, b: Seq<char>)
    ensures
        replace_char(a + b, '"', seq!['"', '"']) == replace_char(a, '"', seq!['"', '"'])
            + replace_char(b, '"', seq!['"', '"']),
    decreases b.len(),
{
    if b.len() == 0 {
        assert(a + b =~= a);
        assert(replace_char(a, '"', seq!['"', '"']) + replace_char(b, '"', seq!['"', '"'])
            =~= replace_char(a, '"', seq!['"', '"']));
    } else {
        lemma_replace_append(a, b.drop_last());
        assert((a + b).drop_last() =~= a + b.drop_last());
    }
}

/// The one or two characters that a character becomes when quotes double.
pub open spec fn doubled(c: char) -> Seq<char> {
    if c == '"' {
        seq!['"', '"']
    } else {
        seq![c]
    }
}

proof fn lemma_replace_front(x: Seq<char>)
    requires
        x.len() > 0,
    ensures
        replace_char(x, '"', seq!['"', '"']) == doubled(x[0]) + replace_char(
            x.subrange(1, x.len() as int),
            '"',
            seq!['"', '"'],
        ),
{
    lemma_replace_append(seq![x[0]], x.subrange(1, x.len() as int));
    assert(seq![x[0]] + x.subrange(1, x.len() as int) =~= x);
    let one = seq![x[0]];
    assert(one.drop_last() =~= Seq::<char>::empty());
    assert(one.last() == x[0]);
    assert(replace_char(one.drop_last(), '"', seq!['"', '"']) =~= Seq::<char>::empty());
    assert(replace_char(one, '"', seq!['"', '"']) =~= doubled(x[0]));
}

proof fn lemma_undouble(x: Seq<char>)
    ensures
        undouble(replace_char(x, '"', seq!['"', '"'])) == x,
    decreases x.len(),
{
    if x.len() > 0 {
        let rest = x.subrange(1, x.len() as int);
        lemma_replace_front(x);
        lemma_undouble(rest);
        let q = replace_char(x, '"', seq!['"', '"']);
        let r = replace_char(rest, '"', seq!['"', '"']);
        let k = doubled(x[0]).len() as int;
        assert(q.subrange(k, q.len() as int) =~= r);
        assert(seq![x[0]] + rest =~= x);
    } else {
        assert(replace_char(x, '"', seq!['"', '"']) =~= Seq::<char>::empty());
    }
}

/// Scanning a quoted field stops at its closing quote, whatever stands
/// in front of the scan position and whatever the field holds.
proof fn lemma_quoted_end(x: Seq<char>, pre: Seq<char>, t: Seq<char>)
    requires
        t.len() == 0 || t[0] != '"',
        pre.len() >= 1,
    ensures
        quoted_end(
            pre + replace_char(x, '"', seq!['"', '"']) + seq!['"'] + t,
            pre.len() as int,
        ) == pre.len() + replace_char(x, '"', seq!['"', '"']).len(),
    decreases x.len(),
{
    let q = replace_char(x, '"', seq!['"', '"']);
    let s = pre + q + seq!['"'] + t;
    let p = pre.len() as int;
    if x.len() == 0 {
        assert(q =~= Seq::<char>::empty());
        assert(s[p] == '"');
        if p + 1 < s.len() {
            assert(s[p + 1] == t[0]);
        }
    } else {
        let rest = x.subrange(1, x.len() as int);
        lemma_replace_front(x);
        let dq = doubled(x[0]);
        let pre2 = pre + dq;
        lemma_quoted_end(rest, pre2, t);
        let r = replace_char(rest, '"', seq!['"', '"']);
        assert(s =~= pre2 + r + seq!['"'] + t);
        if x[0] == '"' {
            assert(s[p] == '"' && s[p + 1] == '"');
        } else {
            assert(s[p] == x[0]);
        }
    }
}

proof fn lemma_first_comma(x: Seq<char>, t: Seq<char>, i: int)
    requires
        0 <= i <= x.len(),
        !x.contains(','),
        t.len() == 0 || t[0] == ',',
    ensures
        first_comma(x + t, i) == x.len(),
    decreases x.len() - i,
{
    let s = x + t;
    if i < x.len() {
        assert(s[i] == x[i]);
        assert(x[i] != ',') by {
            if x[i] == ',' {
                assert(x.contains(','));
            }
        }
        lemma_first_comma(x, t, i + 1);
    } else if t.len() > 0 {
        assert(s[i] == t[0]);
    }
}

/// The first field of `csv_escape_text(x)` followed by nothing or by a
/// comma ends where the escaped text ends, and its value is `x`.
proof fn lemma_escaped_field(x: Seq<char>, t: Seq<char>)
    requires
        t.len() == 0 || t[0] == ',',
    ensures
        field_end(csv_escape_text(x) + t) == csv_escape_text(x).len(),
        field_value(csv_escape_text(x)) == x,
{
    let e = csv_escape_text(x);
    let s = e + t;
    if x.contains(',') || x.contains('"') || x.contains('\n') {
        let q = replace_char(x, '"', seq!['"', '"']);
        lemma_quoted_end(x, seq!['"'], t);
        assert(s =~= seq!['"'] + q + seq!['"'] + t);
        assert(s[0] == '"');
        lemma_undouble(x);
        assert(e.subrange(1, e.len() - 1) =~= q);
    } else {
        assert(e == x);
        lemma_first_comma(x, t, 0);
        if x.len() > 0 {
            assert(s[0] == x[0]);
            assert(x[0] != '"') by {
                if x[0] == '"' {
                    assert(x.contains('"'));
                }
            }
        } else if t.len() > 0 {
            assert(s[0] == t[0]);
        }
    }
}

proof fn lemma_join_front(parts: Seq<Seq<char>>, sep: Seq<char>)
    requires
        parts.len() >= 2,
    ensures
        join(parts, sep) == parts[0] + sep + join(parts.subrange(1, parts.len() as int), sep),
    decreases parts.len(),
{
    let tail = parts.subrange(1, parts.len() as int);
    let dl = parts.drop_last();
    assert(join(parts, sep) == join(dl, sep) + sep + parts.last());
    if parts.len() == 2 {
        assert(dl.len() == 1);
        assert(join(dl, sep) == dl[0]);
        assert(dl[0] == parts[0]);
        assert(tail.len() == 1);
        assert(join(tail, sep) == tail[0]);
        assert(tail[0] == parts[1]);
        assert(parts.last() == parts[1]);
    } else {
        lemma_join_front(dl, sep);
        assert(dl.subrange(1, dl.len() as int) =~= tail.drop_last());
        assert(tail.last() == parts.last());
        assert(join(tail, sep) == join(tail.drop_last(), sep) + sep + tail.last());
        assert(dl[0] == parts[0]);
    }
}

/// Parsing a record whose first field is `e`, ending right before a comma.
proof fn lemma_csv_fields_step(e: Seq<char>, j: Seq<char>)
    requires
        field_end(e + (seq![','] + j)) == e.len(),
    ensures
        csv_fields(e + (seq![','] + j)) == seq![field_value(e)] + csv_fields(j),
{
    let s = e + (seq![','] + j);
    let k = e.len() as int;
    assert(s.subrange(0, k) =~= e);
    assert(s.subrange(k + 1, s.len() as int) =~= j);
}

/// Parsing the comma-joined escaped texts gives back the texts.
proof fn lemma_csv_fields_join(xs: Seq<Seq<char>>)
    requires
        xs.len() >= 1,
    ensures
        csv_fields(join(xs.map_values(|x: Seq<char>| csv_escape_text(x)), seq![','])) == xs,
    decreases xs.len(),
{
    let parts = xs.map_values(|x: Seq<char>| csv_escape_text(x));
    if xs.len() == 1 {
        assert(join(parts, seq![',']) == parts[0]);
        lemma_escaped_field(xs[0], Seq::empty());
        assert(parts[0] + Seq::<char>::empty() =~= parts[0]);
        assert(seq![xs[0]] =~= xs);
    } else {
        let rest = xs.subrange(1, xs.len() as int);
        let rp = rest.map_values(|x: Seq<char>| csv_escape_text(x));
        lemma_join_front(parts, seq![',']);
        assert(parts.subrange(1, parts.len() as int) =~= rp);
        let j = join(rp, seq![',']);
        let e = parts[0];
        assert(e == csv_escape_text(xs[0]));
        lemma_escaped_field(xs[0], seq![','] + j);
        assert(join(parts, seq![',']) =~= e + (seq![','] + j));
        lemma_csv_fields_step(e, j);
        lemma_csv_fields_join(rest);
        assert(seq![xs[0]] + rest =~= xs);
    }
}

/// A CSV row line read back: inside a table, with `,` as delimiter, the
/// line written for a row (at least one column) ends with a newline and,
/// parsed as RFC 4180 reads it, has one field per column: empty for NULL,
/// the column's text otherwise.
pub proof fn law_csv_row_roundtrip(st: CsvState, ev: DumpEventView)
    requires
        st.in_table,
        st.delimiter == 0x2Cu8,
        ev matches DumpEventView::Row { raw_values, .. } && raw_values.len() >= 1,
    ensures
        ({
            let out = csv_step(st, ev).0;
            &&& out.len() >= 1
            &&& out.last() == '\n'
            &&& csv_fields(out.drop_last()) == ev->raw_values.map_values(|v: Option<Seq<u8>>| cell_text(v))
        }),
{
    let rv = ev->raw_values;
    let xs = rv.map_values(|v: Option<Seq<u8>>| cell_text(v));
    assert(rv.map_values(|v: Option<Seq<u8>>| csv_cell(v)) =~= xs.map_values(
        |x: Seq<char>| csv_escape_text(x),
    )) by {
        assert forall|i: int| 0 <= i < rv.len() implies csv_cell(rv[i]) == csv_escape_text(
            #[trigger] xs[i],
        ) by {
            if rv[i] is None {
                assert(!Seq::<char>::empty().contains(','));
                assert(!Seq::<char>::empty().contains('"'));
                assert(!Seq::<char>::empty().contains('\n'));
            }
        }
    }
    assert((0x2Cu8 as char) == ',');
    let line = join(xs.map_values(|x: Seq<char>| csv_escape_text(x)), seq![',']);
    lemma_csv_fields_join(xs);
    let out = csv_step(st, ev).0;
    reveal_strlit("\n");
    assert(out == line + "\n"@);
    assert(out.drop_last() =~= line);
}

// ─────────────────────────────────────────────────────────────
// What the decoders, the event reader, the SQL writer and the
// export filter answer, stated directly
// ─────────────────────────────────────────────────────────────

/// A DATE of seven bytes (century+100, year+100, month, day, hour+1,
/// minute+1, second+1) reads as `YYYY-MM-DD`, and then a space and
/// `HH:MM:SS` unless the time is exactly 00:00:00: any other hour, minute
/// or second is shown.
pub proof fn law_date_shows_time(d: Seq<u8>)
    requires
        d.len() == 7,
    ensures
        ({
            let ymd = signed_pad((d[0] - 100) * 100 + (d[1] - 100), 4) + "-"@ + zero_pad(
                dec(d[2] as nat),
                2,
            ) + "-"@ + zero_pad(dec(d[3] as nat), 2);
            let hms = signed_pad(d[4] - 1, 2) + ":"@ + signed_pad(d[5] - 1, 2) + ":"@ + signed_pad(
                d[6] - 1,
                2,
            );
            &&& (d[4] != 1 || d[5] != 1 || d[6] != 1) ==> date_text(d) == ymd + " "@ + hms
            &&& (d[4] == 1 && d[5] == 1 && d[6] == 1) ==> date_text(d) == ymd
        }),
{
}

/// A TIMESTAMP with a non-zero nanosecond count always shows the time,
/// midnight included: `YYYY-MM-DD HH:MM:SS.nnnnnnnnn`.
pub proof fn law_timestamp_shows_time(d: Seq<u8>)
    requires
        d.len() >= 11,
        d[7] as int * 16777216 + d[8] as int * 65536 + d[9] as int * 256 + d[10] as int > 0,
    ensures
        ({
            let ns = d[7] as int * 16777216 + d[8] as int * 65536 + d[9] as int * 256 + d[10] as int;
            timestamp_text(d) == signed_pad((d[0] - 100) * 100 + (d[1] - 100), 4) + "-"@ + zero_pad(
                dec(d[2] as nat),
                2,
            ) + "-"@ + zero_pad(dec(d[3] as nat), 2) + " "@ + signed_pad(d[4] - 1, 2) + ":"@
                + signed_pad(d[5] - 1, 2) + ":"@ + signed_pad(d[6] - 1, 2) + "."@ + zero_pad(
                dec(ns as nat),
                9,
            )
        }),
{
    let day = d.subrange(0, 7);
    assert(day[0] == d[0] && day[1] == d[1] && day[2] == d[2] && day[3] == d[3]);
    assert(day[4] == d[4] && day[5] == d[5] && day[6] == d[6]);
}

/// Every DDL-carrying record (type 6 DDL statement, 18 view, 19 trigger,
/// 20 procedure body, 21 sequence, 22 synonym) whose text is not blank is
/// read as a DdlStatement event with that text (decoded in the dump's
/// character set, NULs trimmed) and the record's offset, and reading goes
/// on after the record.
pub proof fn law_ddl_records(d: Seq<u8>, enc: Option<NlsEncoding>, st: EventState)
    requires
        st.pos >= 0,
        record_step(d, st.pos) matches RecordStep::Rec { code, start, len, next } && (code == 6 || code
            == 18 || code == 19 || code == 20 || code == 21 || code == 22) && crate::text::trim_ws(
            crate::text::trim_char(crate::parser::text_of(enc, d.subrange(start, start + len)), '\0'),
        ).len() > 0,
    ensures
        match record_step(d, st.pos) {
            RecordStep::Rec { start, len, next, .. } => event_step(d, enc, st) == (
                Some(
                    Ok::<DumpEventView, DumpErrorView>(
                        DumpEventView::DdlStatement {
                            sql: crate::text::trim_char(
                                crate::parser::text_of(enc, d.subrange(start, start + len)),
                                '\0',
                            ),
                            byte_offset: st.pos as usize,
                        },
                    ),
                ),
                EventState { pos: next, ..st },
            ),
            _ => true,
        },
{
    crate::parser::lemma_record_step_bounds(d, st.pos);
}

/// Whether a character may stand in an unquoted SQL number: `0`-`9`,
/// `.`, `-` or `+`.
pub open spec fn plain_number_char(c: char) -> bool {
    ('0' <= c && c <= '9') || c == '.' || c == '-' || c == '+'
}

/// How a column value is written in an INSERT statement: valid UTF-8
/// text made only of digits, `.`, `-` and `+` (every character, and at
/// least one) stands bare; any other text is single-quoted with its quotes
/// doubled; other bytes are written as `HEXTORAW('<hex>')`.
pub proof fn law_sql_literal_forms(raw: Seq<u8>)
    ensures
        ({
            let s = vstd::utf8::decode_utf8(raw);
            &&& vstd::utf8::valid_utf8(raw) && s.len() > 0 && (forall|i: int|
                0 <= i < s.len() ==> plain_number_char(#[trigger] s[i])) ==> crate::output::sql_literal(
                raw,
            ) == s
            &&& vstd::utf8::valid_utf8(raw) && (s.len() == 0 || exists|i: int|
                0 <= i < s.len() && !plain_number_char(#[trigger] s[i])) ==> crate::output::sql_literal(
                raw,
            ) == seq!['\''] + replace_char(s, '\'', seq!['\'', '\'']) + seq!['\'']
            &&& !vstd::utf8::valid_utf8(raw) ==> crate::output::sql_literal(raw) == "HEXTORAW('"@
                + crate::types::hex_bytes(raw) + "')"@
        }),
{
    let s = vstd::utf8::decode_utf8(raw);
    if vstd::utf8::valid_utf8(raw) && s.len() > 0 && exists|i: int|
        0 <= i < s.len() && !plain_number_char(#[trigger] s[i]) {
        let i = choose|i: int| 0 <= i < s.len() && !plain_number_char(#[trigger] s[i]);
        assert(!crate::output::numeric_char(s[i]));
    }
}

/// How a column is decoded by its type. Every text type (VARCHAR2,
/// NVARCHAR2, CHAR, NCHAR, LONG, XMLTYPE, CLOB and NCLOB alike) is decoded
/// with the dump's character set when it has one, else as lossy UTF-8;
/// NUMBER and FLOAT give the number's text; DATE and the TIMESTAMP types
/// their text; RAW, LONG RAW, BLOB and BFILE the bytes; an empty column is
/// empty text whatever its type.
pub proof fn law_column_decoding(raw: Seq<u8>, t: OracleType, enc: Option<NlsEncoding>)
    ensures
        raw.len() == 0 ==> column_value_of(raw, t, enc) == ColumnValueView::Text(Seq::empty()),
        raw.len() > 0 && (t is Varchar2 || t is Nvarchar2 || t is Char || t is Nchar || t is Long
            || t is XmlType || t is Clob || t is Nclob) ==> column_value_of(raw, t, enc) == match enc {
            Some(e) => ColumnValueView::Text(crate::parser::encoding_decode(e, raw)),
            None => ColumnValueView::Text(utf8_lossy(raw)),
        },
        raw.len() > 0 && (t is Number || t is Float) ==> column_value_of(raw, t, enc)
            == ColumnValueView::Number(number_text(raw)),
        raw.len() > 0 && t is Date ==> column_value_of(raw, t, enc) == ColumnValueView::Text(
            date_text(raw),
        ),
        raw.len() > 0 && (t is Timestamp || t is TimestampWithTZ || t is TimestampWithLocalTZ)
            ==> column_value_of(raw, t, enc) == ColumnValueView::Text(timestamp_text(raw)),
        raw.len() > 0 && (t is Raw || t is LongRaw || t is Blob || t is Bfile) ==> column_value_of(
            raw,
            t,
            enc,
        ) == ColumnValueView::Bytes(raw),
{
}

/// The table filter of an export: with a filter, a table is passed exactly
/// when the (upper-cased) filter occurs at some position of the
/// upper-cased table name, anywhere in it, not only at its start; without
/// one, every table is passed. Either way the table's row count starts
/// again at 0.
pub proof fn law_table_filter(st: FilterState, owner: Seq<char>, table_name: Seq<char>)
    ensures
        ({
            let (a, st2) = filter_step(st, DumpEventView::TableStart { owner, table_name });
            let name = crate::text::unicode_upper(table_name);
            &&& st2.rows_in_table == 0
            &&& st2.in_matching_table == (a == FilterAction::Handle)
            &&& (a == FilterAction::Handle || a == FilterAction::Skip)
            &&& match st.filter {
                None => a == FilterAction::Handle,
                Some(f) => (a == FilterAction::Handle <==> exists|i: int|
                    0 <= i && i + f.len() <= name.len() && #[trigger] name.subrange(i, i + f.len()) == f),
            }
        }),
{
    let name = crate::text::unicode_upper(table_name);
    match st.filter {
        None => {},
        Some(f) => {
            if crate::text::contains_seq(name, f) {
                let i = choose|i: int| #[trigger] crate::text::occurs_at(name, f, i);
                assert(name.subrange(i, i + f.len()) == f);
            }
            if exists|i: int| 0 <= i && i + f.len() <= name.len() && #[trigger] name.subrange(i, i + f.len())
                == f {
                let i = choose|i: int|
                    0 <= i && i + f.len() <= name.len() && #[trigger] name.subrange(i, i + f.len()) == f;
                assert(crate::text::occurs_at(name, f, i));
            }
        },
    }
}

} // verus!
