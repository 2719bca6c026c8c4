//! Output formatters: CSV, SQL INSERT statements, JSON Lines and a hex
//! dump. Each formatter takes one event at a time and returns the text to
//! write for it.

use vstd::prelude::*;
use vstd::utf8::{valid_utf8, decode_utf8};
use crate::reader::{DumpEvent, DumpEventView, values_view};
use crate::text::{chars_of, dec, hex, lit, lossy_chars, push_all, push_dec, push_hex_padded,
    push_str, string_from_chars, trim_end_char, trim_end_char_chars, utf8_chars, utf8_lossy,
    zero_pad};
use crate::types::{hex_bytes, push_hex_bytes};

verus! {

// ─────────────────────────────────────────────────────────────
// Text pieces
// ─────────────────────────────────────────────────────────────

/// The parts joined with `sep` between them.
pub open spec fn join(parts: Seq<Seq<char>>, sep: Seq<char>) -> Seq<char>
    decreases parts.len(),
{
    if parts.len() == 0 {
        Seq::empty()
    } else if parts.len() == 1 {
        parts[0]
    } else {
        join(parts.drop_last(), sep) + sep + parts.last()
    }
}

/// Each part followed by a newline.
pub open spec fn lines_text(parts: Seq<Seq<char>>) -> Seq<char>
    decreases parts.len(),
{
    if parts.len() == 0 {
        Seq::empty()
    } else {
        lines_text(parts.drop_last()) + parts.last() + "\n"@
    }
}

/// `s` with every `c` replaced by `r`.
pub open spec fn replace_char(s: Seq<char>, c: char, r: Seq<char>) -> Seq<char>
    decreases s.len(),
{
    if s.len() == 0 {
        Seq::empty()
    } else {
        replace_char(s.drop_last(), c, r) + if s.last() == c {
            r
        } else {
            seq![s.last()]
        }
    }
}

/// The first index `>= from` holding `c`, if any.
pub open spec fn first_char(s: Seq<char>, c: char, from: int) -> Option<int>
    decreases s.len() - from,
{
    if from < 0 || from >= s.len() {
        None
    } else if s[from] == c {
        Some(from)
    } else {
        first_char(s, c, from + 1)
    }
}

/// The first line of a text as `str::lines` gives it: up to the first
/// `\n` without a `\r` just before it, or the whole text when there is no
/// `\n`; empty text has no line and shows as empty.
pub open spec fn first_line(s: Seq<char>) -> Seq<char> {
    match first_char(s, '\n', 0) {
        None => s,
        Some(k) => if k > 0 && s[k - 1] == '\r' {
            s.subrange(0, k - 1)
        } else {
            s.subrange(0, k)
        },
    }
}

/// Appends the parts joined with `sep`.
fn push_joined(out: &mut Vec<char>, parts: &Vec<Vec<char>>, sep: &Vec<char>)
    ensures
        final(out)@ == old(out)@ + join(parts@.map_values(|p: Vec<char>| p@), sep@),
{
    let ghost pv = parts@.map_values(|p: Vec<char>| p@);
    let mut i: usize = 0;
    while i < parts.len()
        invariant
            i <= parts@.len(),
            pv == parts@.map_values(|p: Vec<char>| p@),
            out@ == old(out)@ + join(pv.subrange(0, i as int), sep@),
        decreases parts@.len() - i,
    {
        if i > 0 {
            push_all(out, sep.as_slice());
        }
        push_all(out, parts[i].as_slice());
        i = i + 1;
        proof {
            let sub = pv.subrange(0, i as int);
            assert(sub.drop_last() =~= pv.subrange(0, i - 1));
            assert(sub.last() == parts@[i - 1]@);
            if i == 1 {
                assert(join(sub, sep@) == sub[0]);
            }
        }
    }
    assert(pv.subrange(0, parts@.len() as int) =~= pv);
}

/// Appends `s` with every `c` replaced by `r`.
fn push_replaced(out: &mut Vec<char>, s: &[char], c: char, r: &Vec<char>)
    ensures
        final(out)@ == old(out)@ + replace_char(s@, c, r@),
{
    let mut i: usize = 0;
    while i < s.len()
        invariant
            i <= s@.len(),
            out@ == old(out)@ + replace_char(s@.subrange(0, i as int), c, r@),
        decreases s@.len() - i,
    {
        if s[i] == c {
            push_all(out, r.as_slice());
        } else {
            out.push(s[i]);
        }
        i = i + 1;
        assert(s@.subrange(0, i as int).drop_last() =~= s@.subrange(0, i - 1));
    }
    assert(s@.subrange(0, s@.len() as int) =~= s@);
}

/// The first line of `s`.
fn first_line_chars(s: &[char]) -> (r: Vec<char>)
    ensures
        r@ == first_line(s@),
{
    let mut k: usize = 0;
    while k < s.len() && s[k] != '\n'
        invariant
            k <= s@.len(),
            first_char(s@, '\n', 0) == first_char(s@, '\n', k as int),
        decreases s@.len() - k,
    {
        k = k + 1;
    }
    if k == s.len() {
        assert(s@.subrange(0, k as int) =~= s@);
        return vstd::slice::slice_to_vec(s);
    }
    let end = if k > 0 && s[k - 1] == '\r' { k - 1 } else { k };
    vstd::slice::slice_to_vec(s.split_at(end).0)
}

// ─────────────────────────────────────────────────────────────
// CSV
// ─────────────────────────────────────────────────────────────

/// A CSV field, quoted (with quotes doubled) when it holds `,`, `"` or a newline.
pub open spec fn csv_escape_text(s: Seq<char>) -> Seq<char> {
    if s.contains(',') || s.contains('"') || s.contains('\n') {
        seq!['"'] + replace_char(s, '"', seq!['"', '"']) + seq!['"']
    } else {
        s
    }
}

/// Quotes a CSV field when needed.
pub fn csv_escape(s: &[char]) -> (r: Vec<char>)
    ensures
        r@ == csv_escape_text(s@),
{
    if crate::text::chars_contain_char(s, ',') || crate::text::chars_contain_char(s, '"')
        || crate::text::chars_contain_char(s, '\n') {
        let mut v: Vec<char> = Vec::new();
        v.push('"');
        let mut dq: Vec<char> = Vec::new();
        dq.push('"');
        dq.push('"');
        push_replaced(&mut v, s, '"', &dq);
        v.push('"');
        assert(dq@ =~= seq!['"', '"']);
        assert(v@ =~= csv_escape_text(s@));
        v
    } else {
        vstd::slice::slice_to_vec(s)
    }
}

/// A CSV cell: empty for NULL, else the bytes as lossy UTF-8, escaped.
pub open spec fn csv_cell(v: Option<Seq<u8>>) -> Seq<char> {
    match v {
        None => Seq::empty(),
        Some(b) => csv_escape_text(utf8_lossy(b)),
    }
}

/// The state of a `CsvWriter`.
pub struct CsvState {
    pub delimiter: u8,
    pub in_table: bool,
    pub col_count: usize,
}

/// What a `CsvWriter` writes for an event, and its next state.
pub open spec fn csv_step(st: CsvState, ev: DumpEventView) -> (Seq<char>, CsvState) {
    match ev {
        DumpEventView::TableStart { owner, table_name } => (
            "-- Table: "@ + owner + "."@ + table_name + "\n"@,
            CsvState { in_table: true, col_count: 0, ..st },
        ),
        DumpEventView::Row { raw_values, .. } => if st.in_table {
            (
                join(raw_values.map_values(|v: Option<Seq<u8>>| csv_cell(v)), seq![st.delimiter as char])
                    + "\n"@,
                CsvState { col_count: raw_values.len() as usize, ..st },
            )
        } else {
            (Seq::empty(), st)
        },
        DumpEventView::TableEnd { table, rows_written } => (
            "-- End of "@ + table + ": "@ + dec(rows_written as nat) + " rows\n"@,
            CsvState { in_table: false, ..st },
        ),
        DumpEventView::DdlStatement { sql, .. } => ("-- DDL: "@ + first_line(sql) + "\n"@, st),
        _ => (Seq::empty(), st),
    }
}

/// Writes dump events as CSV: a comment line per table start, end and DDL
/// statement, one line of cells per row inside a table.
pub struct CsvWriter {
    delimiter: u8,
    in_table: bool,
    col_count: usize,
}

impl CsvWriter {
    /// The writer's state.
    pub closed spec fn state(&self) -> CsvState {
        CsvState { delimiter: self.delimiter, in_table: self.in_table, col_count: self.col_count }
    }

    /// A writer with `,` as delimiter, outside any table.
    pub fn new() -> (w: Self)
        ensures
            w.state() == (CsvState { delimiter: 0x2Cu8, in_table: false, col_count: 0 }),
    {
        Self { delimiter: 0x2C, in_table: false, col_count: 0 }
    }

    /// The same writer with another delimiter.
    pub fn with_delimiter(self, delim: u8) -> (w: Self)
        ensures
            w.state() == (CsvState { delimiter: delim, ..self.state() }),
    {
        let mut s = self;
        s.delimiter = delim;
        s
    }

    /// The text to write for an event.
    pub fn handle_event(&mut self, event: &DumpEvent) -> (text: String)
        ensures
            (text@, final(self).state()) == csv_step(old(self).state(), event@),
    {
        proof {
            reveal_strlit("\n");
            reveal_strlit(".");
        }
        match event {
            DumpEvent::TableStart { owner, table_name } => {
                let mut v = lit("-- Table: ");
                push_str(&mut v, owner.as_str());
                push_str(&mut v, ".");
                push_str(&mut v, table_name.as_str());
                push_str(&mut v, "\n");
                self.in_table = true;
                self.col_count = 0;
                string_from_chars(v)
            },
            DumpEvent::Row { raw_values, .. } => {
                if self.in_table {
                    self.col_count = raw_values.len();
                    let mut cells: Vec<Vec<char>> = Vec::new();
                    let mut i: usize = 0;
                    while i < raw_values.len()
                        invariant
                            i <= raw_values@.len(),
                            cells@.len() == i,
                            forall|j: int| 0 <= j < i ==> #[trigger] cells@[j]@ == csv_cell(
                                values_view(raw_values@)[j],
                            ),
                        decreases raw_values@.len() - i,
                    {
                        let cell = match &raw_values[i] {
                            None => Vec::new(),
                            Some(b) => {
                                let text = lossy_chars(b.as_slice());
                                csv_escape(text.as_slice())
                            },
                        };
                        cells.push(cell);
                        i = i + 1;
                    }
                    let mut sep: Vec<char> = Vec::new();
                    sep.push(self.delimiter as char);
                    let mut v: Vec<char> = Vec::new();
                    push_joined(&mut v, &cells, &sep);
                    push_str(&mut v, "\n");
                    assert(cells@.map_values(|p: Vec<char>| p@) =~= values_view(raw_values@).map_values(
                        |v: Option<Seq<u8>>| csv_cell(v),
                    ));
                    assert(sep@ =~= seq![self.delimiter as char]);
                    string_from_chars(v)
                } else {
                    String::new()
                }
            },
            DumpEvent::TableEnd { table, rows_written } => {
                let mut v = lit("-- End of ");
                push_str(&mut v, table.as_str());
                push_str(&mut v, ": ");
                push_dec(&mut v, *rows_written);
                push_str(&mut v, " rows\n");
                self.in_table = false;
                string_from_chars(v)
            },
            DumpEvent::DdlStatement { sql, .. } => {
                let mut v = lit("-- DDL: ");
                let sc = chars_of(sql.as_str());
                let line = first_line_chars(sc.as_slice());
                push_all(&mut v, line.as_slice());
                push_str(&mut v, "\n");
                string_from_chars(v)
            },
            _ => String::new(),
        }
    }
}

// ─────────────────────────────────────────────────────────────
// SQL INSERT
// ─────────────────────────────────────────────────────────────

/// True for characters allowed in a literal written unquoted: digits,
/// `.`, `-`, `+`.
pub open spec fn numeric_char(c: char) -> bool {
    ('0' <= c <= '9') || c == '.' || c == '-' || c == '+'
}

/// True when `s` is non-empty and made of numeric characters only.
pub open spec fn is_numeric_text(s: Seq<char>) -> bool {
    s.len() > 0 && forall|i: int| 0 <= i < s.len() ==> numeric_char(#[trigger] s[i])
}

/// Whether `s` looks like a number.
fn is_numeric_str(s: &[char]) -> (r: bool)
    ensures
        r == is_numeric_text(s@),
{
    if s.len() == 0 {
        return false;
    }
    let mut i: usize = 0;
    while i < s.len()
        invariant
            i <= s@.len(),
            forall|j: int| 0 <= j < i ==> numeric_char(#[trigger] s@[j]),
        decreases s@.len() - i,
    {
        let c = s[i];
        if !(('0' <= c && c <= '9') || c == '.' || c == '-' || c == '+') {
            return false;
        }
        i = i + 1;
    }
    true
}

/// A column value as a SQL literal: valid UTF-8 text as it is when it
/// looks like a number, else single-quoted with quotes doubled; other
/// bytes as `HEXTORAW('<hex>')`.
pub open spec fn sql_literal(raw: Seq<u8>) -> Seq<char> {
    if valid_utf8(raw) {
        let s = decode_utf8(raw);
        if is_numeric_text(s) {
            s
        } else {
            seq!['\''] + replace_char(s, '\'', seq!['\'', '\'']) + seq!['\'']
        }
    } else {
        "HEXTORAW('"@ + hex_bytes(raw) + "')"@
    }
}

/// Renders a column value as a SQL literal.
fn sql_quote_value(raw: &[u8]) -> (r: Vec<char>)
    ensures
        r@ == sql_literal(raw@),
{
    match utf8_chars(raw) {
        Some(s) => {
            if is_numeric_str(s.as_slice()) {
                s
            } else {
                let mut v: Vec<char> = Vec::new();
                v.push('\'');
                let mut q: Vec<char> = Vec::new();
                q.push('\'');
                q.push('\'');
                push_replaced(&mut v, s.as_slice(), '\'', &q);
                v.push('\'');
                assert(q@ =~= seq!['\'', '\'']);
                assert(v@ =~= sql_literal(raw@));
                v
            }
        },
        None => {
            let mut v = lit("HEXTORAW('");
            push_hex_bytes(&mut v, raw);
            push_str(&mut v, "')");
            v
        },
    }
}

/// A SQL value: `NULL` or the literal.
pub open spec fn sql_value(v: Option<Seq<u8>>) -> Seq<char> {
    match v {
        None => "NULL"@,
        Some(b) => sql_literal(b),
    }
}

/// The INSERT statement for a row of a table (qualified by its owner when
/// there is one).
pub open spec fn insert_statement(owner: Seq<char>, table: Seq<char>, values: Seq<Option<Seq<u8>>>) -> Seq<char> {
    let qualified = if owner.len() == 0 {
        table
    } else {
        owner + "."@ + table
    };
    "INSERT INTO "@ + qualified + " VALUES ("@ + join(values.map_values(|v: Option<Seq<u8>>| sql_value(v)), ", "@)
        + ");"@
}

/// The state of a `SqlInsertWriter`.
pub struct SqlState {
    pub table: Seq<char>,
    pub owner: Seq<char>,
    pub batch_size: usize,
    pub buffer: Seq<Seq<char>>,
    pub total_rows: u64,
}

/// What a `SqlInsertWriter` writes for an event, and its next state. Rows
/// are buffered and written when the buffer holds a batch, or at the end
/// of the table.
pub open spec fn sql_step(st: SqlState, ev: DumpEventView) -> (Seq<char>, SqlState) {
    match ev {
        DumpEventView::DdlStatement { sql, .. } => (trim_end_char(sql, ';') + ";\n"@ + "\n"@, st),
        DumpEventView::TableStart { owner, table_name } => (
            "-- Loading table "@ + owner + "."@ + table_name + "\n"@,
            SqlState { owner, table: table_name, total_rows: 0, ..st },
        ),
        DumpEventView::Row { raw_values, owner, table, .. } => {
            let buf = st.buffer.push(insert_statement(owner, table, raw_values));
            let st1 = SqlState { buffer: buf, total_rows: (st.total_rows + 1) as u64, ..st };
            if buf.len() >= st.batch_size {
                (lines_text(buf), SqlState { buffer: Seq::empty(), ..st1 })
            } else {
                (Seq::empty(), st1)
            }
        },
        DumpEventView::TableEnd { table, rows_written } => (
            lines_text(st.buffer) + "-- End "@ + table + ": "@ + dec(rows_written as nat) + " rows\n"@
                + "COMMIT;\n"@ + "\n"@,
            SqlState { buffer: Seq::empty(), ..st },
        ),
        _ => (Seq::empty(), st),
    }
}

/// Writes dump events as SQL: DDL statements, and an INSERT statement per
/// row, written in batches and committed at the end of each table.
pub struct SqlInsertWriter {
    current_table: String,
    current_owner: String,
    batch_size: usize,
    row_buffer: Vec<String>,
    total_rows: u64,
}

impl SqlInsertWriter {
    /// The writer's state.
    pub closed spec fn state(&self) -> SqlState {
        SqlState {
            table: self.current_table@,
            owner: self.current_owner@,
            batch_size: self.batch_size,
            buffer: self.row_buffer@.map_values(|l: String| l@),
            total_rows: self.total_rows,
        }
    }

    /// A writer that writes rows in batches of `batch_size` (at least 1).
    pub fn new(batch_size: usize) -> (w: Self)
        ensures
            w.state() == (SqlState {
                table: Seq::empty(),
                owner: Seq::empty(),
                batch_size: if batch_size < 1 { 1 } else { batch_size },
                buffer: Seq::empty(),
                total_rows: 0,
            }),
    {
        let w = Self {
            current_table: String::new(),
            current_owner: String::new(),
            batch_size: if batch_size < 1 { 1 } else { batch_size },
            row_buffer: Vec::new(),
            total_rows: 0,
        };
        assert(w.state().buffer =~= Seq::<Seq<char>>::empty());
        w
    }

    /// How many rows were buffered since the last table start.
    pub fn total_rows(&self) -> (n: u64)
        ensures
            n == self.state().total_rows,
    {
        self.total_rows
    }

    /// Empties the buffer; returns its lines, each with a newline.
    fn flush_buffer(&mut self) -> (text: Vec<char>)
        ensures
            text@ == lines_text(old(self).state().buffer),
            final(self).state() == (SqlState { buffer: Seq::empty(), ..old(self).state() }),
    {
        let ghost lines = self.row_buffer@.map_values(|l: String| l@);
        let mut v: Vec<char> = Vec::new();
        let mut i: usize = 0;
        while i < self.row_buffer.len()
            invariant
                i <= lines.len(),
                lines == self.row_buffer@.map_values(|l: String| l@),
                v@ == lines_text(lines.subrange(0, i as int)),
            decreases lines.len() - i,
        {
            push_str(&mut v, self.row_buffer[i].as_str());
            push_str(&mut v, "\n");
            i = i + 1;
            assert(lines.subrange(0, i as int).drop_last() =~= lines.subrange(0, i - 1));
        }
        assert(lines.subrange(0, lines.len() as int) =~= lines);
        self.row_buffer = Vec::new();
        assert(self.row_buffer@.map_values(|l: String| l@) =~= Seq::<Seq<char>>::empty());
        v
    }

    /// The text to write for an event. For a row, the row counter must
    /// have room for another one.
    pub fn handle_event(&mut self, event: &DumpEvent) -> (text: String)
        requires
            event@ is Row ==> old(self).state().total_rows < u64::MAX,
        ensures
            (text@, final(self).state()) == sql_step(old(self).state(), event@),
    {
        proof {
            reveal_strlit("\n");
            reveal_strlit(".");
            reveal_strlit(";\n");
        }
        match event {
            DumpEvent::DdlStatement { sql, .. } => {
                let sc = chars_of(sql.as_str());
                let mut v = trim_end_char_chars(sc.as_slice(), ';');
                push_str(&mut v, ";\n");
                push_str(&mut v, "\n");
                string_from_chars(v)
            },
            DumpEvent::TableStart { owner, table_name } => {
                self.current_owner = owner.clone();
                self.current_table = table_name.clone();
                self.total_rows = 0;
                let mut v = lit("-- Loading table ");
                push_str(&mut v, owner.as_str());
                push_str(&mut v, ".");
                push_str(&mut v, table_name.as_str());
                push_str(&mut v, "\n");
                string_from_chars(v)
            },
            DumpEvent::Row { raw_values, owner, table, .. } => {
                let mut vals: Vec<Vec<char>> = Vec::new();
                let mut i: usize = 0;
                while i < raw_values.len()
                    invariant
                        i <= raw_values@.len(),
                        vals@.len() == i,
                        forall|j: int| 0 <= j < i ==> #[trigger] vals@[j]@ == sql_value(
                            values_view(raw_values@)[j],
                        ),
                    decreases raw_values@.len() - i,
                {
                    let val = match &raw_values[i] {
                        None => lit("NULL"),
                        Some(b) => sql_quote_value(b.as_slice()),
                    };
                    vals.push(val);
                    i = i + 1;
                }
                let mut line: Vec<char> = lit("INSERT INTO ");
                if owner.as_str().is_empty() {
                    push_str(&mut line, table.as_str());
                } else {
                    push_str(&mut line, owner.as_str());
                    push_str(&mut line, ".");
                    push_str(&mut line, table.as_str());
                }
                push_str(&mut line, " VALUES (");
                let sep = lit(", ");
                push_joined(&mut line, &vals, &sep);
                push_str(&mut line, ");");
                assert(vals@.map_values(|p: Vec<char>| p@) =~= values_view(raw_values@).map_values(
                    |v: Option<Seq<u8>>| sql_value(v),
                ));
                assert(line@ =~= insert_statement(owner@, table@, values_view(raw_values@)));
                let ghost old_buf = self.row_buffer@;
                let ls = string_from_chars(line);
                self.row_buffer.push(ls);
                assert(self.row_buffer@ == old_buf.push(ls));
                assert(self.row_buffer@.map_values(|l: String| l@) =~= old_buf.map_values(|l: String| l@).push(
                    insert_statement(owner@, table@, values_view(raw_values@)),
                ));
                self.total_rows = self.total_rows + 1;
                if self.row_buffer.len() >= self.batch_size {
                    string_from_chars(self.flush_buffer())
                } else {
                    String::new()
                }
            },
            DumpEvent::TableEnd { table, rows_written } => {
                let mut v = self.flush_buffer();
                push_str(&mut v, "-- End ");
                push_str(&mut v, table.as_str());
                push_str(&mut v, ": ");
                push_dec(&mut v, *rows_written);
                push_str(&mut v, " rows\n");
                push_str(&mut v, "COMMIT;\n");
                push_str(&mut v, "\n");
                string_from_chars(v)
            },
            _ => String::new(),
        }
    }
}

// ─────────────────────────────────────────────────────────────
// JSON Lines
// ─────────────────────────────────────────────────────────────

/// A value of a JSON Lines field.
#[derive(Debug)]
pub enum JsonValue {
    Null,
    Str(String),
    UInt(u64),
    StrList(Vec<Option<String>>),
}

/// A `JsonValue` with strings seen as sequences.
pub enum JsonValueView {
    Null,
    Str(Seq<char>),
    UInt(u64),
    StrList(Seq<Option<Seq<char>>>),
}

/// Optional strings seen as optional sequences.
pub open spec fn opt_strings_view(v: Seq<Option<String>>) -> Seq<Option<Seq<char>>> {
    v.map_values(|o: Option<String>| match o {
        Some(s) => Some(s@),
        None => None,
    })
}

impl View for JsonValue {
    type V = JsonValueView;

    open spec fn view(&self) -> JsonValueView {
        match self {
            JsonValue::Null => JsonValueView::Null,
            JsonValue::Str(s) => JsonValueView::Str(s@),
            JsonValue::UInt(n) => JsonValueView::UInt(*n),
            JsonValue::StrList(v) => JsonValueView::StrList(opt_strings_view(v@)),
        }
    }
}

/// Fields seen through their views.
pub open spec fn fields_view(f: Seq<(String, JsonValue)>) -> Seq<(Seq<char>, JsonValueView)> {
    f.map_values(|p: (String, JsonValue)| (p.0@, p.1@))
}

/// The compact text that `serde_json` gives a JSON object built from the
/// fields (a `serde_json::Map`, which orders keys).
pub uninterp spec fn json_object_text(fields: Seq<(Seq<char>, JsonValueView)>) -> Seq<char>;

/// Builds a `serde_json::Value::Object` from the fields (strings as
/// strings, numbers as numbers, lists as arrays of strings and nulls) and
/// renders it with `Value::to_string`. Claimed: the text is
/// `json_object_text` of the fields, and it holds no newline (the compact
/// writer adds no white space and escapes control characters in strings).
#[verifier::external_body]
fn render_json_object(fields: &Vec<(String, JsonValue)>) -> (text: Vec<char>)
    ensures
        text@ == json_object_text(fields_view(fields@)),
        !text@.contains('\n'),
{
    let mut map = serde_json::Map::new();
    for (k, v) in fields.iter() {
        map.insert(k.clone(), match v {
            JsonValue::Null => serde_json::Value::Null,
            JsonValue::Str(s) => serde_json::Value::from(s.as_str()),
            JsonValue::UInt(n) => serde_json::Value::from(*n),
            JsonValue::StrList(items) => serde_json::Value::from(items.clone()),
        });
    }
    serde_json::Value::Object(map).to_string().chars().collect()
}

/// A JSON row cell: null for NULL, the text for valid UTF-8, else `0x`
/// and upper-case hex.
pub open spec fn json_cell(v: Option<Seq<u8>>) -> Option<Seq<char>> {
    match v {
        None => None,
        Some(b) => if valid_utf8(b) {
            Some(decode_utf8(b))
        } else {
            Some("0x"@ + hex_bytes(b))
        },
    }
}

/// The fields of the JSON object written for an event, if any.
pub open spec fn json_fields(ev: DumpEventView) -> Option<Seq<(Seq<char>, JsonValueView)>> {
    match ev {
        DumpEventView::DdlStatement { sql, byte_offset } => Some(
            seq![
                ("type"@, JsonValueView::Str("ddl"@)),
                ("offset"@, JsonValueView::UInt(byte_offset as u64)),
                ("sql"@, JsonValueView::Str(crate::text::trim_ws(sql))),
            ],
        ),
        DumpEventView::TableStart { owner, table_name } => Some(
            seq![
                ("type"@, JsonValueView::Str("table_start"@)),
                ("owner"@, JsonValueView::Str(owner)),
                ("table"@, JsonValueView::Str(table_name)),
            ],
        ),
        DumpEventView::Row { table, owner, row_index, raw_values, byte_offset } => Some(
            seq![
                ("type"@, JsonValueView::Str("row"@)),
                ("table"@, JsonValueView::Str(table)),
                ("owner"@, JsonValueView::Str(owner)),
                ("row"@, JsonValueView::UInt(row_index)),
                ("offset"@, JsonValueView::UInt(byte_offset as u64)),
                ("values"@, JsonValueView::StrList(raw_values.map_values(|v: Option<Seq<u8>>| json_cell(v)))),
            ],
        ),
        DumpEventView::TableEnd { table, rows_written } => Some(
            seq![
                ("type"@, JsonValueView::Str("table_end"@)),
                ("table"@, JsonValueView::Str(table)),
                ("rows"@, JsonValueView::UInt(rows_written)),
            ],
        ),
        DumpEventView::EndOfFile => Some(seq![("type"@, JsonValueView::Str("eof"@))]),
        _ => None,
    }
}

/// The line written for an event: the object's text and a newline, or
/// nothing.
pub open spec fn json_line(ev: DumpEventView) -> Seq<char> {
    match json_fields(ev) {
        Some(f) => json_object_text(f) + "\n"@,
        None => Seq::empty(),
    }
}

fn field(key: &str, value: JsonValue) -> (p: (String, JsonValue))
    ensures
        p.0@ == key@,
        p.1 == value,
{
    (string_from_chars(chars_of(key)), value)
}

fn json_str(s: &str) -> (v: JsonValue)
    ensures
        v@ == JsonValueView::Str(s@),
{
    JsonValue::Str(string_from_chars(chars_of(s)))
}

/// The fields of the JSON object for an event, or `None` for the events
/// that JSON Lines leaves out.
pub fn json_event_fields(event: &DumpEvent) -> (f: Option<Vec<(String, JsonValue)>>)
    ensures
        match json_fields(event@) {
            Some(x) => f matches Some(v) && fields_view(v@) == x,
            None => f is None,
        },
{
    let mut fields: Vec<(String, JsonValue)> = Vec::new();
    match event {
        DumpEvent::DdlStatement { sql, byte_offset } => {
            fields.push(field("type", json_str("ddl")));
            fields.push(field("offset", JsonValue::UInt(*byte_offset as u64)));
            let t = crate::text::trim_chars(chars_of(sql.as_str()).as_slice());
            fields.push(field("sql", JsonValue::Str(string_from_chars(t))));
        },
        DumpEvent::TableStart { owner, table_name } => {
            fields.push(field("type", json_str("table_start")));
            fields.push(field("owner", JsonValue::Str(owner.clone())));
            fields.push(field("table", JsonValue::Str(table_name.clone())));
        },
        DumpEvent::Row { table, owner, row_index, raw_values, byte_offset } => {
            let mut cols: Vec<Option<String>> = Vec::new();
            let mut i: usize = 0;
            while i < raw_values.len()
                invariant
                    i <= raw_values@.len(),
                    cols@.len() == i,
                    forall|j: int| 0 <= j < i ==> #[trigger] opt_strings_view(cols@)[j] == json_cell(
                        values_view(raw_values@)[j],
                    ),
                decreases raw_values@.len() - i,
            {
                let cell: Option<String> = match &raw_values[i] {
                    None => None,
                    Some(b) => match utf8_chars(b.as_slice()) {
                        Some(s) => Some(string_from_chars(s)),
                        None => {
                            let mut v = lit("0x");
                            push_hex_bytes(&mut v, b.as_slice());
                            Some(string_from_chars(v))
                        },
                    },
                };
                let ghost old_cols = cols@;
                cols.push(cell);
                assert(cols@ == old_cols.push(cell));
                i = i + 1;
                assert forall|j: int| 0 <= j < i implies #[trigger] opt_strings_view(cols@)[j]
                    == json_cell(values_view(raw_values@)[j]) by {
                    if j < i - 1 {
                        assert(cols@[j] == old_cols[j]);
                        assert(opt_strings_view(old_cols)[j] == json_cell(values_view(raw_values@)[j]));
                    }
                }
            }
            assert(opt_strings_view(cols@) =~= values_view(raw_values@).map_values(
                |v: Option<Seq<u8>>| json_cell(v),
            ));
            fields.push(field("type", json_str("row")));
            fields.push(field("table", JsonValue::Str(table.clone())));
            fields.push(field("owner", JsonValue::Str(owner.clone())));
            fields.push(field("row", JsonValue::UInt(*row_index)));
            fields.push(field("offset", JsonValue::UInt(*byte_offset as u64)));
            fields.push(field("values", JsonValue::StrList(cols)));
        },
        DumpEvent::TableEnd { table, rows_written } => {
            fields.push(field("type", json_str("table_end")));
            fields.push(field("table", JsonValue::Str(table.clone())));
            fields.push(field("rows", JsonValue::UInt(*rows_written)));
        },
        DumpEvent::EndOfFile => {
            fields.push(field("type", json_str("eof")));
        },
        _ => {
            return None;
        },
    }
    assert(fields_view(fields@) =~= json_fields(event@)->Some_0);
    Some(fields)
}

/// Writes dump events as JSON Lines, one object per event.
pub struct JsonLinesWriter {}

impl JsonLinesWriter {
    /// A writer.
    pub fn new() -> Self {
        Self {}
    }

    /// The line to write for an event (empty when the event is not
    /// written): each event written is exactly one line.
    pub fn handle_event(&mut self, event: &DumpEvent) -> (text: String)
        ensures
            text@ == json_line(event@),
            text@.len() == 0 || (text@.last() == '\n' && !text@.drop_last().contains('\n')),
    {
        match json_event_fields(event) {
            Some(fields) => {
                let mut v = render_json_object(&fields);
                let ghost body = v@;
                push_str(&mut v, "\n");
                proof {
                    reveal_strlit("\n");
                    assert(v@.drop_last() =~= body);
                }
                string_from_chars(v)
            },
            None => String::new(),
        }
    }
}

// ─────────────────────────────────────────────────────────────
// Hex dump
// ─────────────────────────────────────────────────────────────

/// One byte of the hex column: two hex digits and a space, with an extra
/// space after the eighth byte.
pub open spec fn hex_cell(b: u8, i: int) -> Seq<char> {
    zero_pad(hex(b as nat), 2) + seq![' '] + if i == 7 {
        seq![' ']
    } else {
        Seq::empty()
    }
}

/// The hex column of a chunk.
pub open spec fn hex_cells(chunk: Seq<u8>) -> Seq<char>
    decreases chunk.len(),
{
    if chunk.len() == 0 {
        Seq::empty()
    } else {
        hex_cells(chunk.drop_last()) + hex_cell(chunk.last(), chunk.len() - 1)
    }
}

/// The padding of a short line: three spaces per missing byte (`n` of
/// them), with the extra space where the eighth byte would be.
pub open spec fn hex_padding(len: int, n: nat) -> Seq<char>
    decreases n,
{
    if n == 0 {
        Seq::empty()
    } else {
        hex_padding(len, (n - 1) as nat) + seq![' ', ' ', ' '] + if len + (n - 1) == 7 {
            seq![' ']
        } else {
            Seq::empty()
        }
    }
}

/// A byte of the text column: printable ASCII as itself, else `.`.
pub open spec fn ascii_cell(b: u8) -> char {
    if 0x20 <= b < 0x7F {
        b as char
    } else {
        '.'
    }
}

/// One line of the dump: address, hex column, padding, text column.
pub open spec fn hex_line(chunk: Seq<u8>, addr: int) -> Seq<char> {
    zero_pad(hex(addr as nat), 8) + "  "@ + hex_cells(chunk) + hex_padding(
        chunk.len() as int,
        (16 - chunk.len()) as nat,
    ) + " |"@ + chunk.map_values(|b: u8| ascii_cell(b)) + "|\n"@
}

/// The dump of `data`, 16 bytes per line, addresses counted from `start`.
#[verifier::opaque]
pub open spec fn hex_dump_text(data: Seq<u8>, start: int) -> Seq<char>
    decreases data.len(),
{
    if data.len() == 0 {
        Seq::empty()
    } else {
        let m = if data.len() < 16 {
            data.len() as int
        } else {
            16
        };
        hex_line(data.subrange(0, m), start) + hex_dump_text(data.subrange(m, data.len() as int), start + 16)
    }
}

fn push_hex_line(out: &mut Vec<char>, chunk: &[u8], addr: usize)
    requires
        1 <= chunk@.len() <= 16,
    ensures
        final(out)@ == old(out)@ + hex_line(chunk@, addr as int),
{
    proof {
        reveal_strlit("  ");
        reveal_strlit(" ");
        reveal_strlit("   ");
        reveal_strlit(" |");
        reveal_strlit("|\n");
    }
    let ghost o = out@;
    push_hex_padded(out, addr as u64, 8);
    push_str(out, "  ");
    let ghost after_addr = out@;
    let mut i: usize = 0;
    while i < chunk.len()
        invariant
            i <= chunk@.len(),
            out@ == after_addr + hex_cells(chunk@.subrange(0, i as int)),
        decreases chunk@.len() - i,
    {
        let ghost prev = out@;
        push_hex_padded(out, chunk[i] as u64, 2);
        out.push(' ');
        if i == 7 {
            out.push(' ');
        }
        assert(out@ =~= prev + hex_cell(chunk@[i as int], i as int));
        i = i + 1;
        proof {
            let sub = chunk@.subrange(0, i as int);
            assert(sub.drop_last() =~= chunk@.subrange(0, i - 1));
            assert(sub.last() == chunk@[i - 1]);
            assert(hex_cells(sub) == hex_cells(chunk@.subrange(0, i - 1)) + hex_cell(chunk@[i - 1], i - 1));
        }
        assert(out@ =~= after_addr + hex_cells(chunk@.subrange(0, i as int)));
    }
    assert(chunk@.subrange(0, chunk@.len() as int) =~= chunk@);
    let ghost after_cells = out@;
    let padding = 16 - chunk.len();
    let mut k: usize = 0;
    while k < padding
        invariant
            padding == 16 - chunk@.len(),
            k <= padding,
            out@ == after_cells + hex_padding(chunk@.len() as int, k as nat),
        decreases padding - k,
    {
        let ghost prev = out@;
        out.push(' ');
        out.push(' ');
        out.push(' ');
        if chunk.len() + k == 7 {
            out.push(' ');
        }
        assert(out@ =~= prev + seq![' ', ' ', ' '] + if chunk@.len() + k == 7 { seq![' '] } else { Seq::<char>::empty() });
        k = k + 1;
        assert(out@ =~= after_cells + hex_padding(chunk@.len() as int, k as nat));
    }
    push_str(out, " |");
    let ghost before_text = out@;
    let mut j: usize = 0;
    while j < chunk.len()
        invariant
            j <= chunk@.len(),
            out@ == before_text + chunk@.subrange(0, j as int).map_values(|b: u8| ascii_cell(b)),
        decreases chunk@.len() - j,
    {
        let b = chunk[j];
        let c = if b >= 0x20 && b < 0x7F { b as char } else { '.' };
        out.push(c);
        j = j + 1;
        assert(out@ =~= before_text + chunk@.subrange(0, j as int).map_values(|b: u8| ascii_cell(b)));
    }
    push_str(out, "|\n");
    assert(out@ =~= o + hex_line(chunk@, addr as int));
}

proof fn lemma_hex_dump_step(d: Seq<u8>, pos: int, m: int, a: int)
    requires
        0 <= pos < d.len(),
        m == (if d.len() - pos < 16 { d.len() - pos } else { 16 }),
    ensures
        hex_dump_text(d.subrange(pos, d.len() as int), a) == hex_line(d.subrange(pos, pos + m), a)
            + hex_dump_text(d.subrange(pos + m, d.len() as int), a + 16),
{
    reveal(hex_dump_text);
    let rest = d.subrange(pos, d.len() as int);
    assert(rest.subrange(0, m) =~= d.subrange(pos, pos + m));
    assert(rest.subrange(m, rest.len() as int) =~= d.subrange(pos + m, d.len() as int));
}

/// A hex and ASCII dump of `data`, 16 bytes per line, as `xxd` shows it;
/// addresses start at `start_offset`. The address of the last line must
/// fit in a `usize`.
pub fn hex_dump(data: &[u8], start_offset: usize) -> (text: String)
    requires
        data@.len() == 0 || start_offset + 16 * ((data@.len() - 1) / 16) <= usize::MAX,
    ensures
        text@ == hex_dump_text(data@, start_offset as int),
{
    let ghost d = data@;
    let ghost last: int = if d.len() == 0 { 0 } else { 16 * ((d.len() - 1) / 16) };
    let mut out: Vec<char> = Vec::new();
    let mut pos: usize = 0;
    assert(d.subrange(0, d.len() as int) =~= d);
    while pos < data.len()
        invariant
            d == data@,
            pos <= d.len(),
            pos % 16 == 0 || pos == d.len(),
            d.len() > 0 ==> last == 16 * ((d.len() - 1) / 16),
            d.len() > 0 ==> start_offset + last <= usize::MAX,
            out@ + hex_dump_text(d.subrange(pos as int, d.len() as int), start_offset + pos)
                == hex_dump_text(d, start_offset as int),
        decreases d.len() - pos,
    {
        let len = data.len();
        assert(pos <= last) by (nonlinear_arith)
            requires
                pos % 16 == 0,
                pos < len,
                last == 16 * ((len - 1) / 16),
        ;
        let addr = start_offset + pos;
        let m: usize = if data.len() - pos < 16 { data.len() - pos } else { 16 };
        proof {
            lemma_hex_dump_step(d, pos as int, m as int, addr as int);
        }
        let ghost old_out = out@;
        push_hex_line(&mut out, &data[pos..pos + m], addr);
        pos = pos + m;
        proof {
            if m < 16 {
                reveal(hex_dump_text);
                assert(d.subrange(pos as int, d.len() as int) =~= Seq::<u8>::empty());
                assert(hex_dump_text(d.subrange(pos as int, d.len() as int), addr + 16) =~= Seq::<char>::empty());
                assert(hex_dump_text(d.subrange(pos as int, d.len() as int), start_offset + pos) =~= Seq::<char>::empty());
            }
            assert(out@ + hex_dump_text(d.subrange(pos as int, d.len() as int), start_offset + pos)
                =~= old_out + (hex_line(d.subrange(pos - m, pos as int), addr as int) + hex_dump_text(
                d.subrange(pos as int, d.len() as int),
                addr + 16,
            )));
        }
    }
    proof {
        reveal(hex_dump_text);
        assert(d.subrange(d.len() as int, d.len() as int) =~= Seq::<u8>::empty());
        assert(out@ + Seq::<char>::empty() =~= out@);
    }
    string_from_chars(out)
}

} // verus!
