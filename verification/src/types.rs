//! Record types, column types and the data structures built from a dump.

use vstd::prelude::*;
use crate::text::{chars_of, push_dec, push_hex_padded, push_str, string_from_chars, dec, hex, zero_pad};

verus! {

/// Record types of an Oracle EXP dump. Each record is framed as
/// `[type: u16 BE][length: u16 BE][data]`; a length of `0xFFFF` means the
/// real length follows as a `u32` BE.
#[derive(Debug, Clone, Copy, PartialEq, Eq, Hash, Structural)]
pub enum RecordType {
    /// File header, holds the `EXPORT:Vxx.xx.xx` version string (code 1)
    FileHeader,
    /// Database character set (code 2)
    CharacterSet,
    /// Export session parameters (code 3)
    SessionParameters,
    /// DDL statement (code 6)
    DdlStatement,
    /// Start of a table's rows (code 7)
    TableDataStart,
    /// One row of column values (code 8)
    RowData,
    /// End of a table's rows (code 9)
    TableDataEnd,
    /// Schema / user info (code 11)
    SchemaInfo,
    /// Table definition (code 12)
    TableDefinition,
    /// Column definition (code 13)
    ColumnDefinition,
    /// End of the dump (code 14)
    EndOfFile,
    /// LOB data segment (code 15)
    LobData,
    /// Cluster definition (code 16)
    ClusterDefinition,
    /// Index definition (code 17)
    IndexDefinition,
    /// View definition (code 18)
    ViewDefinition,
    /// Trigger definition (code 19)
    TriggerDefinition,
    /// Procedure / function body (code 20)
    ProcedureBody,
    /// Sequence definition (code 21)
    SequenceDefinition,
    /// Synonym definition (code 22)
    SynonymDefinition,
    /// Database link (code 23)
    DatabaseLink,
    /// Snapshot / materialized view (code 24)
    SnapshotDefinition,
    /// User / role definitions (code 25)
    UserDefinition,
    /// Tablespace info (code 26)
    TablespaceInfo,
    /// Comment on an object (code 27)
    Comment,
    /// Audit settings (code 28)
    AuditSettings,
    /// Any other code
    Unknown(u16),
}

/// The record type that a code stands for.
pub open spec fn record_type_of(v: u16) -> RecordType {
    match v {
        1 => RecordType::FileHeader,
        2 => RecordType::CharacterSet,
        3 => RecordType::SessionParameters,
        6 => RecordType::DdlStatement,
        7 => RecordType::TableDataStart,
        8 => RecordType::RowData,
        9 => RecordType::TableDataEnd,
        11 => RecordType::SchemaInfo,
        12 => RecordType::TableDefinition,
        13 => RecordType::ColumnDefinition,
        14 => RecordType::EndOfFile,
        15 => RecordType::LobData,
        16 => RecordType::ClusterDefinition,
        17 => RecordType::IndexDefinition,
        18 => RecordType::ViewDefinition,
        19 => RecordType::TriggerDefinition,
        20 => RecordType::ProcedureBody,
        21 => RecordType::SequenceDefinition,
        22 => RecordType::SynonymDefinition,
        23 => RecordType::DatabaseLink,
        24 => RecordType::SnapshotDefinition,
        25 => RecordType::UserDefinition,
        26 => RecordType::TablespaceInfo,
        27 => RecordType::Comment,
        28 => RecordType::AuditSettings,
        other => RecordType::Unknown(other),
    }
}

/// The display name of a record type; `Unknown(n)` shows its code.
pub open spec fn record_type_name(t: RecordType) -> Seq<char> {
    match t {
        RecordType::FileHeader => "FileHeader"@,
        RecordType::CharacterSet => "CharacterSet"@,
        RecordType::SessionParameters => "SessionParameters"@,
        RecordType::DdlStatement => "DdlStatement"@,
        RecordType::TableDataStart => "TableDataStart"@,
        RecordType::RowData => "RowData"@,
        RecordType::TableDataEnd => "TableDataEnd"@,
        RecordType::SchemaInfo => "SchemaInfo"@,
        RecordType::TableDefinition => "TableDefinition"@,
        RecordType::ColumnDefinition => "ColumnDefinition"@,
        RecordType::EndOfFile => "EndOfFile"@,
        RecordType::LobData => "LobData"@,
        RecordType::ClusterDefinition => "ClusterDefinition"@,
        RecordType::IndexDefinition => "IndexDefinition"@,
        RecordType::ViewDefinition => "ViewDefinition"@,
        RecordType::TriggerDefinition => "TriggerDefinition"@,
        RecordType::ProcedureBody => "ProcedureBody"@,
        RecordType::SequenceDefinition => "SequenceDefinition"@,
        RecordType::SynonymDefinition => "SynonymDefinition"@,
        RecordType::DatabaseLink => "DatabaseLink"@,
        RecordType::SnapshotDefinition => "SnapshotDefinition"@,
        RecordType::UserDefinition => "UserDefinition"@,
        RecordType::TablespaceInfo => "TablespaceInfo"@,
        RecordType::Comment => "Comment"@,
        RecordType::AuditSettings => "AuditSettings"@,
        RecordType::Unknown(n) => "Unknown("@ + dec(n as nat) + ")"@,
    }
}

impl From<u16> for RecordType {
    fn from(v: u16) -> (r: Self) {
        match v {
            1 => Self::FileHeader,
            2 => Self::CharacterSet,
            3 => Self::SessionParameters,
            6 => Self::DdlStatement,
            7 => Self::TableDataStart,
            8 => Self::RowData,
            9 => Self::TableDataEnd,
            11 => Self::SchemaInfo,
            12 => Self::TableDefinition,
            13 => Self::ColumnDefinition,
            14 => Self::EndOfFile,
            15 => Self::LobData,
            16 => Self::ClusterDefinition,
            17 => Self::IndexDefinition,
            18 => Self::ViewDefinition,
            19 => Self::TriggerDefinition,
            20 => Self::ProcedureBody,
            21 => Self::SequenceDefinition,
            22 => Self::SynonymDefinition,
            23 => Self::DatabaseLink,
            24 => Self::SnapshotDefinition,
            25 => Self::UserDefinition,
            26 => Self::TablespaceInfo,
            27 => Self::Comment,
            28 => Self::AuditSettings,
            other => Self::Unknown(other),
        }
    }
}

impl vstd::std_specs::convert::FromSpecImpl<u16> for RecordType {
    open spec fn obeys_from_spec() -> bool {
        true
    }

    open spec fn from_spec(v: u16) -> RecordType {
        record_type_of(v)
    }
}

impl RecordType {
    /// The display name, e.g. `FileHeader` or `Unknown(99)`.
    pub fn to_string(&self) -> (s: String)
        ensures
            s@ == record_type_name(*self),
    {
        let name = match self {
            Self::FileHeader => "FileHeader",
            Self::CharacterSet => "CharacterSet",
            Self::SessionParameters => "SessionParameters",
            Self::DdlStatement => "DdlStatement",
            Self::TableDataStart => "TableDataStart",
            Self::RowData => "RowData",
            Self::TableDataEnd => "TableDataEnd",
            Self::SchemaInfo => "SchemaInfo",
            Self::TableDefinition => "TableDefinition",
            Self::ColumnDefinition => "ColumnDefinition",
            Self::EndOfFile => "EndOfFile",
            Self::LobData => "LobData",
            Self::ClusterDefinition => "ClusterDefinition",
            Self::IndexDefinition => "IndexDefinition",
            Self::ViewDefinition => "ViewDefinition",
            Self::TriggerDefinition => "TriggerDefinition",
            Self::ProcedureBody => "ProcedureBody",
            Self::SequenceDefinition => "SequenceDefinition",
            Self::SynonymDefinition => "SynonymDefinition",
            Self::DatabaseLink => "DatabaseLink",
            Self::SnapshotDefinition => "SnapshotDefinition",
            Self::UserDefinition => "UserDefinition",
            Self::TablespaceInfo => "TablespaceInfo",
            Self::Comment => "Comment",
            Self::AuditSettings => "AuditSettings",
            Self::Unknown(n) => {
                let mut v = chars_of("Unknown(");
                push_dec(&mut v, *n as u64);
                push_str(&mut v, ")");
                return string_from_chars(v);
            },
        };
        string_from_chars(chars_of(name))
    }
}

/// A record read from a dump: its type, byte offset, and payload (a slice
/// of the dump's bytes).
#[derive(Debug, Clone)]
pub struct RawRecord<'a> {
    pub record_type: RecordType,
    pub offset: usize,
    pub data: &'a [u8],
}

/// Oracle column data types.
#[derive(Debug, Clone, PartialEq, Eq, Structural)]
pub enum OracleType {
    Varchar2,
    Nvarchar2,
    Number,
    Long,
    Date,
    Raw,
    LongRaw,
    Char,
    Nchar,
    Clob,
    Nclob,
    Blob,
    Bfile,
    Timestamp,
    TimestampWithTZ,
    TimestampWithLocalTZ,
    IntervalYearToMonth,
    IntervalDayToSecond,
    Float,
    RowId,
    URowId,
    XmlType,
    Other(u8),
}

/// The column type that a type code stands for.
pub open spec fn oracle_type_of(code: u8) -> OracleType {
    match code {
        1 => OracleType::Varchar2,
        2 => OracleType::Nvarchar2,
        3 => OracleType::Number,
        8 => OracleType::Long,
        12 => OracleType::Date,
        23 => OracleType::Raw,
        24 => OracleType::LongRaw,
        96 => OracleType::Char,
        100 => OracleType::Float,
        101 => OracleType::Float,
        112 => OracleType::Clob,
        113 => OracleType::Blob,
        114 => OracleType::Bfile,
        180 => OracleType::Timestamp,
        181 => OracleType::TimestampWithTZ,
        182 => OracleType::IntervalYearToMonth,
        183 => OracleType::IntervalDayToSecond,
        186 => OracleType::TimestampWithLocalTZ,
        208 => OracleType::URowId,
        other => OracleType::Other(other),
    }
}

/// The SQL name of a column type; `Other(n)` shows its code.
pub open spec fn oracle_type_name(t: OracleType) -> Seq<char> {
    match t {
        OracleType::Varchar2 => "VARCHAR2"@,
        OracleType::Nvarchar2 => "NVARCHAR2"@,
        OracleType::Number => "NUMBER"@,
        OracleType::Long => "LONG"@,
        OracleType::Date => "DATE"@,
        OracleType::Raw => "RAW"@,
        OracleType::LongRaw => "LONG RAW"@,
        OracleType::Char => "CHAR"@,
        OracleType::Nchar => "NCHAR"@,
        OracleType::Clob => "CLOB"@,
        OracleType::Nclob => "NCLOB"@,
        OracleType::Blob => "BLOB"@,
        OracleType::Bfile => "BFILE"@,
        OracleType::Timestamp => "TIMESTAMP"@,
        OracleType::TimestampWithTZ => "TIMESTAMP WITH TIME ZONE"@,
        OracleType::TimestampWithLocalTZ => "TIMESTAMP WITH LOCAL TIME ZONE"@,
        OracleType::IntervalYearToMonth => "INTERVAL YEAR TO MONTH"@,
        OracleType::IntervalDayToSecond => "INTERVAL DAY TO SECOND"@,
        OracleType::Float => "FLOAT"@,
        OracleType::RowId => "ROWID"@,
        OracleType::URowId => "UROWID"@,
        OracleType::XmlType => "XMLTYPE"@,
        OracleType::Other(n) => "UNKNOWN("@ + dec(n as nat) + ")"@,
    }
}

impl From<u8> for OracleType {
    fn from(code: u8) -> (r: Self) {
        match code {
            1 => Self::Varchar2,
            2 => Self::Nvarchar2,
            3 => Self::Number,
            8 => Self::Long,
            12 => Self::Date,
            23 => Self::Raw,
            24 => Self::LongRaw,
            96 => Self::Char,
            100 => Self::Float,
            101 => Self::Float,
            112 => Self::Clob,
            113 => Self::Blob,
            114 => Self::Bfile,
            180 => Self::Timestamp,
            181 => Self::TimestampWithTZ,
            182 => Self::IntervalYearToMonth,
            183 => Self::IntervalDayToSecond,
            186 => Self::TimestampWithLocalTZ,
            208 => Self::URowId,
            other => Self::Other(other),
        }
    }
}

impl vstd::std_specs::convert::FromSpecImpl<u8> for OracleType {
    open spec fn obeys_from_spec() -> bool {
        true
    }

    open spec fn from_spec(code: u8) -> OracleType {
        oracle_type_of(code)
    }
}

impl OracleType {
    /// The SQL name, e.g. `VARCHAR2` or `UNKNOWN(7)`.
    pub fn to_string(&self) -> (s: String)
        ensures
            s@ == oracle_type_name(*self),
    {
        let name = match self {
            Self::Varchar2 => "VARCHAR2",
            Self::Nvarchar2 => "NVARCHAR2",
            Self::Number => "NUMBER",
            Self::Long => "LONG",
            Self::Date => "DATE",
            Self::Raw => "RAW",
            Self::LongRaw => "LONG RAW",
            Self::Char => "CHAR",
            Self::Nchar => "NCHAR",
            Self::Clob => "CLOB",
            Self::Nclob => "NCLOB",
            Self::Blob => "BLOB",
            Self::Bfile => "BFILE",
            Self::Timestamp => "TIMESTAMP",
            Self::TimestampWithTZ => "TIMESTAMP WITH TIME ZONE",
            Self::TimestampWithLocalTZ => "TIMESTAMP WITH LOCAL TIME ZONE",
            Self::IntervalYearToMonth => "INTERVAL YEAR TO MONTH",
            Self::IntervalDayToSecond => "INTERVAL DAY TO SECOND",
            Self::Float => "FLOAT",
            Self::RowId => "ROWID",
            Self::URowId => "UROWID",
            Self::XmlType => "XMLTYPE",
            Self::Other(n) => {
                let mut v = chars_of("UNKNOWN(");
                push_dec(&mut v, *n as u64);
                push_str(&mut v, ")");
                return string_from_chars(v);
            },
        };
        string_from_chars(chars_of(name))
    }
}

/// A decoded column value.
#[derive(Debug, Clone)]
pub enum ColumnValue {
    Null,
    Text(String),
    Bytes(Vec<u8>),
    Number(String),
}

/// A `ColumnValue` with strings and bytes seen as sequences.
pub enum ColumnValueView {
    Null,
    Text(Seq<char>),
    Bytes(Seq<u8>),
    Number(Seq<char>),
}

impl View for ColumnValue {
    type V = ColumnValueView;

    open spec fn view(&self) -> ColumnValueView {
        match self {
            ColumnValue::Null => ColumnValueView::Null,
            ColumnValue::Text(t) => ColumnValueView::Text(t@),
            ColumnValue::Bytes(b) => ColumnValueView::Bytes(b@),
            ColumnValue::Number(n) => ColumnValueView::Number(n@),
        }
    }
}

/// Upper-case two-digit hex of each byte, concatenated.
pub open spec fn hex_bytes(b: Seq<u8>) -> Seq<char>
    decreases b.len(),
{
    if b.len() == 0 {
        Seq::empty()
    } else {
        hex_bytes(b.drop_last()) + zero_pad(hex(b.last() as nat), 2)
    }
}

/// Appends the upper-case two-digit hex of each byte.
pub fn push_hex_bytes(out: &mut Vec<char>, b: &[u8])
    ensures
        final(out)@ == old(out)@ + hex_bytes(b@),
{
    let mut i: usize = 0;
    while i < b.len()
        invariant
            0 <= i <= b.len(),
            out@ == old(out)@ + hex_bytes(b@.subrange(0, i as int)),
        decreases b.len() - i,
    {
        push_hex_padded(out, b[i] as u64, 2);
        i = i + 1;
        assert(b@.subrange(0, i as int).drop_last() == b@.subrange(0, i - 1));
    }
    assert(b@.subrange(0, b.len() as int) == b@);
}

impl ColumnValue {
    /// The displayed text: `NULL`, the text or number as it is, or `0x`
    /// followed by upper-case hex for bytes.
    pub fn to_string(&self) -> (s: String)
        ensures
            s@ == match self {
                ColumnValue::Null => "NULL"@,
                ColumnValue::Text(t) => t@,
                ColumnValue::Number(n) => n@,
                ColumnValue::Bytes(b) => "0x"@ + hex_bytes(b@),
            },
    {
        match self {
            ColumnValue::Null => string_from_chars(chars_of("NULL")),
            ColumnValue::Text(t) => t.clone(),
            ColumnValue::Number(n) => n.clone(),
            ColumnValue::Bytes(b) => {
                let mut v = chars_of("0x");
                push_hex_bytes(&mut v, b.as_slice());
                string_from_chars(v)
            },
        }
    }
}

/// Metadata for a single column.
#[derive(Debug, Clone)]
pub struct ColumnMeta {
    pub name: String,
    pub col_type: OracleType,
    pub length: u16,
    pub precision: u8,
    pub scale: u8,
    pub nullable: bool,
}

/// Metadata for a table.
#[derive(Debug, Clone)]
pub struct TableMeta {
    pub owner: String,
    pub name: String,
    pub columns: Vec<ColumnMeta>,
}

/// Header information of a dump.
#[derive(Debug, Clone)]
pub struct DumpHeader {
    pub export_version: String,
    pub oracle_version: String,
    pub export_date: String,
    pub charset: String,
    pub ncharset: String,
    pub platform: String,
    pub export_mode: String,
}

/// A `DumpHeader` with its strings seen as character sequences.
pub struct DumpHeaderView {
    pub export_version: Seq<char>,
    pub oracle_version: Seq<char>,
    pub export_date: Seq<char>,
    pub charset: Seq<char>,
    pub ncharset: Seq<char>,
    pub platform: Seq<char>,
    pub export_mode: Seq<char>,
}

impl View for DumpHeader {
    type V = DumpHeaderView;

    open spec fn view(&self) -> DumpHeaderView {
        DumpHeaderView {
            export_version: self.export_version@,
            oracle_version: self.oracle_version@,
            export_date: self.export_date@,
            charset: self.charset@,
            ncharset: self.ncharset@,
            platform: self.platform@,
            export_mode: self.export_mode@,
        }
    }
}

/// The header with every field empty.
pub open spec fn empty_header() -> DumpHeaderView {
    DumpHeaderView {
        export_version: Seq::empty(),
        oracle_version: Seq::empty(),
        export_date: Seq::empty(),
        charset: Seq::empty(),
        ncharset: Seq::empty(),
        platform: Seq::empty(),
        export_mode: Seq::empty(),
    }
}

impl Default for DumpHeader {
    fn default() -> (h: Self)
        ensures
            h@ == empty_header(),
    {
        DumpHeader {
            export_version: String::new(),
            oracle_version: String::new(),
            export_date: String::new(),
            charset: String::new(),
            ncharset: String::new(),
            platform: String::new(),
            export_mode: String::new(),
        }
    }
}

/// A parsed table row.
#[derive(Debug, Clone)]
pub struct TableRow {
    pub values: Vec<ColumnValue>,
}

} // verus!
