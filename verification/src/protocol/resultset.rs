//! Column counts, column definitions and text rows.

use vstd::prelude::*;
use vstd::utf8;

use crate::protocol::constants::NULL_COLUMN_MARKER;
use crate::protocol::constants::{collation, column_type};
use crate::protocol::packet;
use crate::protocol::packet::PacketWriter;

verus! {

/// The definition of a result column.
#[derive(Debug, Clone)]
pub struct ColumnDefinition {
    /// Column name as the client sees it.
    pub name: String,
    /// Table that the column comes from; may be empty.
    pub table: String,
    /// MySQL column type.
    pub column_type: u8,
    /// Collation id.
    pub charset: u8,
    /// Declared maximum length in bytes.
    pub column_length: u32,
    /// Column flags.
    pub flags: u16,
    /// Number of decimal digits, or `0x1f` where there is none.
    pub decimals: u8,
}

/// The model of a [`ColumnDefinition`].
pub struct DefinitionView {
    pub name: Seq<char>,
    pub table: Seq<char>,
    pub column_type: u8,
    pub charset: u8,
    pub column_length: u32,
    pub flags: u16,
    pub decimals: u8,
}

impl View for ColumnDefinition {
    type V = DefinitionView;

    open spec fn view(&self) -> DefinitionView {
        DefinitionView {
            name: self.name@,
            table: self.table@,
            column_type: self.column_type,
            charset: self.charset,
            column_length: self.column_length,
            flags: self.flags,
            decimals: self.decimals,
        }
    }
}

impl DeepView for ColumnDefinition {
    type V = DefinitionView;

    open spec fn deep_view(&self) -> DefinitionView {
        self@
    }
}

/// A text column.
pub open spec fn text_definition(name: Seq<char>) -> DefinitionView {
    DefinitionView {
        name,
        table: Seq::empty(),
        column_type: column_type::MYSQL_TYPE_VAR_STRING,
        charset: collation::UTF8MB4_GENERAL_CI,
        column_length: 1024,
        flags: 0,
        decimals: 0x1f,
    }
}

/// The payload of a column definition.
pub open spec fn definition_payload(d: DefinitionView) -> Seq<u8> {
    packet::lenenc_string(seq![0x64u8, 0x65u8, 0x66u8]) + packet::lenenc_string(seq![])
        + packet::lenenc_string(utf8::encode_utf8(d.table)) + packet::lenenc_string(utf8::encode_utf8(d.table))
        + packet::lenenc_string(utf8::encode_utf8(d.name)) + packet::lenenc_string(utf8::encode_utf8(d.name))
        + packet::lenenc(0x0c) + packet::le(d.charset as nat, 2) + packet::le(
        d.column_length as nat,
        4,
    ) + seq![d.column_type] + packet::le(d.flags as nat, 2) + seq![d.decimals] + packet::le(0, 2)
}

impl ColumnDefinition {
    /// A text column: every value of the text protocol is a string.
    pub fn text(name: &str) -> (r: Self)
        ensures
            r@ == text_definition(name@),
    {
        ColumnDefinition {
            name: name.to_string(),
            table: String::new(),
            column_type: column_type::MYSQL_TYPE_VAR_STRING,
            charset: collation::UTF8MB4_GENERAL_CI,
            column_length: 1024,
            flags: 0,
            decimals: 0x1f,
        }
    }

    /// The packet's payload: catalog, schema, table and name, each twice where
    /// there is an original name, and the fixed-length fields.
    pub fn encode(&self) -> (r: Vec<u8>)
        ensures
            r@ == definition_payload(self@),
    {
        let table = self.table.as_str().as_bytes();
        let name = self.name.as_str().as_bytes();
        let catalog: [u8; 3] = [0x64, 0x65, 0x66];
        let schema: [u8; 0] = [];
        assert(catalog@ =~= seq![0x64u8, 0x65u8, 0x66u8]);
        assert(schema@ =~= seq![]);
        let mut w = PacketWriter::with_capacity(64);
        w.lenenc_bytes(catalog.as_slice());
        w.lenenc_bytes(schema.as_slice());
        w.lenenc_bytes(table);
        w.lenenc_bytes(table);
        w.lenenc_bytes(name);
        w.lenenc_bytes(name);
        w.lenenc_u64(0x0c);
        w.u16(self.charset as u16);
        w.u32(self.column_length);
        w.u8(self.column_type);
        w.u16(self.flags);
        w.u8(self.decimals);
        w.u16(0);
        assert(w@ =~= definition_payload(self@));
        w.into_bytes()
    }
}

/// The packet that opens a result set.
pub fn encode_column_count(count: u64) -> (r: Vec<u8>)
    ensures
        r@ == packet::lenenc(count as nat),
{
    let mut w = PacketWriter::with_capacity(4);
    w.lenenc_u64(count);
    assert(w@ =~= packet::lenenc(count as nat));
    w.into_bytes()
}

/// A text row's cell: the length-encoded text, or the mark of NULL.
pub open spec fn text_cell(cell: Option<Seq<u8>>) -> Seq<u8> {
    match cell {
        Some(bytes) => packet::lenenc_string(bytes),
        None => seq![NULL_COLUMN_MARKER],
    }
}

/// A text row: its cells, one behind the other.
pub open spec fn text_row(cells: Seq<Option<Seq<u8>>>) -> Seq<u8>
    decreases cells.len(),
{
    if cells.len() == 0 {
        seq![]
    } else {
        text_row(cells.drop_last()) + text_cell(cells.last())
    }
}

/// The cells that borrowed values stand for.
pub open spec fn cells_of(values: Seq<Option<&[u8]>>) -> Seq<Option<Seq<u8>>> {
    Seq::new(
        values.len(),
        |i: int|
            match values[i] {
                Some(bytes) => Some(bytes@),
                None => None,
            },
    )
}

/// One row of a text result set: `Some` for a value in text form, `None` for NULL.
pub fn encode_text_row(values: Vec<Option<&[u8]>>) -> (r: Vec<u8>)
    ensures
        r@ == text_row(cells_of(values@)),
{
    let mut w = PacketWriter::with_capacity(64);
    let ghost cells = cells_of(values@);
    for i in 0..values.len()
        invariant
            cells == cells_of(values@),
            w@ == text_row(cells.take(i as int)),
    {
        match values[i] {
            Some(bytes) => {
                w.lenenc_bytes(bytes);
            },
            None => {
                w.u8(NULL_COLUMN_MARKER);
            },
        }
        assert(cells.take(i + 1).drop_last() =~= cells.take(i as int));
    }
    assert(cells.take(values.len() as int) =~= cells);
    w.into_bytes()
}

/// Where cell `i` of a row starts.
pub open spec fn cell_offset(cells: Seq<Option<Seq<u8>>>, i: int) -> int {
    text_row(cells.take(i)).len() as int
}

/// Every cell of a row is read back: at its offset a NULL has its mark, and
/// anything else is read as the bytes that were written and leaves the reader at
/// the next cell. The mark of NULL opens no other cell.
pub proof fn text_row_reads_back(cells: Seq<Option<Seq<u8>>>, i: int)
    requires
        0 <= i < cells.len(),
        cells[i] matches Some(b) ==> b.len() <= usize::MAX,
    ensures
        match cells[i] {
            None => text_row(cells)[cell_offset(cells, i)] == NULL_COLUMN_MARKER && cell_offset(
                cells,
                i + 1,
            ) == cell_offset(cells, i) + 1,
            Some(bytes) => packet::read_lenenc_bytes(text_row(cells), cell_offset(cells, i))
                == packet::Parse::Got(bytes, cell_offset(cells, i + 1)) && text_row(
                cells,
            )[cell_offset(cells, i)] != NULL_COLUMN_MARKER,
        },
{
    text_row_prefix(cells, i + 1);
    let row = text_row(cells);
    let at = cell_offset(cells, i);
    let cell = text_cell(cells[i]);
    let upto = text_row(cells.take(i + 1));
    assert(cells.take(i + 1).drop_last() =~= cells.take(i));
    assert(cells.take(i + 1).last() == cells[i]);
    assert(upto == text_row(cells.take(i)) + cell);
    assert(row.take(upto.len() as int) == upto);
    assert(row.subrange(at, at + cell.len()) =~= upto.subrange(at, at + cell.len()));
    assert(upto.subrange(at, at + cell.len()) =~= cell);
    assert(cell.len() > 0) by {
        if let Some(b) = cells[i] {
            assert(packet::lenenc(b.len()).len() > 0);
        }
    }
    assert(row[at] == row.subrange(at, at + cell.len())[0]);
    if let Some(b) = cells[i] {
        packet::lenenc_string_roundtrips(row, at, b);
        assert(cell[0] == packet::lenenc(b.len())[0]);
    }
}

proof fn text_row_prefix(cells: Seq<Option<Seq<u8>>>, i: int)
    requires
        0 <= i <= cells.len(),
    ensures
        text_row(cells.take(i)).len() <= text_row(cells).len(),
        text_row(cells).take(text_row(cells.take(i)).len() as int) == text_row(cells.take(i)),
    decreases cells.len(),
{
    if i == cells.len() {
        assert(cells.take(i) =~= cells);
        assert(text_row(cells).take(text_row(cells).len() as int) =~= text_row(cells));
    } else {
        let shorter = cells.drop_last();
        assert(shorter.take(i) =~= cells.take(i));
        text_row_prefix(shorter, i);
        let n = text_row(cells.take(i)).len() as int;
        assert(text_row(cells).take(n) =~= text_row(shorter).take(n));
    }
}

/// The fields of a column definition are read back in their order: the catalog `def`,
/// an empty schema, the table twice, the name twice, and twelve bytes that hold the
/// collation, the length, the type, the flags and the number of decimals.
#[verifier::rlimit(60)]
pub proof fn definition_reads_back(d: DefinitionView)
    requires
        utf8::encode_utf8(d.table).len() <= usize::MAX,
        utf8::encode_utf8(d.name).len() <= usize::MAX,
    ensures
        ({
            let b = definition_payload(d);
            let t = packet::lenenc_string(utf8::encode_utf8(d.table)).len() as int;
            let n = packet::lenenc_string(utf8::encode_utf8(d.name)).len() as int;
            let p = 5 + 2 * t + 2 * n;
            &&& b.len() == p + 13
            &&& packet::read_lenenc_bytes(b, 0) == packet::Parse::Got(
                seq![0x64u8, 0x65u8, 0x66u8],
                4,
            )
            &&& packet::read_lenenc_bytes(b, 4) == packet::Parse::Got(Seq::<u8>::empty(), 5)
            &&& packet::read_lenenc_bytes(b, 5) == packet::Parse::Got(
                utf8::encode_utf8(d.table),
                5 + t,
            )
            &&& packet::read_lenenc_bytes(b, 5 + t) == packet::Parse::Got(
                utf8::encode_utf8(d.table),
                5 + 2 * t,
            )
            &&& packet::read_lenenc_bytes(b, 5 + 2 * t) == packet::Parse::Got(
                utf8::encode_utf8(d.name),
                5 + 2 * t + n,
            )
            &&& packet::read_lenenc_bytes(b, 5 + 2 * t + n) == packet::Parse::Got(
                utf8::encode_utf8(d.name),
                p,
            )
            &&& b[p] == 12
            &&& b[p + 1] == d.charset && b[p + 2] == 0
            &&& b[p + 3] + 0x100 * b[p + 4] + 0x1_0000 * b[p + 5] + 0x100_0000 * b[p + 6]
                == d.column_length
            &&& b[p + 7] == d.column_type
            &&& b[p + 8] + 0x100 * b[p + 9] == d.flags
            &&& b[p + 10] == d.decimals
            &&& b[p + 11] == 0 && b[p + 12] == 0
        }),
{
    let b = definition_payload(d);
    let catalog = seq![0x64u8, 0x65u8, 0x66u8];
    let none = Seq::<u8>::empty();
    let table = packet::lenenc_string(utf8::encode_utf8(d.table));
    let name = packet::lenenc_string(utf8::encode_utf8(d.name));
    let t = table.len() as int;
    let n = name.len() as int;
    let p = 5 + 2 * t + 2 * n;
    assert(packet::lenenc_string(catalog).len() == 4);
    assert(packet::lenenc_string(none).len() == 1);
    assert(packet::lenenc(12) =~= seq![12u8]);
    packet::le_unfolds(d.charset as nat);
    packet::le_unfolds(0);
    packet::pow256_values();
    packet::le_reads_back(d.column_length as nat, 4);
    packet::le_value_unfolds(packet::le(d.column_length as nat, 4));
    packet::le_reads_back(d.flags as nat, 2);
    packet::le_value_unfolds(packet::le(d.flags as nat, 2));
    assert(b.subrange(0, 4) =~= packet::lenenc_string(catalog));
    packet::lenenc_string_roundtrips(b, 0, catalog);
    assert(b.subrange(4, 5) =~= packet::lenenc_string(none));
    packet::lenenc_string_roundtrips(b, 4, none);
    assert(b.subrange(5, 5 + t) =~= table);
    packet::lenenc_string_roundtrips(b, 5, utf8::encode_utf8(d.table));
    assert(b.subrange(5 + t, 5 + 2 * t) =~= table);
    packet::lenenc_string_roundtrips(b, 5 + t, utf8::encode_utf8(d.table));
    assert(b.subrange(5 + 2 * t, 5 + 2 * t + n) =~= name);
    packet::lenenc_string_roundtrips(b, 5 + 2 * t, utf8::encode_utf8(d.name));
    assert(b.subrange(5 + 2 * t + n, p) =~= name);
    packet::lenenc_string_roundtrips(b, 5 + 2 * t + n, utf8::encode_utf8(d.name));
    let tail = b.skip(p);
    assert(tail =~= seq![12u8] + packet::le(d.charset as nat, 2) + packet::le(
        d.column_length as nat,
        4,
    ) + seq![d.column_type] + packet::le(d.flags as nat, 2) + seq![d.decimals] + packet::le(0, 2));
    assert forall|i: int| 0 <= i < 13 implies b[p + i] == #[trigger] tail[i] by {}
    assert(tail.len() == 13);
    assert(b[p + 0] == tail[0] && b[p + 1] == tail[1] && b[p + 2] == tail[2] && b[p + 3] == tail[3]
        && b[p + 4] == tail[4] && b[p + 5] == tail[5] && b[p + 6] == tail[6] && b[p + 7] == tail[7]
        && b[p + 8] == tail[8] && b[p + 9] == tail[9] && b[p + 10] == tail[10] && b[p + 11]
        == tail[11] && b[p + 12] == tail[12]);
}

/// A text column has the name that it is given and no table; it is a `VAR_STRING` in
/// UTF-8, without flags and without a number of decimals.
pub proof fn text_columns_are_strings(name: Seq<char>)
    ensures
        ({
            let d = text_definition(name);
            &&& d.name == name && d.table.len() == 0
            &&& d.column_type == 0xfd && d.charset == 45
            &&& d.column_length == 1024 && d.flags == 0 && d.decimals == 31
        }),
{
}

/// A row grows by one cell: a NULL is one byte `0xfb`, anything else its length and its
/// bytes.
pub proof fn rows_grow_by_cells(cells: Seq<Option<Seq<u8>>>, bytes: Seq<u8>)
    ensures
        text_row(Seq::<Option<Seq<u8>>>::empty()).len() == 0,
        text_row(cells.push(None)) == text_row(cells) + seq![0xfbu8],
        text_row(cells.push(Some(bytes))) == text_row(cells) + packet::lenenc(bytes.len()) + bytes,
{
    assert(cells.push(None).drop_last() =~= cells);
    assert(cells.push(Some(bytes)).drop_last() =~= cells);
    assert(text_row(cells) + packet::lenenc_string(bytes) =~= text_row(cells) + packet::lenenc(
        bytes.len(),
    ) + bytes);
}

} // verus!
