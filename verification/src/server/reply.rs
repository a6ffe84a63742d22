//! Replies: the packets that answer a command, and their frames.

use vstd::prelude::*;
use vstd::utf8;

use crate::protocol::constants::status;
use crate::protocol::frame;
use crate::protocol::packet;
use crate::protocol::response;
use crate::protocol::response::{EofPacket, OkPacket};
use crate::protocol::resultset;
use crate::protocol::resultset::{ColumnDefinition, DefinitionView};
use crate::protocol::stmt;
use crate::protocol::stmt::{BinaryValue, BinaryView, StmtPrepareOk};
use crate::server::session::{SessionResponse, SessionView};
use crate::server::show::{ColumnsResult, ResultView};
use crate::server::types;
use crate::server::types::ColumnMeta;
use crate::server::value;
use crate::server::value::{Value, ValueView};

verus! {

// ---------------------------------------------------------------------------
// Frames
// ---------------------------------------------------------------------------
/// The sequence id behind the frames of some payloads.
pub open spec fn seq_behind(seq: u8, payloads: Seq<Seq<u8>>) -> u8
    decreases payloads.len(),
{
    if payloads.len() == 0 {
        seq
    } else {
        frame::seq_after(seq_behind(seq, payloads.drop_last()), payloads.last())
    }
}

/// The frames of some payloads, numbered through from `seq` on.
pub open spec fn framed(seq: u8, payloads: Seq<Seq<u8>>) -> Seq<u8>
    decreases payloads.len(),
{
    if payloads.len() == 0 {
        seq![]
    } else {
        framed(seq, payloads.drop_last()) + frame::frames(
            seq_behind(seq, payloads.drop_last()),
            payloads.last(),
        )
    }
}

/// The model of a list of payloads.
pub open spec fn payloads_of(v: Seq<Vec<u8>>) -> Seq<Seq<u8>> {
    Seq::new(v.len(), |i: int| v[i]@)
}

/// Frames some payloads, numbered through from `seq` on.
pub fn encode_packets(seq: u8, payloads: &Vec<Vec<u8>>) -> (r: Vec<u8>)
    ensures
        r@ == framed(seq, payloads_of(payloads@)),
{
    let ghost all = payloads_of(payloads@);
    let mut out: Vec<u8> = Vec::new();
    let mut id: u8 = seq;
    assert(all.take(0) =~= seq![]);
    for i in 0..payloads.len()
        invariant
            all == payloads_of(payloads@),
            out@ == framed(seq, all.take(i as int)),
            id == seq_behind(seq, all.take(i as int)),
    {
        assert(all.take(i + 1).drop_last() =~= all.take(i as int));
        assert(all.take(i + 1).last() == payloads@[i as int]@);
        id = frame::encode_frame(&mut out, id, payloads[i].as_slice());
    }
    assert(all.take(all.len() as int) =~= all);
    out
}

/// Frames one payload.
pub fn encode_packet(seq: u8, payload: &Vec<u8>) -> (r: Vec<u8>)
    ensures
        r@ == frame::frames(seq, payload@),
{
    let mut out: Vec<u8> = Vec::new();
    let _next: u8 = frame::encode_frame(&mut out, seq, payload.as_slice());
    assert(out@ =~= frame::frames(seq, payload@));
    out
}

/// One payload is framed on its own as it is among others.
pub proof fn one_payload_is_framed(seq: u8, payload: Seq<u8>)
    ensures
        framed(seq, seq![payload]) == frame::frames(seq, payload),
{
    reveal_with_fuel(framed, 2);
    reveal_with_fuel(seq_behind, 2);
    assert(seq![payload].drop_last() =~= seq![]);
    assert(framed(seq, seq![payload]) =~= frame::frames(seq, payload));
}

/// The frames of the first payloads come first.
proof fn framed_in_order(seq: u8, payloads: Seq<Seq<u8>>, i: int)
    requires
        0 <= i <= payloads.len(),
    ensures
        packet::stands_at(framed(seq, payloads), 0, framed(seq, payloads.take(i))),
    decreases payloads.len() - i,
{
    if i < payloads.len() {
        framed_in_order(seq, payloads, i + 1);
        assert(payloads.take(i + 1).drop_last() =~= payloads.take(i));
        let all = framed(seq, payloads);
        let more = framed(seq, payloads.take(i + 1));
        let less = framed(seq, payloads.take(i));
        assert(all.subrange(0, less.len() as int) =~= more.subrange(0, less.len() as int)) by {
            assert forall|k: int| 0 <= k < less.len() implies all[k] == more[k] by {
                assert(all.subrange(0, more.len() as int)[k] == all[k]);
            }
        }
        assert(more.subrange(0, less.len() as int) =~= less);
    } else {
        assert(payloads.take(i) =~= payloads);
        assert(framed(seq, payloads).subrange(0, framed(seq, payloads).len() as int) =~= framed(
            seq,
            payloads,
        ));
    }
}

/// A reply reads back packet by packet: behind the frames of the payloads before
/// it, each payload is found, with the next sequence id.
pub proof fn reply_reads_back(seq: u8, payloads: Seq<Seq<u8>>, i: int)
    requires
        0 <= i < payloads.len(),
    ensures
        frame::packet_at(framed(seq, payloads), framed(seq, payloads.take(i)).len() as int) == Some(
            (payloads[i], framed(seq, payloads.take(i + 1)).len() as int),
        ),
        framed(seq, payloads)[framed(seq, payloads.take(i)).len() as int + 3] == seq_behind(
            seq,
            payloads.take(i),
        ),
{
    let all = framed(seq, payloads);
    let before = framed(seq, payloads.take(i));
    let upto = framed(seq, payloads.take(i + 1));
    let id = seq_behind(seq, payloads.take(i));
    let own = frame::frames(id, payloads[i]);
    framed_in_order(seq, payloads, i + 1);
    assert(payloads.take(i + 1).drop_last() =~= payloads.take(i));
    assert(upto == before + own);
    let pos = before.len() as int;
    assert(all.subrange(0, upto.len() as int) =~= upto);
    assert(all.subrange(pos, pos + own.len()) =~= own) by {
        assert forall|k: int| 0 <= k < own.len() implies all[pos + k] == own[k] by {
            assert(all.subrange(0, upto.len() as int)[pos + k] == upto[pos + k]);
        }
    }
    frame::frames_found_at(all, pos, id, payloads[i]);
    frame::frames_roundtrip(id, payloads[i], seq![]);
    assert(own + Seq::<u8>::empty() =~= own);
    assert(own.len() > 3) by {
        packet::le_reads_back(payloads[i].len(), 3);
        packet::le_reads_back(frame::MAX_PAYLOAD as nat, 3);
    }
    assert(all[pos + 3] == all.subrange(pos, pos + own.len())[3]);
}

/// The frame of a plain OK packet.
pub open spec fn ok_reply(seq: u8) -> Seq<u8> {
    frame::frames(seq, response::plain_ok(0, 0))
}

/// Frames a plain OK packet.
pub fn encode_ok(seq: u8) -> (r: Vec<u8>)
    ensures
        r@ == ok_reply(seq),
{
    let ok = OkPacket::default();
    proof {
        response::ok_payload_is_plain(ok);
    }
    encode_packet(seq, &ok.encode())
}

/// The frame of an OK packet that reports changed rows. The engine's counts are
/// signed; a negative one is reported as zero.
pub open spec fn changed_reply(seq: u8, changes: int, last_insert_rowid: int) -> Seq<u8> {
    frame::frames(
        seq,
        response::plain_ok(
            if changes > 0 {
                changes as nat
            } else {
                0
            },
            if last_insert_rowid > 0 {
                last_insert_rowid as nat
            } else {
                0
            },
        ),
    )
}

/// Frames an OK packet that reports changed rows.
pub fn encode_changed(seq: u8, changes: i64, last_insert_rowid: i64) -> (r: Vec<u8>)
    ensures
        r@ == changed_reply(seq, changes as int, last_insert_rowid as int),
{
    let affected: u64 = if changes > 0 {
        changes as u64
    } else {
        0
    };
    let inserted: u64 = if last_insert_rowid > 0 {
        last_insert_rowid as u64
    } else {
        0
    };
    let ok = OkPacket::with_affected_rows(affected, inserted);
    proof {
        response::ok_payload_is_plain(ok);
    }
    encode_packet(seq, &ok.encode())
}

// ---------------------------------------------------------------------------
// Result sets
// ---------------------------------------------------------------------------
/// The payload of the packet that ends the columns, and the rows, of a result set.
pub open spec fn end_payload() -> Seq<u8> {
    response::eof_payload(0, status::SERVER_STATUS_AUTOCOMMIT)
}

/// The packets of a result set: the number of columns, their definitions, an end
/// mark, the rows, and another end mark.
pub open spec fn result_set(columns: Seq<DefinitionView>, rows: Seq<Seq<u8>>) -> Seq<Seq<u8>> {
    seq![packet::lenenc(columns.len())] + definition_payloads(columns) + seq![end_payload()] + rows
        + seq![end_payload()]
}

/// The payloads of column definitions.
pub open spec fn definition_payloads(columns: Seq<DefinitionView>) -> Seq<Seq<u8>> {
    Seq::new(columns.len(), |i: int| resultset::definition_payload(columns[i]))
}

/// Appends the payloads of column definitions.
fn push_definitions(out: &mut Vec<Vec<u8>>, columns: &Vec<ColumnDefinition>)
    ensures
        payloads_of(final(out)@) == payloads_of(old(out)@) + definition_payloads(
            columns.deep_view(),
        ),
{
    let ghost start = payloads_of(out@);
    let ghost all = definition_payloads(columns.deep_view());
    assert(start + all.take(0) =~= start);
    for i in 0..columns.len()
        invariant
            all == definition_payloads(columns.deep_view()),
            payloads_of(out@) == start + all.take(i as int),
    {
        assert(columns.deep_view()[i as int] == columns@[i as int]@);
        let payload = columns[i].encode();
        let ghost before = payloads_of(out@);
        out.push(payload);
        assert(payloads_of(out@) =~= before.push(payload@));
        assert(start + all.take(i + 1) =~= (start + all.take(i as int)).push(all[i as int]));
    }
    assert(all.take(all.len() as int) =~= all);
}

/// Appends the end mark.
fn push_end(out: &mut Vec<Vec<u8>>)
    ensures
        payloads_of(final(out)@) == payloads_of(old(out)@) + seq![end_payload()],
{
    let ghost before = payloads_of(out@);
    let payload = EofPacket::new(status::SERVER_STATUS_AUTOCOMMIT).encode();
    out.push(payload);
    assert(payloads_of(out@) =~= before + seq![end_payload()]);
}

/// Frames a result set, its rows already encoded.
fn encode_set(seq: u8, columns: &Vec<ColumnDefinition>, rows: Vec<Vec<u8>>) -> (r: Vec<u8>)
    ensures
        r@ == framed(seq, result_set(columns.deep_view(), payloads_of(rows@))),
{
    let ghost body = payloads_of(rows@);
    let mut rows = rows;
    let mut out: Vec<Vec<u8>> = Vec::new();
    let count = resultset::encode_column_count(columns.len() as u64);
    out.push(count);
    assert(columns.deep_view().len() == columns@.len());
    assert(payloads_of(out@) =~= seq![packet::lenenc(columns.deep_view().len())]);
    push_definitions(&mut out, columns);
    push_end(&mut out);
    let ghost before = payloads_of(out@);
    out.append(&mut rows);
    assert(payloads_of(out@) =~= before + body);
    push_end(&mut out);
    assert(payloads_of(out@) =~= result_set(columns.deep_view(), body));
    encode_packets(seq, &out)
}

/// The bytes of a text cell.
pub open spec fn text_bytes(cell: Option<Seq<char>>) -> Option<Seq<u8>> {
    match cell {
        Some(s) => Some(utf8::encode_utf8(s)),
        None => None,
    }
}

/// The payload of a row of text.
pub open spec fn string_row(cells: Seq<Option<Seq<char>>>) -> Seq<u8> {
    resultset::text_row(Seq::new(cells.len(), |i: int| text_bytes(cells[i])))
}

/// Encodes a row of text.
fn encode_string_row(cells: &Vec<Option<String>>) -> (r: Vec<u8>)
    ensures
        r@ == string_row(cells.deep_view()),
{
    let mut values: Vec<Option<&[u8]>> = Vec::new();
    let ghost views = cells.deep_view();
    for i in 0..cells.len()
        invariant
            views == cells.deep_view(),
            values@.len() == i,
            forall|j: int|
                0 <= j < i ==> #[trigger] resultset::cells_of(values@)[j] == text_bytes(views[j]),
    {
        assert(views[i as int] == cells@[i as int].deep_view());
        let ghost before = resultset::cells_of(values@);
        values.push(
            match &cells[i] {
                Some(s) => Some(s.as_str().as_bytes()),
                None => None,
            },
        );
        assert(resultset::cells_of(values@).drop_last() =~= before);
        assert forall|j: int| 0 <= j < i + 1 implies #[trigger] resultset::cells_of(values@)[j]
            == text_bytes(views[j]) by {
            if j < i {
                assert(resultset::cells_of(values@)[j] == before[j]);
            }
        }
    }
    assert(resultset::cells_of(values@) =~= Seq::new(views.len(), |i: int| text_bytes(views[i])));
    resultset::encode_text_row(values)
}

/// Text columns with the given names.
pub open spec fn text_columns(names: Seq<Seq<char>>) -> Seq<DefinitionView> {
    Seq::new(names.len(), |i: int| resultset::text_definition(names[i]))
}

/// The reply to a session statement.
pub open spec fn session_reply(seq: u8, response: SessionView) -> Seq<u8> {
    match response {
        SessionView::OkReply => ok_reply(seq),
        SessionView::Row { columns, values } => framed(
            seq,
            result_set(text_columns(columns), seq![string_row(values)]),
        ),
    }
}

/// Frames the reply to a session statement.
pub fn encode_session_response(first_seq: u8, response: SessionResponse) -> (r: Vec<u8>)
    ensures
        r@ == session_reply(first_seq, response.deep_view()),
{
    match response {
        SessionResponse::OkReply => encode_ok(first_seq),
        SessionResponse::Row { columns, values } => {
            let mut definitions: Vec<ColumnDefinition> = Vec::new();
            for i in 0..columns.len()
                invariant
                    definitions@.len() == i,
                    forall|j: int|
                        0 <= j < i ==> (#[trigger] definitions@[j])@ == resultset::text_definition(
                            columns@[j]@,
                        ),
            {
                definitions.push(ColumnDefinition::text(columns[i].as_str()));
            }
            assert(definitions.deep_view() =~= text_columns(columns.deep_view()));
            let row = encode_string_row(&values);
            let rows = vec![row];
            assert(payloads_of(rows@) =~= seq![string_row(values.deep_view())]);
            encode_set(first_seq, &definitions, rows)
        },
    }
}

/// The payloads of rows of text.
pub open spec fn string_rows(rows: Seq<Seq<Option<Seq<char>>>>) -> Seq<Seq<u8>> {
    Seq::new(rows.len(), |i: int| string_row(rows[i]))
}

/// The reply with a result set of text.
pub open spec fn columns_reply(seq: u8, result: ResultView) -> Seq<u8> {
    framed(seq, result_set(text_columns(result.columns), string_rows(result.rows)))
}

/// Frames a result set of text.
pub fn encode_columns_result(first_seq: u8, result: ColumnsResult) -> (r: Vec<u8>)
    ensures
        r@ == columns_reply(first_seq, result.deep_view()),
{
    let ghost view = result.deep_view();
    let mut definitions: Vec<ColumnDefinition> = Vec::new();
    for i in 0..result.columns.len()
        invariant
            definitions@.len() == i,
            forall|j: int|
                0 <= j < i ==> (#[trigger] definitions@[j])@ == resultset::text_definition(
                    result.columns@[j]@,
                ),
    {
        definitions.push(ColumnDefinition::text(result.columns[i]));
    }
    assert(definitions.deep_view() =~= text_columns(view.columns));
    let mut rows: Vec<Vec<u8>> = Vec::new();
    for i in 0..result.rows.len()
        invariant
            view == result.deep_view(),
            rows@.len() == i,
            forall|j: int| 0 <= j < i ==> (#[trigger] rows@[j])@ == string_row(view.rows[j]),
    {
        assert(view.rows[i as int] == result.rows@[i as int].deep_view());
        rows.push(encode_string_row(&result.rows[i]));
    }
    assert(payloads_of(rows@) =~= string_rows(view.rows));
    encode_set(first_seq, &definitions, rows)
}

/// The payload of a row of engine values, as text.
pub open spec fn value_row(values: Seq<ValueView>) -> Seq<u8> {
    resultset::text_row(Seq::new(values.len(), |i: int| value::row_bytes(values[i])))
}

/// Encodes a row of engine values as text.
fn encode_value_row(values: &Vec<Value>) -> (r: Vec<u8>)
    ensures
        r@ == value_row(values.deep_view()),
{
    let ghost views = values.deep_view();
    let mut bytes: Vec<Option<Vec<u8>>> = Vec::new();
    for i in 0..values.len()
        invariant
            views == values.deep_view(),
            bytes@.len() == i,
            forall|j: int|
                0 <= j < i ==> match #[trigger] bytes@[j] {
                    Some(b) => value::row_bytes(views[j]) == Some(b@),
                    None => value::row_bytes(views[j]) is None,
                },
    {
        assert(views[i as int] == values@[i as int]@);
        bytes.push(value::value_to_text(&values[i]));
    }
    let mut cells: Vec<Option<&[u8]>> = Vec::new();
    for i in 0..bytes.len()
        invariant
            views.len() == bytes@.len(),
            cells@.len() == i,
            forall|j: int|
                0 <= j < bytes@.len() ==> match #[trigger] bytes@[j] {
                    Some(b) => value::row_bytes(views[j]) == Some(b@),
                    None => value::row_bytes(views[j]) is None,
                },
            forall|j: int|
                0 <= j < i ==> match #[trigger] cells@[j] {
                    Some(b) => value::row_bytes(views[j]) == Some(b@),
                    None => value::row_bytes(views[j]) is None,
                },
    {
        assert(match bytes@[i as int] {
            Some(b) => value::row_bytes(views[i as int]) == Some(b@),
            None => value::row_bytes(views[i as int]) is None,
        });
        cells.push(
            match &bytes[i] {
                Some(b) => Some(b.as_slice()),
                None => None,
            },
        );
    }
    assert(resultset::cells_of(cells@) =~= Seq::new(
        views.len(),
        |i: int| value::row_bytes(views[i]),
    )) by {
        assert forall|j: int| 0 <= j < views.len() implies resultset::cells_of(cells@)[j]
            == value::row_bytes(views[j]) by {
            assert(match cells@[j] {
                Some(b) => value::row_bytes(views[j]) == Some(b@),
                None => value::row_bytes(views[j]) is None,
            });
        }
    }
    resultset::encode_text_row(cells)
}

/// The payloads of rows of engine values, as text.
pub open spec fn value_rows(rows: Seq<Seq<ValueView>>) -> Seq<Seq<u8>> {
    Seq::new(rows.len(), |i: int| value_row(rows[i]))
}

/// The reply with the rows of a query, as text.
pub open spec fn rows_reply(
    seq: u8,
    columns: Seq<DefinitionView>,
    rows: Seq<Seq<ValueView>>,
) -> Seq<u8> {
    framed(seq, result_set(columns, value_rows(rows)))
}

/// The definitions of result columns.
pub fn column_definitions(columns: &Vec<ColumnMeta>) -> (r: Vec<ColumnDefinition>)
    ensures
        r.deep_view() == columns.deep_view(),
{
    let mut definitions: Vec<ColumnDefinition> = Vec::new();
    for i in 0..columns.len()
        invariant
            definitions@.len() == i,
            forall|j: int| 0 <= j < i ==> (#[trigger] definitions@[j])@ == columns@[j].deep_view(),
    {
        definitions.push(types::column_definition(&columns[i]));
    }
    assert(definitions.deep_view() =~= columns.deep_view());
    definitions
}

/// Frames the rows of a query, as text.
pub fn encode_result_set(first_seq: u8, columns: &Vec<ColumnMeta>, rows: &Vec<Vec<Value>>) -> (r:
    Vec<u8>)
    ensures
        r@ == rows_reply(first_seq, columns.deep_view(), rows.deep_view()),
{
    let definitions = column_definitions(columns);
    let ghost views = rows.deep_view();
    let mut payloads: Vec<Vec<u8>> = Vec::new();
    for i in 0..rows.len()
        invariant
            views == rows.deep_view(),
            payloads@.len() == i,
            forall|j: int| 0 <= j < i ==> (#[trigger] payloads@[j])@ == value_row(views[j]),
    {
        assert(views[i as int] == rows@[i as int].deep_view());
        payloads.push(encode_value_row(&rows[i]));
    }
    assert(payloads_of(payloads@) =~= value_rows(views));
    encode_set(first_seq, &definitions, payloads)
}

// ---------------------------------------------------------------------------
// Prepared statements
// ---------------------------------------------------------------------------
/// The cells of a binary row: the values, as many as there are columns, in the
/// forms of the columns' types.
pub open spec fn cells_for(values: Seq<ValueView>, columns: Seq<DefinitionView>) -> Seq<
    (u8, BinaryView),
> {
    Seq::new(
        if values.len() < columns.len() {
            values.len()
        } else {
            columns.len()
        },
        |i: int|
            (columns[i].column_type, types::binary_of(values[i], columns[i].column_type)),
    )
}

/// Gives the cells of a binary row. A number in a floating-point column still has
/// the form that the engine gave it.
pub fn binary_cells(values: &Vec<Value>, columns: &Vec<ColumnDefinition>) -> (r: Vec<
    (u8, BinaryValue),
>)
    ensures
        stmt::cell_views(r@) == cells_for(values.deep_view(), columns.deep_view()),
{
    let ghost expected = cells_for(values.deep_view(), columns.deep_view());
    let n: usize = if values.len() < columns.len() {
        values.len()
    } else {
        columns.len()
    };
    let mut cells: Vec<(u8, BinaryValue)> = Vec::new();
    for i in 0..n
        invariant
            n <= values@.len(),
            n <= columns@.len(),
            n == expected.len(),
            expected == cells_for(values.deep_view(), columns.deep_view()),
            cells@.len() == i,
            forall|j: int|
                0 <= j < i ==> ((#[trigger] cells@[j]).0, cells@[j].1@) == expected[j],
    {
        assert(values.deep_view()[i as int] == values@[i as int]@);
        assert(columns.deep_view()[i as int] == columns@[i as int]@);
        let code: u8 = columns[i].column_type;
        cells.push((code, types::value_to_binary(&values[i], code)));
    }
    assert(stmt::cell_views(cells@) =~= expected);
    cells
}

/// Every cell of a row has a form that its column can carry.
pub open spec fn carried(cells: Seq<(u8, BinaryView)>) -> bool {
    forall|i: int|
        0 <= i < cells.len() ==> stmt::float_form((#[trigger] cells[i]).0, cells[i].1)
}

/// The payloads of binary rows.
pub open spec fn binary_rows(rows: Seq<Seq<(u8, BinaryView)>>) -> Seq<Seq<u8>> {
    Seq::new(rows.len(), |i: int| stmt::binary_row(rows[i]))
}

/// The model of binary rows.
pub open spec fn cell_rows(rows: Seq<Vec<(u8, BinaryValue)>>) -> Seq<Seq<(u8, BinaryView)>> {
    Seq::new(rows.len(), |i: int| stmt::cell_views(rows[i]@))
}

/// Every cell of every row has a form that its column can carry.
pub open spec fn all_carried(rows: Seq<Seq<(u8, BinaryView)>>) -> bool {
    forall|i: int| 0 <= i < rows.len() ==> carried(#[trigger] rows[i])
}

/// Whether every cell of every row has a form that its column can carry.
pub fn can_carry(rows: &Vec<Vec<(u8, BinaryValue)>>) -> (r: bool)
    ensures
        r == all_carried(cell_rows(rows@)),
{
    for i in 0..rows.len()
        invariant
            forall|k: int| 0 <= k < i ==> carried(#[trigger] cell_rows(rows@)[k]),
    {
        let row = &rows[i];
        let ghost views = stmt::cell_views(row@);
        assert(cell_rows(rows@)[i as int] == views);
        let n: usize = row.len();
        for j in 0..n
            invariant
                i < rows@.len(),
                n == row@.len(),
                views == stmt::cell_views(row@),
                cell_rows(rows@)[i as int] == views,
                forall|k: int| 0 <= k < j ==> stmt::float_form((#[trigger] views[k]).0, views[k].1),
        {
            assert(views[j as int] == (row@[j as int].0, row@[j as int].1@));
            if !stmt::has_float_form(row[j].0, &row[j].1) {
                assert(!carried(views));
                return false;
            }
        }
        assert(carried(views));
    }
    true
}

/// The reply with the rows of a prepared statement.
pub open spec fn binary_reply(
    seq: u8,
    columns: Seq<DefinitionView>,
    rows: Seq<Seq<(u8, BinaryView)>>,
) -> Seq<u8> {
    framed(seq, result_set(columns, binary_rows(rows)))
}

/// Frames the rows of a prepared statement.
pub fn encode_binary_result_set(
    first_seq: u8,
    columns: &Vec<ColumnDefinition>,
    rows: &Vec<Vec<(u8, BinaryValue)>>,
) -> (r: Vec<u8>)
    requires
        all_carried(cell_rows(rows@)),
    ensures
        r@ == binary_reply(first_seq, columns.deep_view(), cell_rows(rows@)),
{
    let mut payloads: Vec<Vec<u8>> = Vec::new();
    for i in 0..rows.len()
        invariant
            forall|j: int|
                0 <= j < cell_rows(rows@).len() ==> carried(#[trigger] cell_rows(rows@)[j]),
            payloads@.len() == i,
            forall|j: int|
                0 <= j < i ==> (#[trigger] payloads@[j])@ == stmt::binary_row(
                    stmt::cell_views(rows@[j]@),
                ),
    {
        assert(cell_rows(rows@)[i as int] == stmt::cell_views(rows@[i as int]@));
        assert(carried(stmt::cell_views(rows@[i as int]@)));
        assert forall|j: int| 0 <= j < rows@[i as int]@.len() implies stmt::float_form(
            (#[trigger] rows@[i as int]@[j]).0,
            rows@[i as int]@[j].1@,
        ) by {
            let cell = stmt::cell_views(rows@[i as int]@)[j];
            assert(stmt::float_form(cell.0, cell.1));
        }
        payloads.push(stmt::encode_binary_row(rows[i].as_slice()));
    }
    assert(payloads_of(payloads@) =~= binary_rows(cell_rows(rows@)));
    encode_set(first_seq, columns, payloads)
}

/// The definitions that stand for `n` parameters.
pub open spec fn parameter_payloads(n: nat) -> Seq<Seq<u8>> {
    Seq::new(n, |i: int| resultset::definition_payload(resultset::text_definition("?"@)))
}

/// The packets that answer a preparation: the header, the parameters and the
/// columns, each list with its end mark, unless it is empty. The header holds the
/// low 16 bits of the counts.
pub open spec fn prepared_packets(id: u32, params: nat, columns: Seq<DefinitionView>) -> Seq<
    Seq<u8>,
> {
    seq![
        stmt::prepare_ok_payload(
            id,
            (columns.len() % 0x10000) as u16,
            (params % 0x10000) as u16,
            0,
        ),
    ] + (if params > 0 {
        parameter_payloads(params) + seq![end_payload()]
    } else {
        seq![]
    }) + (if columns.len() > 0 {
        definition_payloads(columns) + seq![end_payload()]
    } else {
        seq![]
    })
}

/// Frames the answer to a preparation.
pub fn encode_prepared(
    first_seq: u8,
    id: u32,
    num_params: usize,
    columns: &Vec<ColumnDefinition>,
) -> (r: Vec<u8>)
    ensures
        r@ == framed(first_seq, prepared_packets(id, num_params as nat, columns.deep_view())),
{
    let ghost views = columns.deep_view();
    assert(views.len() == columns@.len());
    let ok = StmtPrepareOk {
        statement_id: id,
        num_columns: (columns.len() % 0x10000) as u16,
        num_params: (num_params % 0x10000) as u16,
        warning_count: 0,
    };
    let mut out: Vec<Vec<u8>> = Vec::new();
    let header = ok.encode();
    out.push(header);
    let ghost head = payloads_of(out@);
    assert(head =~= seq![header@]);
    let ghost all = parameter_payloads(num_params as nat);
    if num_params > 0 {
        assert(head + all.take(0) =~= head);
        for i in 0..num_params
            invariant
                all == parameter_payloads(num_params as nat),
                payloads_of(out@) == head + all.take(i as int),
        {
            let payload = ColumnDefinition::text("?").encode();
            let ghost before = payloads_of(out@);
            out.push(payload);
            assert(payloads_of(out@) =~= before.push(payload@));
            assert(head + all.take(i + 1) =~= (head + all.take(i as int)).push(all[i as int]));
        }
        assert(all.take(all.len() as int) =~= all);
        push_end(&mut out);
    }
    let ghost middle = payloads_of(out@);
    assert(middle =~= head + (if num_params > 0 {
        all + seq![end_payload()]
    } else {
        seq![]
    }));
    if columns.len() > 0 {
        push_definitions(&mut out, columns);
        push_end(&mut out);
    }
    assert(payloads_of(out@) =~= prepared_packets(id, num_params as nat, views));
    encode_packets(first_seq, &out)
}

// ---------------------------------------------------------------------------
// Laws
// ---------------------------------------------------------------------------
/// The bytes that end a list of columns and a list of rows: an EOF packet without
/// warnings, and with the flag that every statement is its own transaction.
pub proof fn end_marks_are_eof()
    ensures
        end_payload() == seq![0xfeu8, 0u8, 0u8, 2u8, 0u8],
{
    packet::le_unfolds(0);
    packet::le_unfolds(2);
    assert(end_payload() =~= seq![0xfeu8, 0u8, 0u8, 2u8, 0u8]);
}

/// The packets of a result set stand in this order: the number of columns, each
/// column's definition, an end mark, each row, and an end mark.
pub proof fn result_set_layout(columns: Seq<DefinitionView>, rows: Seq<Seq<u8>>)
    ensures
        ({
            let p = result_set(columns, rows);
            let n = columns.len() as int;
            &&& p.len() == n + rows.len() + 3
            &&& p[0] == packet::lenenc(columns.len())
            &&& forall|i: int|
                0 <= i < n ==> #[trigger] p[1 + i] == resultset::definition_payload(columns[i])
            &&& p[n + 1] == seq![0xfeu8, 0u8, 0u8, 2u8, 0u8]
            &&& forall|i: int| 0 <= i < rows.len() ==> #[trigger] p[n + 2 + i] == rows[i]
            &&& p[n + 2 + rows.len()] == seq![0xfeu8, 0u8, 0u8, 2u8, 0u8]
        }),
{
    end_marks_are_eof();
    let p = result_set(columns, rows);
    let n = columns.len() as int;
    assert forall|i: int| 0 <= i < n implies #[trigger] p[1 + i] == resultset::definition_payload(
        columns[i],
    ) by {
        assert(definition_payloads(columns)[i] == resultset::definition_payload(columns[i]));
    }
}

/// The packets that answer a preparation stand in this order: the header; a definition
/// for each parameter and an end mark, if there are parameters; and a definition for
/// each column and an end mark, if there are columns.
pub proof fn prepared_layout(id: u32, params: nat, columns: Seq<DefinitionView>)
    ensures
        ({
            let p = prepared_packets(id, params, columns);
            let front = if params > 0 {
                params as int + 1
            } else {
                0int
            };
            let n = columns.len() as int;
            &&& p.len() == 1 + front + if n > 0 {
                n + 1
            } else {
                0
            }
            &&& params < 0x10000 && n < 0x10000 ==> p[0] == stmt::prepare_ok_payload(
                id,
                n as u16,
                params as u16,
                0,
            )
            &&& forall|i: int|
                0 <= i < params ==> #[trigger] p[1 + i] == resultset::definition_payload(
                    resultset::text_definition("?"@),
                )
            &&& params > 0 ==> p[params as int + 1] == seq![0xfeu8, 0u8, 0u8, 2u8, 0u8]
            &&& forall|i: int|
                0 <= i < n ==> #[trigger] p[1 + front + i] == resultset::definition_payload(
                    columns[i],
                )
            &&& n > 0 ==> p[1 + front + n] == seq![0xfeu8, 0u8, 0u8, 2u8, 0u8]
        }),
{
    end_marks_are_eof();
    let p = prepared_packets(id, params, columns);
    let n = columns.len() as int;
    let front = if params > 0 {
        params as int + 1
    } else {
        0int
    };
    let first = if params > 0 {
        parameter_payloads(params) + seq![end_payload()]
    } else {
        seq![]
    };
    assert(first.len() == front);
    assert forall|i: int| 0 <= i < params implies #[trigger] p[1 + i]
        == resultset::definition_payload(resultset::text_definition("?"@)) by {
        assert(p[1 + i] == first[i]);
        assert(first[i] == parameter_payloads(params)[i]);
    }
    if params > 0 {
        assert(p[params as int + 1] == first[params as int]);
    }
    assert forall|i: int| 0 <= i < n implies #[trigger] p[1 + front + i]
        == resultset::definition_payload(columns[i]) by {
        assert(p[1 + front + i] == definition_payloads(columns)[i]);
    }
}

/// A client reads a row of text as it was given: NULL as NULL, and any other cell as
/// the bytes of its text.
pub proof fn text_cells_are_read(cells: Seq<Option<Seq<char>>>, i: int)
    requires
        0 <= i < cells.len(),
        cells[i] matches Some(s) ==> utf8::encode_utf8(s).len() <= usize::MAX,
    ensures
        ({
            let bytes = Seq::new(cells.len(), |k: int| text_bytes(cells[k]));
            let at = resultset::cell_offset(bytes, i);
            match cells[i] {
                None => string_row(cells)[at] == 0xfb,
                Some(s) => packet::read_lenenc_bytes(string_row(cells), at) == packet::Parse::Got(
                    utf8::encode_utf8(s),
                    resultset::cell_offset(bytes, i + 1),
                ) && string_row(cells)[at] != 0xfb,
            }
        }),
{
    let bytes = Seq::new(cells.len(), |k: int| text_bytes(cells[k]));
    assert(bytes[i] == text_bytes(cells[i]));
    resultset::text_row_reads_back(bytes, i);
}

/// A client reads the values of a query: NULL as NULL, bytes as they are, and anything
/// else as the bytes of its text.
pub proof fn query_values_are_read(values: Seq<ValueView>, i: int)
    requires
        0 <= i < values.len(),
        value::row_bytes(values[i]) matches Some(b) ==> b.len() <= usize::MAX,
    ensures
        ({
            let cells = Seq::new(values.len(), |k: int| value::row_bytes(values[k]));
            let at = resultset::cell_offset(cells, i);
            let next = resultset::cell_offset(cells, i + 1);
            match values[i] {
                ValueView::Null => value_row(values)[at] == 0xfb && next == at + 1,
                ValueView::Blob(b) => packet::read_lenenc_bytes(value_row(values), at)
                    == packet::Parse::Got(b, next),
                v => packet::read_lenenc_bytes(value_row(values), at) == packet::Parse::Got(
                    utf8::encode_utf8(value::text_of(v)->0),
                    next,
                ),
            }
        }),
{
    let cells = Seq::new(values.len(), |k: int| value::row_bytes(values[k]));
    assert(cells[i] == value::row_bytes(values[i]));
    value::only_null_is_null(values[i]);
    if !(values[i] is Null) {
        value::cell_holds_the_text(values[i]);
    }
    resultset::text_row_reads_back(cells, i);
}

/// The reply to a statement that changed rows tells how many and the id of the last
/// one; a negative number is told as zero.
pub proof fn changes_are_told(seq: u8, changes: i64, id: i64)
    ensures
        ({
            let b = changed_reply(seq, changes as int, id as int);
            let rows: nat = if changes > 0 {
                changes as nat
            } else {
                0
            };
            let last: nat = if id > 0 {
                id as nat
            } else {
                0
            };
            &&& b[3] == seq
            &&& frame::packet_at(b, 0) matches Some((p, end)) && {
                &&& end == b.len()
                &&& p[0] == 0x00
                &&& packet::read_lenenc(p, 1) == packet::Parse::Got(
                    rows,
                    1 + packet::lenenc(rows).len() as int,
                )
                &&& packet::read_lenenc(p, 1 + packet::lenenc(rows).len() as int)
                    == packet::Parse::Got(last, p.len() - 4)
            }
        }),
        ok_reply(seq) == changed_reply(seq, 0, 0),
{
    let rows: nat = if changes > 0 {
        changes as nat
    } else {
        0
    };
    let last: nat = if id > 0 {
        id as nat
    } else {
        0
    };
    let p = response::plain_ok(rows, last);
    response::plain_ok_reports_autocommit(rows as u64, last as u64);
    frame::frames_roundtrip(seq, p, seq![]);
    assert(frame::frames(seq, p) + Seq::<u8>::empty() =~= frame::frames(seq, p));
}

/// A binary row has a cell for each column that has a value, with the column's type.
pub proof fn cells_have_column_types(values: Seq<ValueView>, columns: Seq<DefinitionView>, i: int)
    requires
        0 <= i < values.len(),
        values.len() == columns.len(),
    ensures
        cells_for(values, columns).len() == columns.len(),
        cells_for(values, columns)[i].0 == columns[i].column_type,
        cells_for(values, columns)[i].1 == types::binary_of(values[i], columns[i].column_type),
{
}

/// Text columns have the names that are given, in their order, and are text.
pub proof fn text_columns_keep_names(names: Seq<Seq<char>>, i: int)
    requires
        0 <= i < names.len(),
    ensures
        text_columns(names).len() == names.len(),
        text_columns(names)[i].name == names[i],
        text_columns(names)[i].column_type == 0xfd,
{
}

/// Sequence ids go on from packet to packet: one that fits in a frame moves the id on
/// by one.
pub proof fn packets_are_numbered(seq: u8, payloads: Seq<Seq<u8>>, payload: Seq<u8>)
    ensures
        seq_behind(seq, Seq::<Seq<u8>>::empty()) == seq,
        payload.len() < 16777215 ==> seq_behind(seq, payloads.push(payload)) as int == (seq_behind(
            seq,
            payloads,
        ) + 1) % 256,
{
    assert(payloads.push(payload).drop_last() =~= payloads);
}

} // verus!
