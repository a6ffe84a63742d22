//! The decisions of a connection: what each command does to the session, what is
//! asked of the engine, and what is replied.
//!
//! The engine and the socket are outside. A function here takes the state of the
//! session and what has just happened, and says what is to be done next; whoever
//! runs the connection does it and comes back with the outcome.

use vstd::prelude::*;

use crate::numeric;
use crate::parser::error::{ParseError, ParseErrorView};
use crate::parser::variables::SERVER_VERSION;
use crate::protocol::command;
use crate::protocol::command::{Command, CommandView};
use crate::protocol::constants::{collation, status, DEFAULT_AUTH_PLUGIN};
use crate::protocol::error;
use crate::protocol::error::{ErrorView, ProtocolError};
use crate::protocol::frame;
use crate::protocol::frame::Packet;
use crate::protocol::handshake;
use crate::protocol::handshake::{HandshakeResponse41, HandshakeV10, ResponseView};
use crate::protocol::resultset::{ColumnDefinition, DefinitionView};
use crate::protocol::stmt;
use crate::protocol::stmt::{BinaryValue, BinaryView, StmtExecute};
use crate::server::catalog::{OutcomeView, ShowOutcome};
use crate::server::errors;
use crate::server::errors::{Failure, FailureView};
use crate::server::probe;
use crate::server::reply;
use crate::server::request;
use crate::server::request::{RequestView, ShowRequest};
use crate::server::session;
use crate::server::session::{SessionResponse, SessionView};
use crate::server::statements::{Prepared, StatementStore};
use crate::server::types;
use crate::server::types::{BoundValue, BoundView, ColumnMeta};
use crate::server::value::{Value, ValueView};
use crate::text;

verus! {

// ---------------------------------------------------------------------------
// The session
// ---------------------------------------------------------------------------
/// What a connection remembers between statements.
#[derive(Debug, PartialEq, Eq)]
pub struct Session {
    /// The number of rows that the last `SQL_CALC_FOUND_ROWS` query had without its
    /// limit.
    pub found_rows: u64,
    /// The number of rows that the last statement changed; -1 if it gave rows, or
    /// failed, or if there was none.
    pub last_row_count: i64,
    /// The mode that the client has set.
    pub sql_mode: String,
    /// The current database, which `DATABASE()` and `SCHEMA()` report.
    pub current_db: Option<String>,
}

/// The model of a [`Session`].
pub struct StateView {
    pub found_rows: u64,
    pub last_row_count: int,
    pub sql_mode: Seq<char>,
    pub current_db: Option<Seq<char>>,
}

impl View for Session {
    type V = StateView;

    open spec fn view(&self) -> StateView {
        StateView {
            found_rows: self.found_rows,
            last_row_count: self.last_row_count as int,
            sql_mode: self.sql_mode@,
            current_db: self.current_db.deep_view(),
        }
    }
}

/// The session at the start of a connection.
pub open spec fn fresh(current_db: Option<Seq<char>>) -> StateView {
    StateView { found_rows: 0, last_row_count: -1, sql_mode: seq![], current_db }
}

impl Session {
    /// Starts a session in the given database.
    pub fn new(current_db: Option<String>) -> (r: Self)
        ensures
            r@ == fresh(current_db.deep_view()),
    {
        let sql_mode = String::new();
        assert(sql_mode@ =~= seq![]);
        Session { found_rows: 0, last_row_count: -1, sql_mode, current_db }
    }
}

// ---------------------------------------------------------------------------
// The handshake
// ---------------------------------------------------------------------------
/// The scramble of a connection.
pub open spec fn scramble(connection_id: u32) -> Seq<u8> {
    Seq::new(20, |i: int| ((connection_id + i + 1) % 256) as u8 | 1u8)
}

/// Gives the scramble of a connection. Passwords are not checked, so it need only
/// be well-formed.
pub fn scramble_for(connection_id: u32) -> (r: [u8; 20])
    ensures
        r@ == scramble(connection_id),
{
    let mut bytes: [u8; 20] = [0u8;20];
    let low: u32 = connection_id % 256;
    for i in 0..20usize
        invariant
            low == connection_id % 256,
            forall|j: int| 0 <= j < i ==> #[trigger] bytes@[j] == scramble(connection_id)[j],
    {
        let b: u8 = ((low + i as u32 + 1) % 256) as u8;
        assert((connection_id + i + 1) % 256 == (low + i + 1) % 256);
        bytes[i] = b | 1u8;
    }
    assert(bytes@ =~= scramble(connection_id));
    bytes
}

/// No byte of a scramble is zero, which would end it early on the wire.
pub proof fn scramble_has_no_zero(connection_id: u32, i: int)
    requires
        0 <= i < 20,
    ensures
        scramble(connection_id)[i] != 0,
{
    let b: u8 = ((connection_id + i + 1) % 256) as u8;
    assert(b | 1u8 != 0) by (bit_vector);
}

/// The greeting of a connection.
pub open spec fn greeting_payload(connection_id: u32) -> Seq<u8> {
    handshake::greeting(
        SERVER_VERSION@,
        connection_id,
        scramble(connection_id),
        handshake::server_capabilities(),
        collation::UTF8MB4_GENERAL_CI,
        status::SERVER_STATUS_AUTOCOMMIT,
        DEFAULT_AUTH_PLUGIN@,
    )
}

/// Frames the greeting of a connection.
pub fn greet(connection_id: u32) -> (r: Vec<u8>)
    ensures
        r@ == frame::frames(0, greeting_payload(connection_id)),
{
    let greeting = HandshakeV10::new(SERVER_VERSION, connection_id, scramble_for(connection_id));
    reply::encode_packet(0, &greeting.encode())
}

/// Answers the client's handshake: the reply, and the session that it starts. Any
/// login is accepted.
pub fn accept(packet: &Packet) -> (r: Result<(Vec<u8>, Session), ProtocolError>)
    ensures
        match r {
            Ok((bytes, session)) => {
                &&& handshake::response_in(packet.payload@) matches Ok(response) && session@
                    == fresh(response.database)
                &&& bytes@ == reply::ok_reply(frame::next_id(packet.seq))
            },
            Err(e) => handshake::response_in(packet.payload@) == Err::<ResponseView, ErrorView>(
                e@,
            ),
        },
{
    let response = HandshakeResponse41::decode(packet.payload.as_slice())?;
    let seq: u8 = packet.seq.wrapping_add(1);
    Ok((reply::encode_ok(seq), Session::new(response.database)))
}

// ---------------------------------------------------------------------------
// Commands
// ---------------------------------------------------------------------------
/// What a command asks for.
#[derive(Debug, PartialEq, Eq)]
pub enum CommandAction {
    /// Close the connection.
    Close,
    /// Send these bytes.
    Reply(Vec<u8>),
    /// Run a statement.
    Query(String),
    /// Prepare a statement.
    Prepare(String),
    /// Run a prepared statement.
    Execute(StmtExecute),
    /// Reset a prepared statement.
    Reset(u32),
    /// Drop a prepared statement, without a reply.
    Forget(u32),
}

/// The model of a [`CommandAction`].
pub enum CommandActionView {
    Close,
    Reply(Seq<u8>),
    Query(Seq<char>),
    Prepare(Seq<char>),
    Execute { statement_id: u32, flags: u8, params_tail: Seq<u8> },
    Reset(u32),
    Forget(u32),
}

impl View for CommandAction {
    type V = CommandActionView;

    open spec fn view(&self) -> CommandActionView {
        match *self {
            CommandAction::Close => CommandActionView::Close,
            CommandAction::Reply(bytes) => CommandActionView::Reply(bytes@),
            CommandAction::Query(sql) => CommandActionView::Query(sql@),
            CommandAction::Prepare(sql) => CommandActionView::Prepare(sql@),
            CommandAction::Execute(e) => CommandActionView::Execute {
                statement_id: e.statement_id,
                flags: e.flags,
                params_tail: e.params_tail@,
            },
            CommandAction::Reset(id) => CommandActionView::Reset(id),
            CommandAction::Forget(id) => CommandActionView::Forget(id),
        }
    }
}

/// What a command asks for, in replies numbered from `seq` on.
pub open spec fn command_action(c: CommandView, seq: u8) -> CommandActionView {
    match c {
        CommandView::Quit => CommandActionView::Close,
        CommandView::Ping => CommandActionView::Reply(reply::ok_reply(seq)),
        CommandView::InitDb(_) => CommandActionView::Reply(reply::ok_reply(seq)),
        CommandView::Query(sql) => CommandActionView::Query(sql),
        CommandView::StmtPrepare(sql) => CommandActionView::Prepare(sql),
        CommandView::StmtExecute { statement_id, flags, params_tail } => {
            CommandActionView::Execute { statement_id, flags, params_tail }
        },
        CommandView::StmtReset(id) => CommandActionView::Reset(id),
        CommandView::StmtClose(id) => CommandActionView::Forget(id),
        CommandView::Unsupported(byte) => CommandActionView::Reply(
            errors::general_error_reply(seq, "unsupported command: "@ + byte.name_spec()),
        ),
        CommandView::Unknown(byte) => CommandActionView::Reply(
            errors::general_error_reply(
                seq,
                "unknown command byte 0x"@ + error::hex_byte_spec(byte),
            ),
        ),
    }
}

/// The session after a command has arrived: a switch of the database is remembered.
pub open spec fn session_after(s: StateView, c: CommandView) -> StateView {
    match c {
        CommandView::InitDb(db) => StateView { current_db: Some(db), ..s },
        _ => s,
    }
}

/// Decides on a command packet, and gives the sequence id for the replies to it. A
/// packet that cannot be read changes nothing.
pub fn dispatch(session: &mut Session, packet: &Packet) -> (r: Result<
    (u8, CommandAction),
    ProtocolError,
>)
    ensures
        match r {
            Ok((seq, action)) => {
                &&& seq == frame::next_id(packet.seq)
                &&& command::command_in(packet.payload@) matches Ok(c) && action@
                    == command_action(c, seq) && final(session)@ == session_after(
                    old(session)@,
                    c,
                )
            },
            Err(e) => {
                &&& command::command_in(packet.payload@) == Err::<CommandView, ErrorView>(e@)
                &&& final(session)@ == old(session)@
            },
        },
{
    let command = Command::decode(packet.payload.as_slice())?;
    let seq: u8 = packet.seq.wrapping_add(1);
    let action = match command {
        Command::Quit => CommandAction::Close,
        Command::Ping => CommandAction::Reply(reply::encode_ok(seq)),
        Command::InitDb(db) => {
            session.current_db = Some(db);
            CommandAction::Reply(reply::encode_ok(seq))
        },
        Command::Query(sql) => CommandAction::Query(sql),
        Command::StmtPrepare(sql) => CommandAction::Prepare(sql),
        Command::StmtExecute(exec) => CommandAction::Execute(exec),
        Command::StmtReset(id) => CommandAction::Reset(id),
        Command::StmtClose(id) => CommandAction::Forget(id),
        Command::Unsupported(byte) => {
            let mut message = text::chars_of("unsupported command: ");
            text::push_text(&mut message, byte.name());
            CommandAction::Reply(
                errors::general_error_response(seq, text::string_of(&message).as_str()),
            )
        },
        Command::Unknown(byte) => {
            let mut message = text::chars_of("unknown command byte 0x");
            error::push_hex_byte(&mut message, byte);
            CommandAction::Reply(
                errors::general_error_response(seq, text::string_of(&message).as_str()),
            )
        },
    };
    Ok((seq, action))
}

// ---------------------------------------------------------------------------
// Statements
// ---------------------------------------------------------------------------
/// What a statement asks for before it is parsed.
#[derive(Debug, PartialEq, Eq)]
pub enum QueryAction {
    /// Send these bytes.
    Reply(Vec<u8>),
    /// Answer from the catalogue.
    Show(ShowRequest),
    /// Parse the statement.
    Parse,
}

/// The model of a [`QueryAction`].
pub enum QueryView {
    Reply(Seq<u8>),
    Show(RequestView),
    Parse,
}

impl DeepView for QueryAction {
    type V = QueryView;

    open spec fn deep_view(&self) -> QueryView {
        match *self {
            QueryAction::Reply(bytes) => QueryView::Reply(bytes@),
            QueryAction::Show(show) => QueryView::Show(show.deep_view()),
            QueryAction::Parse => QueryView::Parse,
        }
    }
}

/// The reply of one value under one header.
pub open spec fn single(seq: u8, header: Seq<char>, value: Seq<char>) -> Seq<u8> {
    reply::session_reply(
        seq,
        SessionView::Row { columns: seq![header], values: seq![Some(value)] },
    )
}

fn encode_single(seq: u8, header: &str, value: String) -> (r: Vec<u8>)
    ensures
        r@ == single(seq, header@, value@),
{
    let columns = vec![header.to_string()];
    assert(columns.deep_view() =~= seq![header@]);
    let values = vec![Some(value)];
    assert(values.deep_view() =~= seq![Some(value@)]);
    reply::encode_session_response(seq, SessionResponse::Row { columns, values })
}

/// What a statement does to the session, and asks for, before it is parsed.
/// Whatever it is, the count of changed rows is reset: to zero if it is answered
/// without rows, and to -1 otherwise.
pub open spec fn query_step(s: StateView, sql: Seq<char>, seq: u8) -> (StateView, QueryView) {
    let t = StateView { last_row_count: -1, ..s };
    if probe::asks_row_count(sql) {
        (
            t,
            QueryView::Reply(
                single(seq, "ROW_COUNT()"@, numeric::signed_decimal(s.last_row_count)),
            ),
        )
    } else if probe::asks_found_rows(sql) {
        (
            t,
            QueryView::Reply(single(seq, "FOUND_ROWS()"@, numeric::decimal(s.found_rows as nat))),
        )
    } else if probe::sql_mode_set(sql) is Some {
        (
            StateView { sql_mode: probe::sql_mode_set(sql)->0, last_row_count: 0, ..s },
            QueryView::Reply(reply::ok_reply(seq)),
        )
    } else if probe::asks_sql_mode(sql) {
        (t, QueryView::Reply(single(seq, "@@SESSION.sql_mode"@, s.sql_mode)))
    } else if session::session_response(sql, s.current_db) is Some {
        let response = session::session_response(sql, s.current_db)->0;
        (
            if response is OkReply {
                StateView { last_row_count: 0, ..s }
            } else {
                t
            },
            QueryView::Reply(reply::session_reply(seq, response)),
        )
    } else {
        match request::request(sql) {
            Some(RequestView::Answer(result)) => (
                t,
                QueryView::Reply(reply::columns_reply(seq, result)),
            ),
            Some(show) => (t, QueryView::Show(show)),
            None => (t, QueryView::Parse),
        }
    }
}

/// Decides on a statement before it is parsed.
pub fn start_query(session: &mut Session, sql: &str, first_seq: u8) -> (r: QueryAction)
    ensures
        (final(session)@, r.deep_view()) == query_step(old(session)@, sql@, first_seq),
{
    if probe::is_row_count_query(sql) {
        let mut value: Vec<char> = Vec::new();
        numeric::push_signed(&mut value, session.last_row_count);
        assert(value@ =~= numeric::signed_decimal(session.last_row_count as int));
        session.last_row_count = -1;
        return QueryAction::Reply(
            encode_single(first_seq, "ROW_COUNT()", text::string_of(&value)),
        );
    }
    session.last_row_count = -1;
    if probe::is_found_rows_query(sql) {
        let mut value: Vec<char> = Vec::new();
        numeric::push_decimal(&mut value, session.found_rows);
        assert(value@ =~= numeric::decimal(session.found_rows as nat));
        return QueryAction::Reply(
            encode_single(first_seq, "FOUND_ROWS()", text::string_of(&value)),
        );
    }
    if let Some(mode) = probe::parse_set_sql_mode(sql) {
        session.sql_mode = mode;
        session.last_row_count = 0;
        return QueryAction::Reply(reply::encode_ok(first_seq));
    }
    if probe::is_select_sql_mode(sql) {
        return QueryAction::Reply(
            encode_single(first_seq, "@@SESSION.sql_mode", session.sql_mode.clone()),
        );
    }
    let current_db = match &session.current_db {
        Some(db) => Some(db.as_str()),
        None => None,
    };
    if let Some(response) = session::try_handle_in_db(sql, current_db) {
        if let SessionResponse::OkReply = response {
            session.last_row_count = 0;
        }
        return QueryAction::Reply(reply::encode_session_response(first_seq, response));
    }
    match request::try_handle(sql) {
        Some(ShowRequest::Answer(result)) => QueryAction::Reply(
            reply::encode_columns_result(first_seq, result),
        ),
        Some(show) => QueryAction::Show(show),
        None => QueryAction::Parse,
    }
}

/// The reply to a statement that was answered from the catalogue.
pub open spec fn shown_reply(seq: u8, outcome: Result<OutcomeView, FailureView>) -> Seq<u8> {
    match outcome {
        Ok(OutcomeView::Columns(result)) => reply::columns_reply(seq, result),
        Ok(OutcomeView::NoSuchTable(table)) => errors::no_such_table_reply(seq, table),
        Err(f) => errors::error_reply(seq, f),
    }
}

/// Frames the answer from the catalogue.
pub fn finish_show(first_seq: u8, outcome: Result<ShowOutcome, Failure>) -> (r: Vec<u8>)
    ensures
        r@ == shown_reply(
            first_seq,
            match outcome {
                Ok(o) => Ok(o.deep_view()),
                Err(f) => Err(f@),
            },
        ),
{
    match outcome {
        Ok(ShowOutcome::Columns(result)) => reply::encode_columns_result(first_seq, result),
        Ok(ShowOutcome::NoSuchTable(table)) => errors::no_such_table_response(
            first_seq,
            table.as_str(),
        ),
        Err(f) => errors::error_response(first_seq, &f),
    }
}

/// A parsed statement, as far as it matters how it is run.
#[derive(Debug, PartialEq, Eq)]
pub enum StatementKind {
    Select,
    Insert,
    Update,
    Delete,
    Commit,
    Rollback,
    Begin,
    /// `ALTER TABLE table DROP COLUMN column`.
    DropColumn { table: String, column: String },
    Other,
}

/// The model of a [`StatementKind`].
pub enum KindView {
    Select,
    Insert,
    Update,
    Delete,
    Commit,
    Rollback,
    Begin,
    DropColumn { table: Seq<char>, column: Seq<char> },
    Other,
}

impl DeepView for StatementKind {
    type V = KindView;

    open spec fn deep_view(&self) -> KindView {
        match *self {
            StatementKind::Select => KindView::Select,
            StatementKind::Insert => KindView::Insert,
            StatementKind::Update => KindView::Update,
            StatementKind::Delete => KindView::Delete,
            StatementKind::Commit => KindView::Commit,
            StatementKind::Rollback => KindView::Rollback,
            StatementKind::Begin => KindView::Begin,
            StatementKind::DropColumn { table, column } => KindView::DropColumn {
                table: table@,
                column: column@,
            },
            StatementKind::Other => KindView::Other,
        }
    }
}

/// The statement changes rows.
pub open spec fn changes_rows(kind: KindView) -> bool {
    kind is Insert || kind is Update || kind is Delete
}

/// What is to be done with a parsed statement.
#[derive(Debug, PartialEq, Eq)]
pub enum RunAction {
    /// Send these bytes.
    Reply(Vec<u8>),
    /// Run all statements for their effects.
    RunAll,
    /// Run the statement without its limit, and count the rows.
    CountRows,
    /// Commit, and then run the statement.
    CommitAndRun,
    /// Take the column out of the indexes, and then run the statement.
    AdjustAndRun { table: String, column: String },
    /// Run the statement.
    Run,
}

/// The model of a [`RunAction`].
pub enum RunView {
    Reply(Seq<u8>),
    RunAll,
    CountRows,
    CommitAndRun,
    AdjustAndRun { table: Seq<char>, column: Seq<char> },
    Run,
}

impl DeepView for RunAction {
    type V = RunView;

    open spec fn deep_view(&self) -> RunView {
        match *self {
            RunAction::Reply(bytes) => RunView::Reply(bytes@),
            RunAction::RunAll => RunView::RunAll,
            RunAction::CountRows => RunView::CountRows,
            RunAction::CommitAndRun => RunView::CommitAndRun,
            RunAction::AdjustAndRun { table, column } => RunView::AdjustAndRun {
                table: table@,
                column: column@,
            },
            RunAction::Run => RunView::Run,
        }
    }
}

/// How a single statement is run. Without a transaction, a commit or a rollback
/// does nothing; within one, a begin commits it first.
pub open spec fn run_step(s: StateView, seq: u8, kind: KindView, autocommit: bool) -> (
    StateView,
    RunView,
) {
    match kind {
        KindView::Commit | KindView::Rollback => if autocommit {
            (StateView { last_row_count: 0, ..s }, RunView::Reply(reply::ok_reply(seq)))
        } else {
            (s, RunView::Run)
        },
        KindView::Begin => if autocommit {
            (s, RunView::Run)
        } else {
            (s, RunView::CommitAndRun)
        },
        KindView::DropColumn { table, column } => (s, RunView::AdjustAndRun { table, column }),
        _ => (s, RunView::Run),
    }
}

/// Decides how a single statement is run; `autocommit` says that no transaction is
/// open.
pub fn start_statement(
    session: &mut Session,
    first_seq: u8,
    kind: &StatementKind,
    autocommit: bool,
) -> (r: RunAction)
    ensures
        (final(session)@, r.deep_view()) == run_step(
            old(session)@,
            first_seq,
            kind.deep_view(),
            autocommit,
        ),
{
    match kind {
        StatementKind::Commit | StatementKind::Rollback => if autocommit {
            session.last_row_count = 0;
            RunAction::Reply(reply::encode_ok(first_seq))
        } else {
            RunAction::Run
        },
        StatementKind::Begin => if autocommit {
            RunAction::Run
        } else {
            RunAction::CommitAndRun
        },
        StatementKind::DropColumn { table, column } => RunAction::AdjustAndRun {
            table: table.clone(),
            column: column.clone(),
        },
        _ => RunAction::Run,
    }
}

/// What is to be done with what the parser gave. It gives several statements only
/// where one text drops several tables.
pub open spec fn parsed_step(
    s: StateView,
    sql: Seq<char>,
    seq: u8,
    parsed: Result<Seq<KindView>, ParseErrorView>,
    autocommit: bool,
) -> (StateView, RunView) {
    match parsed {
        Err(e) => (s, RunView::Reply(errors::parse_error_reply(seq, e))),
        Ok(kinds) => if kinds.len() != 1 {
            (s, RunView::RunAll)
        } else if probe::calculates_found_rows(sql) && kinds[0] is Select {
            (s, RunView::CountRows)
        } else {
            run_step(s, seq, kinds[0], autocommit)
        },
    }
}

/// Decides what is to be done with what the parser gave.
pub fn after_parse(
    session: &mut Session,
    sql: &str,
    first_seq: u8,
    parsed: &Result<Vec<StatementKind>, ParseError>,
    autocommit: bool,
) -> (r: RunAction)
    ensures
        (final(session)@, r.deep_view()) == parsed_step(
            old(session)@,
            sql@,
            first_seq,
            match *parsed {
                Ok(kinds) => Ok(kinds.deep_view()),
                Err(e) => Err(e@),
            },
            autocommit,
        ),
{
    match parsed {
        Err(e) => RunAction::Reply(errors::parse_error_response(first_seq, e)),
        Ok(kinds) => {
            assert(kinds.deep_view().len() == kinds@.len());
            if kinds.len() != 1 {
                return RunAction::RunAll;
            }
            assert(kinds.deep_view()[0] == kinds@[0].deep_view());
            if probe::has_sql_calc_found_rows(sql) {
                if let StatementKind::Select = &kinds[0] {
                    return RunAction::CountRows;
                }
            }
            start_statement(session, first_seq, &kinds[0], autocommit)
        },
    }
}

/// The session and the reply after several statements were run for their effects,
/// up to the first that failed.
pub open spec fn ran_all_step(s: StateView, seq: u8, failed: Option<FailureView>) -> (
    StateView,
    Seq<u8>,
) {
    match failed {
        None => (StateView { last_row_count: 0, ..s }, reply::ok_reply(seq)),
        Some(f) => (s, errors::error_reply(seq, f)),
    }
}

/// Replies after several statements were run for their effects.
pub fn finish_all(session: &mut Session, first_seq: u8, failed: &Option<Failure>) -> (r: Vec<u8>)
    ensures
        (final(session)@, r@) == ran_all_step(
            old(session)@,
            first_seq,
            match *failed {
                Some(f) => Some(f@),
                None => None,
            },
        ),
{
    match failed {
        None => {
            session.last_row_count = 0;
            reply::encode_ok(first_seq)
        },
        Some(f) => errors::error_response(first_seq, f),
    }
}

/// Remembers the number of rows that a query has without its limit, unless the
/// count failed. The query itself is then run.
pub fn counted(session: &mut Session, count: Option<u64>)
    ensures
        final(session)@ == match count {
            Some(n) => (StateView { found_rows: n, ..old(session)@ }),
            None => old(session)@,
        },
{
    if let Some(n) = count {
        session.found_rows = n;
    }
}

/// How the run of a statement ended.
#[derive(Debug, PartialEq, Eq)]
pub enum Execution {
    Failed(Failure),
    /// The statement gives no rows.
    Changed { changes: i64, last_insert_rowid: i64 },
    /// The statement gave rows.
    Rows { columns: Vec<ColumnMeta>, rows: Vec<Vec<Value>> },
}

/// The model of an [`Execution`].
pub enum ExecutionView {
    Failed(FailureView),
    Changed { changes: i64, last_insert_rowid: i64 },
    Rows { columns: Seq<DefinitionView>, rows: Seq<Seq<ValueView>> },
}

impl DeepView for Execution {
    type V = ExecutionView;

    open spec fn deep_view(&self) -> ExecutionView {
        match *self {
            Execution::Failed(f) => ExecutionView::Failed(f@),
            Execution::Changed { changes, last_insert_rowid } => ExecutionView::Changed {
                changes,
                last_insert_rowid,
            },
            Execution::Rows { columns, rows } => ExecutionView::Rows {
                columns: columns.deep_view(),
                rows: rows.deep_view(),
            },
        }
    }
}

/// The session and the reply after a statement was run. A statement that changes
/// rows leaves their number, any other without rows leaves zero, and one with rows
/// or an error leaves -1.
pub open spec fn finish_step(s: StateView, seq: u8, kind: KindView, execution: ExecutionView) -> (
    StateView,
    Seq<u8>,
) {
    match execution {
        ExecutionView::Failed(f) => (
            StateView { last_row_count: -1, ..s },
            errors::error_reply(seq, f),
        ),
        ExecutionView::Changed { changes, last_insert_rowid } => (
            StateView {
                last_row_count: if changes_rows(kind) && changes > 0 {
                    changes as int
                } else {
                    0
                },
                ..s
            },
            reply::changed_reply(seq, changes as int, last_insert_rowid as int),
        ),
        ExecutionView::Rows { columns, rows } => (
            StateView { last_row_count: -1, ..s },
            reply::rows_reply(seq, columns, rows),
        ),
    }
}

/// Replies after a statement was run.
pub fn finish_statement(
    session: &mut Session,
    first_seq: u8,
    kind: &StatementKind,
    execution: &Execution,
) -> (r: Vec<u8>)
    ensures
        (final(session)@, r@) == finish_step(
            old(session)@,
            first_seq,
            kind.deep_view(),
            execution.deep_view(),
        ),
{
    match execution {
        Execution::Failed(f) => {
            session.last_row_count = -1;
            errors::error_response(first_seq, f)
        },
        Execution::Changed { changes, last_insert_rowid } => {
            let is_dml = match kind {
                StatementKind::Insert | StatementKind::Update | StatementKind::Delete => true,
                _ => false,
            };
            session.last_row_count = if is_dml && *changes > 0 {
                *changes
            } else {
                0
            };
            reply::encode_changed(first_seq, *changes, *last_insert_rowid)
        },
        Execution::Rows { columns, rows } => {
            session.last_row_count = -1;
            reply::encode_result_set(first_seq, columns, rows)
        },
    }
}

// ---------------------------------------------------------------------------
// Prepared statements
// ---------------------------------------------------------------------------
/// Keeps a statement that was prepared, and replies.
pub fn finish_prepare<S>(
    statements: &mut StatementStore<S>,
    first_seq: u8,
    statement: S,
    num_params: usize,
    columns: &Vec<ColumnMeta>,
) -> (r: Vec<u8>)
    requires
        old(statements).valid(),
        old(statements).last_id() < u32::MAX,
    ensures
        final(statements).valid(),
        final(statements).last_id() == old(statements).last_id() + 1,
        exists|p: Prepared<S>|
            {
                &&& p.statement == statement
                &&& p.num_params == num_params
                &&& p.columns.deep_view() == columns.deep_view()
                &&& #[trigger] old(statements).map().insert(final(statements).last_id(), p)
                    == final(statements).map()
            },
        r@ == reply::framed(
            first_seq,
            reply::prepared_packets(
                final(statements).last_id(),
                num_params as nat,
                columns.deep_view(),
            ),
        ),
{
    let definitions = reply::column_definitions(columns);
    let kept = reply::column_definitions(columns);
    let ghost before = statements.map();
    let prepared = Prepared { statement, columns: kept, num_params };
    let id: u32 = statements.insert(prepared);
    assert(before.insert(id, prepared) == statements.map());
    reply::encode_prepared(first_seq, id, num_params, &definitions)
}

/// What is to be done for an execution.
#[derive(Debug, PartialEq, Eq)]
pub enum ExecuteAction {
    /// Send these bytes.
    Reply(Vec<u8>),
    /// The parameters cannot be read.
    Refuse(ProtocolError),
    /// Bind these parameters, and run the statement.
    Bind(Vec<BinaryValue>),
}

/// The model of an [`ExecuteAction`].
pub enum ExecuteView {
    Reply(Seq<u8>),
    Refuse(ErrorView),
    Bind(Seq<BinaryView>),
}

impl DeepView for ExecuteAction {
    type V = ExecuteView;

    open spec fn deep_view(&self) -> ExecuteView {
        match *self {
            ExecuteAction::Reply(bytes) => ExecuteView::Reply(bytes@),
            ExecuteAction::Refuse(e) => ExecuteView::Refuse(e@),
            ExecuteAction::Bind(params) => ExecuteView::Bind(params.deep_view()),
        }
    }
}

/// What is to be done for an execution of a statement with so many parameters, if
/// there is such a statement.
pub open spec fn execute_step(
    num_params: Option<nat>,
    seq: u8,
    statement_id: u32,
    params_tail: Seq<u8>,
) -> ExecuteView {
    match num_params {
        None => ExecuteView::Reply(errors::unknown_statement_reply(seq, statement_id)),
        Some(n) => match stmt::params_in(params_tail, n) {
            Ok(params) => ExecuteView::Bind(params),
            Err(e) => ExecuteView::Refuse(e),
        },
    }
}

/// Decides on an execution.
pub fn start_execute<S>(statements: &StatementStore<S>, first_seq: u8, exec: &StmtExecute) -> (r:
    ExecuteAction)
    ensures
        r.deep_view() == execute_step(
            if statements.map().contains_key(exec.statement_id) {
                Some(statements.map()[exec.statement_id].num_params as nat)
            } else {
                None
            },
            first_seq,
            exec.statement_id,
            exec.params_tail@,
        ),
{
    match statements.get(exec.statement_id) {
        None => ExecuteAction::Reply(
            errors::unknown_statement_response(first_seq, exec.statement_id),
        ),
        Some(prepared) => match exec.parse_params(prepared.num_params) {
            Ok(params) => ExecuteAction::Bind(params),
            Err(e) => ExecuteAction::Refuse(e),
        },
    }
}

/// Every parameter can be bound.
pub open spec fn all_bindable(params: Seq<BinaryView>) -> bool {
    forall|i: int| 0 <= i < params.len() ==> types::bindable(#[trigger] params[i])
}

/// Whether every parameter can be bound.
pub fn can_bind(params: &Vec<BinaryValue>) -> (r: bool)
    ensures
        r == all_bindable(params.deep_view()),
{
    for i in 0..params.len()
        invariant
            forall|j: int| 0 <= j < i ==> types::bindable(#[trigger] params.deep_view()[j]),
    {
        assert(params.deep_view()[i as int] == params@[i as int]@);
        if let BinaryValue::Time { days, hour, .. } = &params[i] {
            if *days as u64 * 24 + *hour as u64 > u32::MAX as u64 {
                return false;
            }
        }
    }
    true
}

/// The parameters as the engine binds them.
pub open spec fn bound_all(params: Seq<BinaryView>) -> Seq<BoundView> {
    Seq::new(params.len(), |i: int| types::bound_of(params[i]))
}

/// The model of bound parameters.
pub open spec fn bound_views(values: Seq<BoundValue>) -> Seq<BoundView> {
    Seq::new(values.len(), |i: int| values[i]@)
}

/// Converts the parameters for binding.
pub fn bound_values(params: Vec<BinaryValue>) -> (r: Vec<BoundValue>)
    requires
        all_bindable(params.deep_view()),
    ensures
        bound_views(r@) == bound_all(params.deep_view()),
{
    let ghost views = params.deep_view();
    let mut values: Vec<BoundValue> = Vec::new();
    let mut params = params;
    let n: usize = params.len();
    for i in 0..n
        invariant
            n == views.len(),
            params@.len() == n,
            all_bindable(views),
            forall|j: int| i <= j < n ==> (#[trigger] params@[j])@ == views[j],
            values@.len() == i,
            forall|j: int| 0 <= j < i ==> (#[trigger] values@[j])@ == types::bound_of(views[j]),
    {
        let mut value = BinaryValue::Null;
        std::mem::swap(&mut params[i], &mut value);
        assert(value@ == views[i as int]);
        values.push(types::binary_to_value(value));
    }
    assert(bound_views(values@) =~= bound_all(views));
    values
}

/// The reply after a prepared statement was run, if it did not fail: its rows, or
/// the count of the rows that it changed where it has no columns.
pub open spec fn executed_reply(
    seq: u8,
    columns: Seq<DefinitionView>,
    changes: i64,
    last_insert_rowid: i64,
    rows: Seq<Seq<(u8, BinaryView)>>,
) -> Seq<u8> {
    if columns.len() == 0 {
        reply::changed_reply(seq, changes as int, last_insert_rowid as int)
    } else {
        reply::binary_reply(seq, columns, rows)
    }
}

/// Replies after a prepared statement was run.
pub fn finish_execute(
    first_seq: u8,
    columns: &Vec<ColumnDefinition>,
    changes: i64,
    last_insert_rowid: i64,
    rows: &Vec<Vec<(u8, BinaryValue)>>,
) -> (r: Vec<u8>)
    requires
        reply::all_carried(reply::cell_rows(rows@)),
    ensures
        r@ == executed_reply(
            first_seq,
            columns.deep_view(),
            changes,
            last_insert_rowid,
            reply::cell_rows(rows@),
        ),
{
    assert(columns.deep_view().len() == columns@.len());
    if columns.len() == 0 {
        reply::encode_changed(first_seq, changes, last_insert_rowid)
    } else {
        reply::encode_binary_result_set(first_seq, columns, rows)
    }
}

/// The reply to a reset: `None` if there is no such statement.
pub open spec fn reset_reply(seq: u8, id: u32, outcome: Option<Option<FailureView>>) -> Seq<u8> {
    match outcome {
        None => errors::unknown_statement_reply(seq, id),
        Some(None) => reply::ok_reply(seq),
        Some(Some(f)) => errors::error_reply(seq, f),
    }
}

/// Replies to a reset: `None` if there is no such statement, and the error if it
/// could not be reset.
pub fn finish_reset(first_seq: u8, id: u32, outcome: &Option<Option<Failure>>) -> (r: Vec<u8>)
    ensures
        r@ == reset_reply(
            first_seq,
            id,
            match *outcome {
                None => None,
                Some(None) => Some(None),
                Some(Some(f)) => Some(Some(f@)),
            },
        ),
{
    match outcome {
        None => errors::unknown_statement_response(first_seq, id),
        Some(None) => reply::encode_ok(first_seq),
        Some(Some(f)) => errors::error_response(first_seq, f),
    }
}

// ---------------------------------------------------------------------------
// What one statement leaves for the next
// ---------------------------------------------------------------------------
/// Asked for the row count, the session gives it and has -1 from then on.
#[verifier::spinoff_prover]
proof fn row_count_is_answered(s: StateView, sql: Seq<char>, seq: u8)
    requires
        probe::asks_row_count(sql),
    ensures
        query_step(s, sql, seq) == (
            StateView { last_row_count: -1, ..s },
            QueryView::Reply(
                single(seq, "ROW_COUNT()"@, numeric::signed_decimal(s.last_row_count)),
            ),
        ),
{
}

/// `SELECT ROW_COUNT()` reports the rows that the statement before it changed, and
/// -1 when it is asked once more.
#[verifier::spinoff_prover]
pub proof fn row_count_reports_changes(
    s: StateView,
    kind: KindView,
    changes: i64,
    last_insert_rowid: i64,
    sql: Seq<char>,
    seq: u8,
)
    requires
        changes_rows(kind),
        0 <= changes,
        probe::asks_row_count(sql),
    ensures
        ({
            let (t, _) = finish_step(
                s,
                seq,
                kind,
                ExecutionView::Changed { changes, last_insert_rowid },
            );
            let (u, first) = query_step(t, sql, seq);
            let (_, second) = query_step(u, sql, seq);
            &&& first == QueryView::Reply(
                single(seq, "ROW_COUNT()"@, numeric::signed_decimal(changes as int)),
            )
            &&& second == QueryView::Reply(
                single(seq, "ROW_COUNT()"@, numeric::signed_decimal(-1)),
            )
        }),
{
    let execution = ExecutionView::Changed { changes, last_insert_rowid };
    let t = finish_step(s, seq, kind, execution).0;
    assert(t.last_row_count == changes);
    row_count_is_answered(t, sql, seq);
    row_count_is_answered(StateView { last_row_count: -1, ..t }, sql, seq);
}

/// A statement without effect asks for no value of the session.
proof fn acknowledged_asks_nothing(sql: Seq<char>)
    requires
        session::no_effect(text::uppered(session::bare_statement(sql))),
    ensures
        !probe::asks_row_count(sql),
        !probe::asks_found_rows(sql),
        !probe::asks_sql_mode(sql),
{
    let s = session::bare_statement(sql);
    let u = text::uppered(s);
    let w = text::words(u);
    reveal_strlit("SET");
    reveal_strlit("SET ");
    reveal_strlit("LOCK");
    reveal_strlit("UNLOCK");
    reveal_strlit("FLUSH");
    reveal_strlit("DROP");
    assert(u.len() == s.len());
    assert forall|j: int| 0 <= j < s.len() implies #[trigger] u[j] == text::upper_char(s[j]) by {}
    if u == "SET"@ || text::occurs_at(u, "SET "@, 0) {
        if u != "SET"@ {
            assert(u.subrange(0, 4)[0] == 'S');
            assert(u.subrange(0, 4)[1] == 'E');
            assert(u.subrange(0, 4)[2] == 'T');
        }
        assert(u[0] == 'S' && u[1] == 'E' && u[2] == 'T');
        probe::normalized_starts(sql, 3);
        assert(text::lower_char(s[2]) == 't');
        assert(probe::normalized(sql)[2] == s[2]);
    } else {
        assert(w.len() > 0 && w[0].len() > 0);
        assert(u.len() > 0);
        probe::trimmed_starts_with_no_space(text::trimmed_end_of(text::trimmed(sql), ';'));
        assert(!text::space(s[0]));
        assert(!text::space(u[0]));
        assert(w[0] == u.subrange(0, text::space_pos(u, 0)));
        text::space_pos_bounds(u, 1);
        assert(text::space_pos(u, 0) == text::space_pos(u, 1));
        assert(w[0][0] == u[0]);
        probe::normalized_starts(sql, 1);
        assert(text::lower_char(s[0]) != 's');
        assert(probe::normalized(sql)[0] == s[0]);
    }
    if probe::asks_row_count(sql) || probe::asks_found_rows(sql) || probe::asks_sql_mode(sql) {
        probe::questions_start_with_select(sql);
    }
}

/// After a statement that is acknowledged without rows, `SELECT ROW_COUNT()` reports
/// zero.
#[verifier::spinoff_prover]
pub proof fn acknowledged_statements_count_no_rows(
    s: StateView,
    done: Seq<char>,
    sql: Seq<char>,
    seq: u8,
)
    requires
        probe::sql_mode_set(done) is Some || session::session_response(done, s.current_db) == Some(
            SessionView::OkReply,
        ),
        probe::asks_row_count(sql),
    ensures
        query_step(s, done, seq).1 == QueryView::Reply(reply::ok_reply(seq)),
        query_step(query_step(s, done, seq).0, sql, seq).1 == QueryView::Reply(
            single(seq, "ROW_COUNT()"@, numeric::signed_decimal(0)),
        ),
{
    probe::probes_are_exclusive(done);
    if session::no_effect(text::uppered(session::bare_statement(done))) {
        acknowledged_asks_nothing(done);
    }
    row_count_is_answered(query_step(s, done, seq).0, sql, seq);
}

/// The mode that is set is the mode that is read, until another is set.
pub proof fn sql_mode_is_remembered(s: StateView, set: Seq<char>, ask: Seq<char>, seq: u8)
    requires
        probe::sql_mode_set(set) is Some,
        probe::asks_sql_mode(ask),
    ensures
        ({
            let (t, first) = query_step(s, set, seq);
            let (u, second) = query_step(t, ask, seq);
            &&& first == QueryView::Reply(reply::ok_reply(seq))
            &&& second == QueryView::Reply(
                single(seq, "@@SESSION.sql_mode"@, probe::sql_mode_set(set)->0),
            )
            &&& u.sql_mode == probe::sql_mode_set(set)->0
        }),
{
    probe::probes_are_exclusive(set);
    probe::probes_are_exclusive(ask);
}

/// No statement but one that sets the mode changes it, and none changes the number
/// of found rows before it is run.
pub proof fn other_statements_keep_the_session(s: StateView, sql: Seq<char>, seq: u8)
    ensures
        probe::sql_mode_set(sql) is None ==> query_step(s, sql, seq).0.sql_mode == s.sql_mode,
        query_step(s, sql, seq).0.found_rows == s.found_rows,
        query_step(s, sql, seq).0.current_db == s.current_db,
{
}

/// `SELECT FOUND_ROWS()` reports the rows that were counted last, whatever other
/// statements came between.
pub proof fn found_rows_are_reported(s: StateView, between: Seq<Seq<char>>, sql: Seq<char>, seq: u8)
    requires
        probe::asks_found_rows(sql),
    ensures
        query_step(after_all(s, between, seq), sql, seq).1 == QueryView::Reply(
            single(seq, "FOUND_ROWS()"@, numeric::decimal(s.found_rows as nat)),
        ),
{
    probe::probes_are_exclusive(sql);
    found_rows_stay(s, between, seq);
}

/// The session after some statements were decided on.
pub open spec fn after_all(s: StateView, statements: Seq<Seq<char>>, seq: u8) -> StateView
    decreases statements.len(),
{
    if statements.len() == 0 {
        s
    } else {
        query_step(after_all(s, statements.drop_last(), seq), statements.last(), seq).0
    }
}

proof fn found_rows_stay(s: StateView, statements: Seq<Seq<char>>, seq: u8)
    ensures
        after_all(s, statements, seq).found_rows == s.found_rows,
    decreases statements.len(),
{
    if statements.len() > 0 {
        found_rows_stay(s, statements.drop_last(), seq);
    }
}

/// The database that a client selects, when it logs in or later, is the one that
/// `DATABASE()` and `SCHEMA()` report.
pub proof fn database_is_reported(s: StateView, db: Seq<char>, expr: Seq<char>)
    requires
        ({
            let e = text::uppered(text::trimmed(expr));
            e == "DATABASE()"@ || e == "SCHEMA()"@
        }),
    ensures
        session::value_of(expr, fresh(Some(db)).current_db) == Some(Some(db)),
        session::value_of(expr, session_after(s, CommandView::InitDb(db)).current_db) == Some(
            Some(db),
        ),
{
    let e = text::trimmed(expr);
    reveal_strlit("DATABASE()");
    reveal_strlit("SCHEMA()");
    reveal_strlit("@@");
    reveal_strlit("VERSION()");
    assert(text::uppered(e).len() == e.len());
    assert(text::uppered(e)[0] == text::upper_char(e[0]));
    if text::occurs_at(e, "@@"@, 0) {
        assert(e.subrange(0, 2)[0] == '@');
    }
}

// ---------------------------------------------------------------------------
// What commands and statements lead to
// ---------------------------------------------------------------------------
/// A ping and a switch of the database are answered with OK, a quit closes the
/// connection, and a statement or what concerns a prepared one is passed on as it
/// came; what is not supported and what is not known are answered with an error.
pub proof fn commands_are_passed_on(
    seq: u8,
    s: Seq<char>,
    id: u32,
    flags: u8,
    tail: Seq<u8>,
    byte: u8,
    known: crate::protocol::constants::CommandByte,
)
    ensures
        command_action(CommandView::Quit, seq) == CommandActionView::Close,
        command_action(CommandView::Ping, seq) == CommandActionView::Reply(reply::ok_reply(seq)),
        command_action(CommandView::InitDb(s), seq) == CommandActionView::Reply(
            reply::ok_reply(seq),
        ),
        command_action(CommandView::Query(s), seq) == CommandActionView::Query(s),
        command_action(CommandView::StmtPrepare(s), seq) == CommandActionView::Prepare(s),
        command_action(
            CommandView::StmtExecute { statement_id: id, flags, params_tail: tail },
            seq,
        ) == (CommandActionView::Execute { statement_id: id, flags, params_tail: tail }),
        command_action(CommandView::StmtReset(id), seq) == CommandActionView::Reset(id),
        command_action(CommandView::StmtClose(id), seq) == CommandActionView::Forget(id),
        command_action(CommandView::Unsupported(known), seq) matches CommandActionView::Reply(b)
            && errors::carries_error(
            b,
            seq,
            1105,
            "HY000"@,
            "unsupported command: "@ + known.name_spec(),
        ),
        command_action(CommandView::Unknown(byte), seq) matches CommandActionView::Reply(b)
            && errors::carries_error(
            b,
            seq,
            1105,
            "HY000"@,
            "unknown command byte 0x"@ + error::hex_byte_spec(byte),
        ),
{
    errors::general_error_is_carried(seq, "unsupported command: "@ + known.name_spec(), id);
    errors::general_error_is_carried(
        seq,
        "unknown command byte 0x"@ + error::hex_byte_spec(byte),
        id,
    );
}

/// Only a switch of the database changes the session, and only its database.
pub proof fn commands_change_the_database_only(s: StateView, c: CommandView)
    ensures
        c matches CommandView::InitDb(db) ==> session_after(s, c).current_db == Some(db),
        !(c is InitDb) ==> session_after(s, c) == s,
        session_after(s, c).found_rows == s.found_rows,
        session_after(s, c).last_row_count == s.last_row_count,
        session_after(s, c).sql_mode == s.sql_mode,
{
}

/// Outside a transaction a commit and a rollback are done at once, and a begin is run;
/// inside one a commit and a rollback are run, and a begin commits first. Everything
/// else is run, after the indexes where it drops a column.
pub proof fn transactions_are_followed(
    s: StateView,
    seq: u8,
    kind: KindView,
    table: Seq<char>,
    column: Seq<char>,
)
    ensures
        kind is Commit || kind is Rollback ==> {
            &&& run_step(s, seq, kind, true).1 == RunView::Reply(reply::ok_reply(seq))
            &&& run_step(s, seq, kind, true).0.last_row_count == 0
            &&& run_step(s, seq, kind, false) == (s, RunView::Run)
        },
        kind is Begin ==> {
            &&& run_step(s, seq, kind, true) == (s, RunView::Run)
            &&& run_step(s, seq, kind, false) == (s, RunView::CommitAndRun)
        },
        kind is Select || kind is Insert || kind is Update || kind is Delete || kind is Other ==> {
            &&& run_step(s, seq, kind, true) == (s, RunView::Run)
            &&& run_step(s, seq, kind, false) == (s, RunView::Run)
        },
        run_step(s, seq, KindView::DropColumn { table, column }, true) == (
            s,
            RunView::AdjustAndRun { table, column },
        ),
        run_step(s, seq, KindView::DropColumn { table, column }, false) == (
            s,
            RunView::AdjustAndRun { table, column },
        ),
{
}

/// A statement that cannot be read is answered with its error and changes nothing;
/// several statements are all run; a `SELECT` that calculates the found rows is run
/// to count them; and any other single statement is run by its kind.
pub proof fn parsed_statements_are_run(
    s: StateView,
    sql: Seq<char>,
    seq: u8,
    e: ParseErrorView,
    kinds: Seq<KindView>,
    autocommit: bool,
)
    ensures
        parsed_step(s, sql, seq, Err(e), autocommit) == (
            s,
            RunView::Reply(errors::parse_error_reply(seq, e)),
        ),
        kinds.len() != 1 ==> parsed_step(s, sql, seq, Ok(kinds), autocommit) == (
            s,
            RunView::RunAll,
        ),
        kinds.len() == 1 && kinds[0] is Select && probe::calculates_found_rows(sql) ==> parsed_step(
            s,
            sql,
            seq,
            Ok(kinds),
            autocommit,
        ) == (s, RunView::CountRows),
        kinds.len() == 1 && !(kinds[0] is Select && probe::calculates_found_rows(sql))
            ==> parsed_step(s, sql, seq, Ok(kinds), autocommit) == run_step(
            s,
            seq,
            kinds[0],
            autocommit,
        ),
{
}

/// A statement leaves for `ROW_COUNT()`: the rows that an insert, an update or a delete
/// changed; zero for any other statement without rows; and -1 for one with rows and
/// for one that failed. It leaves the rest of the session as it was.
pub proof fn row_counts_are_left(
    s: StateView,
    seq: u8,
    kind: KindView,
    f: FailureView,
    changes: i64,
    id: i64,
    columns: Seq<DefinitionView>,
    rows: Seq<Seq<ValueView>>,
)
    ensures
        ({
            let changed = finish_step(
                s,
                seq,
                kind,
                ExecutionView::Changed { changes, last_insert_rowid: id },
            );
            &&& kind is Insert || kind is Update || kind is Delete ==> changed.0.last_row_count
                == if changes > 0 {
                changes as int
            } else {
                0
            }
            &&& !(kind is Insert || kind is Update || kind is Delete) ==> changed.0.last_row_count
                == 0
            &&& changed.1 == reply::changed_reply(seq, changes as int, id as int)
            &&& changed.0.found_rows == s.found_rows && changed.0.sql_mode == s.sql_mode
                && changed.0.current_db == s.current_db
        }),
        ({
            let failed = finish_step(s, seq, kind, ExecutionView::Failed(f));
            &&& failed.0 == (StateView { last_row_count: -1, ..s })
            &&& failed.1 == errors::error_reply(seq, f)
        }),
        ({
            let queried = finish_step(s, seq, kind, ExecutionView::Rows { columns, rows });
            &&& queried.0 == (StateView { last_row_count: -1, ..s })
            &&& queried.1 == reply::rows_reply(seq, columns, rows)
        }),
        ran_all_step(s, seq, None) == (
            StateView { last_row_count: 0, ..s },
            reply::ok_reply(seq),
        ),
        ran_all_step(s, seq, Some(f)) == (s, errors::error_reply(seq, f)),
{
}

/// A statement that was never prepared is answered with an error that tells its id; one
/// that was is run with the parameters that the client bound; parameters that cannot
/// be read are refused.
pub proof fn executions_bind_what_was_sent(
    seq: u8,
    id: u32,
    cells: Seq<(u8, BinaryView)>,
    nulls: Seq<u8>,
    typed: Seq<u8>,
)
    requires
        cells.len() > 0,
        nulls.len() == (cells.len() + 7) / 8,
        typed.len() == 2 * cells.len(),
        forall|i: int|
            0 <= i < cells.len() ==> {
                &&& (#[trigger] cells[i]).0 == typed[2 * i]
                &&& stmt::fits(cells[i].0, typed[2 * i + 1] >= 0x80, cells[i].1)
                &&& stmt::bit_set(nulls, i) <==> cells[i].1 is Null
            },
    ensures
        ({
            let tail = nulls + seq![0x01u8] + typed + stmt::row_values(cells);
            &&& execute_step(Some(cells.len()), seq, id, tail) == ExecuteView::Bind(
                Seq::new(cells.len(), |i: int| cells[i].1),
            )
            &&& execute_step(None, seq, id, tail) matches ExecuteView::Reply(b)
                && errors::carries_error(
                b,
                seq,
                1105,
                "HY000"@,
                "unknown prepared statement id "@ + numeric::decimal(id as nat),
            )
        }),
{
    stmt::bound_parameters_are_read(cells, nulls, typed);
    errors::general_error_is_carried(
        seq,
        "unknown prepared statement id "@ + numeric::decimal(id as nat),
        id,
    );
}

/// A prepared statement without columns is answered with the rows that it changed, and
/// one with columns with its rows.
pub proof fn executions_are_answered(
    seq: u8,
    columns: Seq<DefinitionView>,
    changes: i64,
    id: i64,
    rows: Seq<Seq<(u8, BinaryView)>>,
)
    ensures
        columns.len() == 0 ==> executed_reply(seq, columns, changes, id, rows)
            == reply::changed_reply(seq, changes as int, id as int),
        columns.len() > 0 ==> executed_reply(seq, columns, changes, id, rows)
            == reply::binary_reply(seq, columns, rows),
{
}

/// A reset is answered with OK, with the engine's error, or with an error that tells
/// that there is no such statement.
pub proof fn resets_are_answered(seq: u8, id: u32, f: FailureView)
    ensures
        reset_reply(seq, id, Some(None)) == reply::ok_reply(seq),
        reset_reply(seq, id, Some(Some(f))) == errors::error_reply(seq, f),
        errors::carries_error(
            reset_reply(seq, id, None),
            seq,
            1105,
            "HY000"@,
            "unknown prepared statement id "@ + numeric::decimal(id as nat),
        ),
{
    errors::general_error_is_carried(
        seq,
        "unknown prepared statement id "@ + numeric::decimal(id as nat),
        id,
    );
}

/// An answer from the catalogue is its rows, an error about a missing table, or the
/// engine's error.
pub proof fn catalogue_answers(seq: u8, result: crate::server::show::ResultView, table: Seq<char>, f: FailureView)
    ensures
        shown_reply(seq, Ok(OutcomeView::Columns(result))) == reply::columns_reply(seq, result),
        shown_reply(seq, Err(f)) == errors::error_reply(seq, f),
        errors::carries_error(
            shown_reply(seq, Ok(OutcomeView::NoSuchTable(table))),
            seq,
            1146,
            "42S02"@,
            "Table '"@ + table + "' doesn't exist"@,
        ),
{
    errors::missing_table_is_carried(seq, table);
}

/// A reply of one value is one column under the header and one row with the value.
pub proof fn single_values_are_rows(seq: u8, header: Seq<char>, value: Seq<char>)
    ensures
        single(seq, header, value) == reply::framed(
            seq,
            reply::result_set(
                seq![crate::protocol::resultset::text_definition(header)],
                seq![reply::string_row(seq![Some(value)])],
            ),
        ),
{
    assert(reply::text_columns(seq![header]) =~= seq![
        crate::protocol::resultset::text_definition(header),
    ]);
}

/// The greeting names the server's version, the connection and the plugin, and a
/// session starts without a mode, without found rows, and in the database that the
/// client names.
pub proof fn connections_start_fresh(id: u32, db: Option<Seq<char>>)
    ensures
        greeting_payload(id) == handshake::greeting(
            "8.0.0-turso"@,
            id,
            scramble(id),
            0x0008_a20d,
            45,
            2,
            "mysql_native_password"@,
        ),
        scramble(id).len() == 20,
        fresh(db).found_rows == 0,
        fresh(db).last_row_count == -1,
        fresh(db).sql_mode.len() == 0,
        fresh(db).current_db == db,
{
    handshake::server_offers();
}

/// Every parameter that was sent is bound, at its place.
pub proof fn parameters_keep_their_places(params: Seq<BinaryView>, i: int)
    requires
        0 <= i < params.len(),
    ensures
        bound_all(params).len() == params.len(),
        bound_all(params)[i] == types::bound_of(params[i]),
{
}

} // verus!
