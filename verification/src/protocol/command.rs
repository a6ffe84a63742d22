//! Client commands.

use vstd::prelude::*;

use crate::protocol::constants::CommandByte;
use crate::protocol::error::{ErrorView, ProtocolError};
use crate::protocol::packet;
use crate::protocol::packet::{PacketReader, Parse};
use crate::protocol::stmt::StmtExecute;

verus! {

/// A decoded client command.
#[derive(Debug, Clone, PartialEq, Eq)]
pub enum Command {
    /// The client closes the connection.
    Quit,
    /// A keepalive.
    Ping,
    /// Switch the default schema.
    InitDb(String),
    /// Run a SQL statement.
    Query(String),
    /// Prepare a SQL statement.
    StmtPrepare(String),
    /// Run a prepared statement with bound parameters.
    StmtExecute(StmtExecute),
    /// Discard a prepared statement's bound parameters.
    StmtReset(u32),
    /// Drop a prepared statement. No reply is expected.
    StmtClose(u32),
    /// A known command that is not implemented.
    Unsupported(CommandByte),
    /// An unknown command byte.
    Unknown(u8),
}

/// The model of a [`Command`].
pub enum CommandView {
    Quit,
    Ping,
    InitDb(Seq<char>),
    Query(Seq<char>),
    StmtPrepare(Seq<char>),
    StmtExecute { statement_id: u32, flags: u8, params_tail: Seq<u8> },
    StmtReset(u32),
    StmtClose(u32),
    Unsupported(CommandByte),
    Unknown(u8),
}

impl View for Command {
    type V = CommandView;

    open spec fn view(&self) -> CommandView {
        match *self {
            Command::Quit => CommandView::Quit,
            Command::Ping => CommandView::Ping,
            Command::InitDb(s) => CommandView::InitDb(s@),
            Command::Query(s) => CommandView::Query(s@),
            Command::StmtPrepare(s) => CommandView::StmtPrepare(s@),
            Command::StmtExecute(e) => CommandView::StmtExecute {
                statement_id: e.statement_id,
                flags: e.flags,
                params_tail: e.params_tail@,
            },
            Command::StmtReset(id) => CommandView::StmtReset(id),
            Command::StmtClose(id) => CommandView::StmtClose(id),
            Command::Unsupported(byte) => CommandView::Unsupported(byte),
            Command::Unknown(byte) => CommandView::Unknown(byte),
        }
    }
}

/// The execute command behind its command byte: the statement id, the flags, an
/// iteration count, and the parameters up to the end.
pub open spec fn execute_in(rest: Seq<u8>) -> Result<CommandView, ErrorView> {
    match packet::read_uint(rest, 0, 4) {
        Parse::Failed(e, _) => Err(e),
        Parse::Got(id, p) => match packet::read_uint(rest, p, 1) {
            Parse::Failed(e, _) => Err(e),
            Parse::Got(flags, p) => match packet::read_uint(rest, p, 4) {
                Parse::Failed(e, _) => Err(e),
                Parse::Got(_, p) => Ok(
                    CommandView::StmtExecute {
                        statement_id: id as u32,
                        flags: flags as u8,
                        params_tail: rest.skip(p),
                    },
                ),
            },
        },
    }
}

/// The command in a payload. An empty payload is a quit, as a connection that is
/// torn down gives it.
pub open spec fn command_in(payload: Seq<u8>) -> Result<CommandView, ErrorView> {
    if payload.len() == 0 {
        Ok(CommandView::Quit)
    } else {
        let byte = payload[0];
        let rest = payload.skip(1);
        if byte == CommandByte::Quit.byte() {
            Ok(CommandView::Quit)
        } else if byte == CommandByte::Ping.byte() {
            Ok(CommandView::Ping)
        } else if byte == CommandByte::InitDb.byte() {
            match packet::utf8_field("init_db"@, rest) {
                Ok(s) => Ok(CommandView::InitDb(s)),
                Err(e) => Err(e),
            }
        } else if byte == CommandByte::Query.byte() {
            match packet::utf8_field("query"@, rest) {
                Ok(s) => Ok(CommandView::Query(s)),
                Err(e) => Err(e),
            }
        } else if byte == CommandByte::StmtPrepare.byte() {
            match packet::utf8_field("stmt_prepare"@, rest) {
                Ok(s) => Ok(CommandView::StmtPrepare(s)),
                Err(e) => Err(e),
            }
        } else if byte == CommandByte::StmtExecute.byte() {
            execute_in(rest)
        } else if byte == CommandByte::StmtReset.byte() {
            match packet::read_uint(rest, 0, 4) {
                Parse::Got(id, _) => Ok(CommandView::StmtReset(id as u32)),
                Parse::Failed(e, _) => Err(e),
            }
        } else if byte == CommandByte::StmtClose.byte() {
            match packet::read_uint(rest, 0, 4) {
                Parse::Got(id, _) => Ok(CommandView::StmtClose(id as u32)),
                Parse::Failed(e, _) => Err(e),
            }
        } else if byte == CommandByte::FieldList.byte() {
            Ok(CommandView::Unsupported(CommandByte::FieldList))
        } else {
            Ok(CommandView::Unknown(byte))
        }
    }
}

impl Command {
    /// Decodes a command packet, command byte first.
    pub fn decode(payload: &[u8]) -> (r: Result<Self, ProtocolError>)
        ensures
            match r {
                Ok(command) => command_in(payload@) == Ok::<CommandView, ErrorView>(command@),
                Err(e) => command_in(payload@) == Err::<CommandView, ErrorView>(e@),
            },
    {
        if payload.len() == 0 {
            return Ok(Command::Quit);
        }
        let first: u8 = payload[0];
        let rest = &payload[1..payload.len()];
        assert(rest@ =~= payload@.skip(1));
        match CommandByte::from_u8(first) {
            Some(CommandByte::Quit) => Ok(Command::Quit),
            Some(CommandByte::Ping) => Ok(Command::Ping),
            Some(CommandByte::InitDb) => {
                let s = packet::utf8("init_db", rest)?;
                Ok(Command::InitDb(s))
            },
            Some(CommandByte::Query) => {
                let s = packet::utf8("query", rest)?;
                Ok(Command::Query(s))
            },
            Some(CommandByte::StmtPrepare) => {
                let s = packet::utf8("stmt_prepare", rest)?;
                Ok(Command::StmtPrepare(s))
            },
            Some(CommandByte::StmtExecute) => {
                let mut r = PacketReader::new(rest);
                let statement_id: u32 = r.u32()?;
                let flags: u8 = r.u8()?;
                let _iteration_count: u32 = r.u32()?;
                let params_tail = packet::copy_bytes(r.rest());
                Ok(Command::StmtExecute(StmtExecute { statement_id, flags, params_tail }))
            },
            Some(CommandByte::StmtReset) => {
                let mut r = PacketReader::new(rest);
                let id: u32 = r.u32()?;
                Ok(Command::StmtReset(id))
            },
            Some(CommandByte::StmtClose) => {
                let mut r = PacketReader::new(rest);
                let id: u32 = r.u32()?;
                Ok(Command::StmtClose(id))
            },
            Some(CommandByte::FieldList) => Ok(Command::Unsupported(CommandByte::FieldList)),
            None => {
                assert(CommandByte::Quit.byte() != first);
                assert(CommandByte::Ping.byte() != first);
                assert(CommandByte::InitDb.byte() != first);
                assert(CommandByte::Query.byte() != first);
                assert(CommandByte::StmtPrepare.byte() != first);
                assert(CommandByte::StmtExecute.byte() != first);
                assert(CommandByte::StmtReset.byte() != first);
                assert(CommandByte::StmtClose.byte() != first);
                assert(CommandByte::FieldList.byte() != first);
                Ok(Command::Unknown(first))
            },
        }
    }
}

// ---------------------------------------------------------------------------
// Laws
// ---------------------------------------------------------------------------
/// A command that carries text gives that text: `0x02` names a schema, `0x03` is a
/// statement to run, `0x16` one to prepare.
pub proof fn text_commands(s: Seq<char>)
    ensures
        command_in(seq![0x02u8] + vstd::utf8::encode_utf8(s)) == Ok::<CommandView, ErrorView>(
            CommandView::InitDb(s),
        ),
        command_in(seq![0x03u8] + vstd::utf8::encode_utf8(s)) == Ok::<CommandView, ErrorView>(
            CommandView::Query(s),
        ),
        command_in(seq![0x16u8] + vstd::utf8::encode_utf8(s)) == Ok::<CommandView, ErrorView>(
            CommandView::StmtPrepare(s),
        ),
{
    let b = vstd::utf8::encode_utf8(s);
    vstd::utf8::encode_utf8_valid_utf8(s);
    vstd::utf8::encode_utf8_decode_utf8(s);
    assert((seq![0x02u8] + b).skip(1) =~= b);
    assert((seq![0x03u8] + b).skip(1) =~= b);
    assert((seq![0x16u8] + b).skip(1) =~= b);
}

/// A command about a prepared statement gives the statement's id: `0x17` runs it with
/// the flags and the parameters that follow, `0x19` drops it, `0x1a` resets it.
pub proof fn statement_commands(id: u32, flags: u8, count: Seq<u8>, params: Seq<u8>)
    requires
        count.len() == 4,
    ensures
        command_in(seq![0x17u8] + packet::le(id as nat, 4) + seq![flags] + count + params) == Ok::<
            CommandView,
            ErrorView,
        >(CommandView::StmtExecute { statement_id: id, flags, params_tail: params }),
        command_in(seq![0x19u8] + packet::le(id as nat, 4)) == Ok::<CommandView, ErrorView>(
            CommandView::StmtClose(id),
        ),
        command_in(seq![0x1au8] + packet::le(id as nat, 4)) == Ok::<CommandView, ErrorView>(
            CommandView::StmtReset(id),
        ),
{
    let b = packet::le(id as nat, 4);
    packet::pow256_values();
    packet::le_reads_back(id as nat, 4);
    let rest = b + seq![flags] + count + params;
    assert((seq![0x17u8] + b + seq![flags] + count + params).skip(1) =~= rest);
    assert(rest.subrange(0, 4) =~= b);
    assert(rest.subrange(4, 5) =~= seq![flags]);
    packet::le_value_unfolds(seq![flags]);
    assert(rest.skip(9) =~= params);
    assert((seq![0x19u8] + b).skip(1) =~= b);
    assert((seq![0x1au8] + b).skip(1) =~= b);
    assert(b.subrange(0, 4) =~= b);
}

/// `0x01` and an empty payload close the connection, `0x0e` asks whether it stands,
/// `0x04` is known and not supported, and any other byte is unknown.
pub proof fn bare_commands(payload: Seq<u8>)
    ensures
        payload.len() == 0 || payload[0] == 0x01 ==> command_in(payload) == Ok::<
            CommandView,
            ErrorView,
        >(CommandView::Quit),
        payload.len() > 0 && payload[0] == 0x0e ==> command_in(payload) == Ok::<
            CommandView,
            ErrorView,
        >(CommandView::Ping),
        payload.len() > 0 && payload[0] == 0x04 ==> command_in(payload) == Ok::<
            CommandView,
            ErrorView,
        >(CommandView::Unsupported(CommandByte::FieldList)),
        payload.len() > 0 && payload[0] != 0x01 && payload[0] != 0x02 && payload[0] != 0x03
            && payload[0] != 0x04 && payload[0] != 0x0e && payload[0] != 0x16 && payload[0] != 0x17
            && payload[0] != 0x19 && payload[0] != 0x1a ==> command_in(payload) == Ok::<
            CommandView,
            ErrorView,
        >(CommandView::Unknown(payload[0])),
{
}

/// A command about a prepared statement that is cut short is refused.
pub proof fn short_commands_are_refused(payload: Seq<u8>)
    requires
        1 <= payload.len() < 5,
        payload[0] == 0x17 || payload[0] == 0x19 || payload[0] == 0x1a,
    ensures
        command_in(payload) == Err::<CommandView, ErrorView>(
            ErrorView::UnexpectedEof { offset: 0, needed: 5 - payload.len() },
        ),
{
}

} // verus!
