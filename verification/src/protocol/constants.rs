//! Capability flags, status flags, commands and column types.

use vstd::prelude::*;

pub mod capabilities;
pub mod collation;
pub mod column_flags;
pub mod column_type;
pub mod status;

verus! {

/// The command bytes of the text protocol that have a name here.
#[derive(Debug, Clone, Copy, PartialEq, Eq, Structural)]
pub enum CommandByte {
    Quit,
    InitDb,
    Query,
    FieldList,
    Ping,
    StmtPrepare,
    StmtExecute,
    StmtClose,
    StmtReset,
}

impl CommandByte {
    /// The byte that opens the command's packet.
    pub open spec fn byte(self) -> u8 {
        match self {
            CommandByte::Quit => 0x01,
            CommandByte::InitDb => 0x02,
            CommandByte::Query => 0x03,
            CommandByte::FieldList => 0x04,
            CommandByte::Ping => 0x0e,
            CommandByte::StmtPrepare => 0x16,
            CommandByte::StmtExecute => 0x17,
            CommandByte::StmtClose => 0x19,
            CommandByte::StmtReset => 0x1a,
        }
    }

    /// The command that `byte` opens, if it is one of these.
    pub fn from_u8(byte: u8) -> (r: Option<Self>)
        ensures
            match r {
                Some(command) => command.byte() == byte,
                None => forall|command: CommandByte| command.byte() != byte,
            },
    {
        match byte {
            0x01 => Some(CommandByte::Quit),
            0x02 => Some(CommandByte::InitDb),
            0x03 => Some(CommandByte::Query),
            0x04 => Some(CommandByte::FieldList),
            0x0e => Some(CommandByte::Ping),
            0x16 => Some(CommandByte::StmtPrepare),
            0x17 => Some(CommandByte::StmtExecute),
            0x19 => Some(CommandByte::StmtClose),
            0x1a => Some(CommandByte::StmtReset),
            _ => None,
        }
    }

    /// The command's name.
    pub open spec fn name_spec(self) -> Seq<char> {
        match self {
            CommandByte::Quit => "Quit"@,
            CommandByte::InitDb => "InitDb"@,
            CommandByte::Query => "Query"@,
            CommandByte::FieldList => "FieldList"@,
            CommandByte::Ping => "Ping"@,
            CommandByte::StmtPrepare => "StmtPrepare"@,
            CommandByte::StmtExecute => "StmtExecute"@,
            CommandByte::StmtClose => "StmtClose"@,
            CommandByte::StmtReset => "StmtReset"@,
        }
    }

    /// The command's name, as error messages give it.
    pub fn name(self) -> (r: &'static str)
        ensures
            r@ == self.name_spec(),
    {
        match self {
            CommandByte::Quit => "Quit",
            CommandByte::InitDb => "InitDb",
            CommandByte::Query => "Query",
            CommandByte::FieldList => "FieldList",
            CommandByte::Ping => "Ping",
            CommandByte::StmtPrepare => "StmtPrepare",
            CommandByte::StmtExecute => "StmtExecute",
            CommandByte::StmtClose => "StmtClose",
            CommandByte::StmtReset => "StmtReset",
        }
    }
}

/// No two commands share a byte.
pub proof fn command_bytes_differ(a: CommandByte, b: CommandByte)
    requires
        a.byte() == b.byte(),
    ensures
        a == b,
{
}

/// The byte that stands for SQL NULL in a text row.
pub const NULL_COLUMN_MARKER: u8 = 0xfb;

/// First byte of an OK packet.
pub const OK_HEADER: u8 = 0x00;

/// First byte of an EOF packet.
pub const EOF_HEADER: u8 = 0xfe;

/// First byte of an ERR packet.
pub const ERR_HEADER: u8 = 0xff;

/// The authentication plugin that the greeting names.
pub const DEFAULT_AUTH_PLUGIN: &'static str = "mysql_native_password";

} // verus!
