//! The connection phase: the server's greeting and the client's response.

use vstd::prelude::*;
use vstd::utf8;

use crate::protocol::constants::DEFAULT_AUTH_PLUGIN;
use crate::protocol::constants::{capabilities, collation, status};
use crate::protocol::error::{ErrorView, ProtocolError};
use crate::protocol::packet;
use crate::protocol::packet::{PacketReader, PacketWriter, Parse};

verus! {

/// The greeting that a server sends to a new client (protocol version 10).
#[derive(Debug, Clone)]
pub struct HandshakeV10 {
    /// Server version for people to read.
    pub server_version: String,
    /// Id of the connection.
    pub connection_id: u32,
    /// Authentication scramble.
    pub auth_plugin_data: [u8; 20],
    /// Capability flags that the server advertises.
    pub capabilities: u32,
    /// Default collation id of the connection.
    pub charset: u8,
    /// Initial status flags.
    pub status_flags: u16,
    /// Authentication plugin that the client should use.
    pub auth_plugin_name: String,
}

/// The capabilities that the server advertises.
pub open spec fn server_capabilities() -> u32 {
    capabilities::CLIENT_PROTOCOL_41 | capabilities::CLIENT_SECURE_CONNECTION
        | capabilities::CLIENT_PLUGIN_AUTH | capabilities::CLIENT_LONG_PASSWORD
        | capabilities::CLIENT_TRANSACTIONS | capabilities::CLIENT_LONG_FLAG
        | capabilities::CLIENT_CONNECT_WITH_DB
}

/// The payload of a greeting. The scramble comes in two parts, and so do the
/// capability flags.
pub open spec fn greeting(
    server_version: Seq<char>,
    connection_id: u32,
    scramble: Seq<u8>,
    capabilities: u32,
    charset: u8,
    status_flags: u16,
    plugin: Seq<char>,
) -> Seq<u8> {
    seq![10u8] + utf8::encode_utf8(server_version) + seq![0u8] + packet::le(
        connection_id as nat,
        4,
    ) + scramble.take(8) + seq![0u8] + packet::le(capabilities as nat % 65536, 2) + seq![charset]
        + packet::le(status_flags as nat, 2) + packet::le(capabilities as nat / 65536, 2)
        + seq![21u8] + packet::zero_bytes(10) + scramble.skip(8) + seq![0u8] + utf8::encode_utf8(
        plugin,
    ) + seq![0u8]
}

impl HandshakeV10 {
    /// A greeting with the server's defaults.
    pub fn new(server_version: &str, connection_id: u32, scramble: [u8; 20]) -> (r: Self)
        ensures
            r.server_version@ == server_version@,
            r.connection_id == connection_id,
            r.auth_plugin_data == scramble,
            r.capabilities == server_capabilities(),
            r.charset == collation::UTF8MB4_GENERAL_CI,
            r.status_flags == status::SERVER_STATUS_AUTOCOMMIT,
            r.auth_plugin_name@ == DEFAULT_AUTH_PLUGIN@,
    {
        HandshakeV10 {
            server_version: server_version.to_string(),
            connection_id,
            auth_plugin_data: scramble,
            capabilities: capabilities::CLIENT_PROTOCOL_41 | capabilities::CLIENT_SECURE_CONNECTION
                | capabilities::CLIENT_PLUGIN_AUTH | capabilities::CLIENT_LONG_PASSWORD
                | capabilities::CLIENT_TRANSACTIONS | capabilities::CLIENT_LONG_FLAG
                | capabilities::CLIENT_CONNECT_WITH_DB,
            charset: collation::UTF8MB4_GENERAL_CI,
            status_flags: status::SERVER_STATUS_AUTOCOMMIT,
            auth_plugin_name: DEFAULT_AUTH_PLUGIN.to_string(),
        }
    }

    /// The payload of the greeting.
    pub open spec fn payload(&self) -> Seq<u8> {
        greeting(
            self.server_version@,
            self.connection_id,
            self.auth_plugin_data@,
            self.capabilities,
            self.charset,
            self.status_flags,
            self.auth_plugin_name@,
        )
    }

    /// The packet's payload.
    pub fn encode(&self) -> (r: Vec<u8>)
        ensures
            r@ == self.payload(),
    {
        let data = self.auth_plugin_data.as_slice();
        let reserved: [u8; 10] = [0, 0, 0, 0, 0, 0, 0, 0, 0, 0];
        assert(reserved@ =~= packet::zero_bytes(10));
        let mut w = PacketWriter::with_capacity(64);
        w.u8(10);
        w.null_terminated(self.server_version.as_str().as_bytes());
        w.u32(self.connection_id);
        w.bytes(&data[0..8]);
        w.u8(0);
        w.u16((self.capabilities % 65536) as u16);
        w.u8(self.charset);
        w.u16(self.status_flags);
        w.u16((self.capabilities / 65536) as u16);
        w.u8(21);
        w.bytes(reserved.as_slice());
        w.bytes(&data[8..20]);
        w.u8(0);
        w.null_terminated(self.auth_plugin_name.as_str().as_bytes());
        assert(self.auth_plugin_data@.subrange(0, 8) =~= self.auth_plugin_data@.take(8));
        assert(self.auth_plugin_data@.subrange(8, 20) =~= self.auth_plugin_data@.skip(8));
        assert(w@ =~= self.payload());
        w.into_bytes()
    }
}

/// The client's answer to the greeting.
#[derive(Debug, Clone)]
pub struct HandshakeResponse41 {
    /// Capability flags that the client supports.
    pub capabilities: u32,
    /// Largest packet that the client takes.
    pub max_packet_size: u32,
    /// Collation id that the client chose.
    pub charset: u8,
    /// Login name.
    pub username: String,
    /// Authentication response, as it came.
    pub auth_response: Vec<u8>,
    /// Initial database, if the client names one.
    pub database: Option<String>,
    /// Authentication plugin that the client used, if it names one.
    pub auth_plugin: Option<String>,
}

/// The model of a [`HandshakeResponse41`].
pub struct ResponseView {
    pub capabilities: u32,
    pub max_packet_size: u32,
    pub charset: u8,
    pub username: Seq<char>,
    pub auth_response: Seq<u8>,
    pub database: Option<Seq<char>>,
    pub auth_plugin: Option<Seq<char>>,
}

impl View for HandshakeResponse41 {
    type V = ResponseView;

    open spec fn view(&self) -> ResponseView {
        ResponseView {
            capabilities: self.capabilities,
            max_packet_size: self.max_packet_size,
            charset: self.charset,
            username: self.username@,
            auth_response: self.auth_response@,
            database: self.database.deep_view(),
            auth_plugin: self.auth_plugin.deep_view(),
        }
    }
}

/// A zero-terminated field that must be UTF-8.
pub open spec fn read_text(buf: Seq<u8>, pos: int, field: Seq<char>) -> Parse<Seq<char>> {
    match packet::read_nul(buf, pos) {
        Parse::Failed(e, at) => Parse::Failed(e, at),
        Parse::Got(bytes, next) => match packet::utf8_field(field, bytes) {
            Ok(s) => Parse::Got(s, next),
            Err(e) => Parse::Failed(e, next),
        },
    }
}

/// A zero-terminated text field that is there only if `flag` is among the
/// capabilities and bytes are left.
pub open spec fn read_optional_text(
    buf: Seq<u8>,
    pos: int,
    caps: u32,
    flag: u32,
    field: Seq<char>,
) -> Parse<Option<Seq<char>>> {
    if caps & flag != 0 && pos != buf.len() {
        match read_text(buf, pos, field) {
            Parse::Failed(e, at) => Parse::Failed(e, at),
            Parse::Got(s, next) => Parse::Got(Some(s), next),
        }
    } else {
        Parse::Got(None, pos)
    }
}

/// The authentication response, in the framing that the capabilities call for.
pub open spec fn read_auth(buf: Seq<u8>, pos: int, caps: u32) -> Parse<Seq<u8>> {
    if caps & capabilities::CLIENT_PLUGIN_AUTH_LENENC_CLIENT_DATA != 0 {
        packet::read_lenenc_bytes(buf, pos)
    } else if caps & capabilities::CLIENT_SECURE_CONNECTION != 0 {
        match packet::read_uint(buf, pos, 1) {
            Parse::Failed(e, at) => Parse::Failed(e, at),
            Parse::Got(n, next) => packet::read_bytes(buf, next, n as int),
        }
    } else {
        packet::read_nul(buf, pos)
    }
}

/// The response in a payload: capabilities, packet size, collation, 23 reserved
/// bytes, name, authentication response, database and plugin, in this order.
pub open spec fn response_in(buf: Seq<u8>) -> Result<ResponseView, ErrorView> {
    match packet::read_uint(buf, 0, 4) {
        Parse::Failed(e, _) => Err(e),
        Parse::Got(caps, p) => match packet::read_uint(buf, p, 4) {
            Parse::Failed(e, _) => Err(e),
            Parse::Got(size, p) => match packet::read_uint(buf, p, 1) {
                Parse::Failed(e, _) => Err(e),
                Parse::Got(charset, p) => match packet::read_bytes(buf, p, 23) {
                    Parse::Failed(e, _) => Err(e),
                    Parse::Got(_, p) => response_names(buf, p, caps as u32, size as u32, charset as u8),
                },
            },
        },
    }
}

/// The part of a response behind the fixed-length fields.
pub open spec fn response_names(
    buf: Seq<u8>,
    pos: int,
    caps: u32,
    size: u32,
    charset: u8,
) -> Result<ResponseView, ErrorView> {
    match read_text(buf, pos, "username"@) {
        Parse::Failed(e, _) => Err(e),
        Parse::Got(username, p) => match read_auth(buf, p, caps) {
            Parse::Failed(e, _) => Err(e),
            Parse::Got(auth_response, p) => match read_optional_text(
                buf,
                p,
                caps,
                capabilities::CLIENT_CONNECT_WITH_DB,
                "database"@,
            ) {
                Parse::Failed(e, _) => Err(e),
                Parse::Got(database, p) => match read_optional_text(
                    buf,
                    p,
                    caps,
                    capabilities::CLIENT_PLUGIN_AUTH,
                    "auth_plugin"@,
                ) {
                    Parse::Failed(e, _) => Err(e),
                    Parse::Got(auth_plugin, _) => Ok(
                        ResponseView {
                            capabilities: caps,
                            max_packet_size: size,
                            charset,
                            username,
                            auth_response,
                            database,
                            auth_plugin,
                        },
                    ),
                },
            },
        },
    }
}

/// Reads a zero-terminated field that must be UTF-8.
fn next_text(r: &mut PacketReader, field: &'static str) -> (res: Result<String, ProtocolError>)
    ensures
        final(r).buf() == old(r).buf(),
        PacketReader::left(
            read_text(old(r).buf(), old(r).pos(), field@),
            packet::string_result(res),
            *final(r),
        ),
{
    let bytes = r.null_terminated()?;
    packet::utf8(field, bytes)
}

/// Reads a text field that is there only if `flag` is negotiated.
fn next_optional_text(r: &mut PacketReader, caps: u32, flag: u32, field: &'static str) -> (res:
    Result<Option<String>, ProtocolError>)
    ensures
        final(r).buf() == old(r).buf(),
        match read_optional_text(old(r).buf(), old(r).pos(), caps, flag, field@) {
            Parse::Got(s, next) => res is Ok && res->Ok_0.deep_view() == s && final(r).pos() == next,
            Parse::Failed(e, at) => res is Err && res->Err_0@ == e && final(r).pos() == at,
        },
{
    if caps & flag != 0 && !r.is_empty() {
        let s = next_text(r, field)?;
        Ok(Some(s))
    } else {
        Ok(None)
    }
}

/// Reads the authentication response.
fn next_auth(r: &mut PacketReader, caps: u32) -> (res: Result<Vec<u8>, ProtocolError>)
    ensures
        final(r).buf() == old(r).buf(),
        match read_auth(old(r).buf(), old(r).pos(), caps) {
            Parse::Got(s, next) => res is Ok && res->Ok_0@ == s && final(r).pos() == next,
            Parse::Failed(e, at) => res is Err && res->Err_0@ == e && final(r).pos() == at,
        },
{
    if caps & capabilities::CLIENT_PLUGIN_AUTH_LENENC_CLIENT_DATA != 0 {
        let bytes = r.lenenc_bytes()?;
        Ok(packet::copy_bytes(bytes))
    } else if caps & capabilities::CLIENT_SECURE_CONNECTION != 0 {
        let len: u8 = r.u8()?;
        let bytes = r.bytes(len as usize)?;
        Ok(packet::copy_bytes(bytes))
    } else {
        let bytes = r.null_terminated()?;
        Ok(packet::copy_bytes(bytes))
    }
}

impl HandshakeResponse41 {
    /// Decodes a response.
    pub fn decode(payload: &[u8]) -> (r: Result<Self, ProtocolError>)
        ensures
            match r {
                Ok(response) => response_in(payload@) == Ok::<ResponseView, ErrorView>(response@),
                Err(e) => response_in(payload@) == Err::<ResponseView, ErrorView>(e@),
            },
    {
        let mut r = PacketReader::new(payload);
        let caps: u32 = r.u32()?;
        let max_packet_size: u32 = r.u32()?;
        let charset: u8 = r.u8()?;
        r.skip(23)?;
        let username = next_text(&mut r, "username")?;
        let auth_response = next_auth(&mut r, caps)?;
        let database = next_optional_text(
            &mut r,
            caps,
            capabilities::CLIENT_CONNECT_WITH_DB,
            "database",
        )?;
        let auth_plugin = next_optional_text(
            &mut r,
            caps,
            capabilities::CLIENT_PLUGIN_AUTH,
            "auth_plugin",
        )?;
        Ok(
            HandshakeResponse41 {
                capabilities: caps,
                max_packet_size,
                charset,
                username,
                auth_response,
                database,
                auth_plugin,
            },
        )
    }
}

// ---------------------------------------------------------------------------
// Laws
// ---------------------------------------------------------------------------
/// What a greeting holds, in its order: the protocol's version 10, the server's
/// version and a zero, the connection's id, eight bytes of the scramble and a zero,
/// the low half of the capabilities, the collation, the status, the high half of the
/// capabilities, the length of the scramble and its zero, ten zeros, the other twelve
/// bytes of the scramble and a zero, and the plugin's name and a zero.
#[verifier::rlimit(60)]
pub proof fn greeting_layout(
    version: Seq<char>,
    id: u32,
    scramble: Seq<u8>,
    caps: u32,
    charset: u8,
    flags: u16,
    plugin: Seq<char>,
)
    requires
        scramble.len() == 20,
    ensures
        ({
            let b = greeting(version, id, scramble, caps, charset, flags, plugin);
            let v = utf8::encode_utf8(version);
            let n = v.len() as int;
            &&& b[0] == 10
            &&& b.subrange(1, 1 + n) == v
            &&& b[1 + n] == 0
            &&& b[2 + n] + 0x100 * b[3 + n] + 0x1_0000 * b[4 + n] + 0x100_0000 * b[5 + n] == id
            &&& b.subrange(6 + n, 14 + n) == scramble.take(8)
            &&& b[14 + n] == 0
            &&& b[15 + n] + 0x100 * b[16 + n] + 0x1_0000 * b[20 + n] + 0x100_0000 * b[21 + n]
                == caps
            &&& b[17 + n] == charset
            &&& b[18 + n] + 0x100 * b[19 + n] == flags
            &&& b[22 + n] == 21
            &&& forall|i: int| 23 + n <= i < 33 + n ==> #[trigger] b[i] == 0
            &&& b.subrange(33 + n, 45 + n) == scramble.skip(8)
            &&& b[45 + n] == 0
            &&& b.skip(46 + n) == utf8::encode_utf8(plugin) + seq![0u8]
        }),
{
    let b = greeting(version, id, scramble, caps, charset, flags, plugin);
    let v = utf8::encode_utf8(version);
    let n = v.len() as int;
    let i = packet::le(id as nat, 4);
    let low = packet::le(caps as nat % 65536, 2);
    let high = packet::le(caps as nat / 65536, 2);
    let f = packet::le(flags as nat, 2);
    packet::pow256_values();
    packet::le_reads_back(id as nat, 4);
    packet::le_value_unfolds(i);
    packet::le_reads_back(caps as nat % 65536, 2);
    packet::le_value_unfolds(low);
    packet::le_reads_back(caps as nat / 65536, 2);
    packet::le_value_unfolds(high);
    packet::le_reads_back(flags as nat, 2);
    packet::le_value_unfolds(f);
    assert(b.subrange(1, 1 + n) =~= v);
    let fixed = b.skip(1 + n);
    assert(fixed =~= seq![0u8] + i + scramble.take(8) + seq![0u8] + low + seq![charset] + f + high
        + seq![21u8] + packet::zero_bytes(10) + scramble.skip(8) + seq![0u8] + utf8::encode_utf8(
        plugin,
    ) + seq![0u8]);
    assert forall|k: int| 0 <= k < fixed.len() implies b[1 + n + k] == #[trigger] fixed[k] by {}
    assert(b[1 + n + 0] == fixed[0] && b[1 + n + 1] == fixed[1] && b[1 + n + 2] == fixed[2] && b[1
        + n + 3] == fixed[3] && b[1 + n + 4] == fixed[4]);
    assert(b[1 + n + 13] == fixed[13] && b[1 + n + 14] == fixed[14] && b[1 + n + 15] == fixed[15]
        && b[1 + n + 16] == fixed[16] && b[1 + n + 17] == fixed[17] && b[1 + n + 18] == fixed[18]
        && b[1 + n + 19] == fixed[19] && b[1 + n + 20] == fixed[20] && b[1 + n + 21] == fixed[21]
        && b[1 + n + 44] == fixed[44]);
    assert(b.subrange(6 + n, 14 + n) =~= scramble.take(8));
    assert(b.subrange(33 + n, 45 + n) =~= scramble.skip(8));
    assert(b.skip(46 + n) =~= utf8::encode_utf8(plugin) + seq![0u8]);
}

/// The server speaks protocol 4.1 with authentication plugins and transactions, takes
/// a database name, and offers nothing else: no TLS, no compression, no connection
/// attributes, no packet without an EOF.
pub proof fn server_offers()
    ensures
        server_capabilities() == 0x0008_a20d,
{
    assert(0x0000_0200u32 | 0x0000_8000u32 | 0x0008_0000u32 | 0x0000_0001u32 | 0x0000_2000u32
        | 0x0000_0004u32 | 0x0000_0008u32 == 0x0008_a20du32) by (bit_vector);
}

/// Text and a zero behind it are read back as the text, unless it holds a zero itself.
pub proof fn text_roundtrips(buf: Seq<u8>, pos: int, s: Seq<char>, field: Seq<char>)
    requires
        forall|i: int| 0 <= i < utf8::encode_utf8(s).len() ==> utf8::encode_utf8(s)[i] != 0,
        packet::stands_at(buf, pos, utf8::encode_utf8(s) + seq![0u8]),
    ensures
        read_text(buf, pos, field) == Parse::Got(s, pos + utf8::encode_utf8(s).len() + 1),
{
    packet::nul_roundtrips(buf, pos, utf8::encode_utf8(s));
    utf8::encode_utf8_valid_utf8(s);
    utf8::encode_utf8_decode_utf8(s);
}

/// The authentication response is framed as the capabilities say: with a
/// length-encoded length where the client has `0x200000`, with a one-byte length where
/// it has only `0x8000`, and up to a zero where it has neither.
pub proof fn auth_framings(buf: Seq<u8>, pos: int, caps: u32, auth: Seq<u8>)
    requires
        auth.len() <= usize::MAX,
    ensures
        caps & 0x0020_0000 != 0 && packet::stands_at(buf, pos, packet::lenenc_string(auth))
            ==> read_auth(buf, pos, caps) == Parse::Got(
            auth,
            pos + packet::lenenc_string(auth).len(),
        ),
        caps & 0x0020_0000 == 0 && caps & 0x8000 != 0 && auth.len() < 256 && packet::stands_at(
            buf,
            pos,
            seq![auth.len() as u8] + auth,
        ) ==> read_auth(buf, pos, caps) == Parse::Got(auth, pos + 1 + auth.len()),
        caps & 0x0020_0000 == 0 && caps & 0x8000 == 0 && (forall|i: int|
            0 <= i < auth.len() ==> auth[i] != 0) && packet::stands_at(buf, pos, auth + seq![0u8])
            ==> read_auth(buf, pos, caps) == Parse::Got(auth, pos + auth.len() + 1),
{
    if caps & 0x0020_0000 != 0 {
        if packet::stands_at(buf, pos, packet::lenenc_string(auth)) {
            packet::lenenc_string_roundtrips(buf, pos, auth);
        }
    } else if caps & 0x8000 != 0 {
        let b = seq![auth.len() as u8] + auth;
        if auth.len() < 256 && packet::stands_at(buf, pos, b) {
            let here = buf.subrange(pos, pos + b.len());
            assert(here[0] == b[0]);
            assert(buf.subrange(pos, pos + 1) =~= seq![auth.len() as u8]);
            packet::le_value_unfolds(seq![auth.len() as u8]);
            assert(buf.subrange(pos + 1, pos + 1 + auth.len()) =~= here.skip(1));
            assert(here.skip(1) =~= auth);
        }
    } else {
        if (forall|i: int| 0 <= i < auth.len() ==> auth[i] != 0) && packet::stands_at(
            buf,
            pos,
            auth + seq![0u8],
        ) {
            packet::nul_roundtrips(buf, pos, auth);
        }
    }
}

/// A database is read only from a client that has `0x08`, and a plugin only from one
/// that has `0x80000`; both may be missing at the end.
pub proof fn optional_fields(buf: Seq<u8>, pos: int, caps: u32, flag: u32, field: Seq<char>)
    ensures
        caps & flag == 0 || pos == buf.len() ==> read_optional_text(buf, pos, caps, flag, field)
            == Parse::Got(None::<Seq<char>>, pos),
        caps & flag != 0 && pos != buf.len() ==> match read_text(buf, pos, field) {
            Parse::Got(s, next) => read_optional_text(buf, pos, caps, flag, field) == Parse::Got(
                Some(s),
                next,
            ),
            Parse::Failed(e, at) => read_optional_text(buf, pos, caps, flag, field)
                == Parse::<Option<Seq<char>>>::Failed(e, at),
        },
{
}

/// A client's answer is read as it was sent: the capabilities, the largest packet, the
/// collation, 23 bytes that mean nothing, the name and a zero, the authentication
/// response behind a one-byte length, the database and a zero, and the plugin and a
/// zero.
#[verifier::rlimit(60)]
pub proof fn response_reads_back(r: ResponseView, reserved: Seq<u8>)
    requires
        reserved.len() == 23,
        r.capabilities & 0x0020_0000 == 0,
        r.capabilities & 0x8000 != 0,
        r.capabilities & 0x08 != 0,
        r.capabilities & 0x0008_0000 != 0,
        r.auth_response.len() < 256,
        r.database is Some,
        r.auth_plugin is Some,
        forall|i: int|
            0 <= i < utf8::encode_utf8(r.username).len() ==> utf8::encode_utf8(r.username)[i] != 0,
        forall|i: int|
            0 <= i < utf8::encode_utf8(r.database->0).len() ==> utf8::encode_utf8(r.database->0)[i]
                != 0,
        forall|i: int|
            0 <= i < utf8::encode_utf8(r.auth_plugin->0).len() ==> utf8::encode_utf8(
                r.auth_plugin->0,
            )[i] != 0,
    ensures
        response_in(
            packet::le(r.capabilities as nat, 4) + packet::le(r.max_packet_size as nat, 4)
                + seq![r.charset] + reserved + (utf8::encode_utf8(r.username) + seq![0u8]) + (
            seq![r.auth_response.len() as u8] + r.auth_response) + (utf8::encode_utf8(
                r.database->0,
            ) + seq![0u8]) + (utf8::encode_utf8(r.auth_plugin->0) + seq![0u8]),
        ) == Ok::<ResponseView, ErrorView>(r),
{
    let caps = packet::le(r.capabilities as nat, 4);
    let size = packet::le(r.max_packet_size as nat, 4);
    let name = utf8::encode_utf8(r.username) + seq![0u8];
    let auth = seq![r.auth_response.len() as u8] + r.auth_response;
    let database = utf8::encode_utf8(r.database->0) + seq![0u8];
    let plugin = utf8::encode_utf8(r.auth_plugin->0) + seq![0u8];
    let buf = caps + size + seq![r.charset] + reserved + name + auth + database + plugin;
    packet::pow256_values();
    packet::le_reads_back(r.capabilities as nat, 4);
    packet::le_reads_back(r.max_packet_size as nat, 4);
    assert(buf.subrange(0, 4) =~= caps);
    assert(buf.subrange(4, 8) =~= size);
    assert(buf.subrange(8, 9) =~= seq![r.charset]);
    packet::le_value_unfolds(seq![r.charset]);
    let p = 32 + name.len() as int;
    let q = p + auth.len() as int;
    let s = q + database.len() as int;
    assert(buf.subrange(32, p) =~= name);
    text_roundtrips(buf, 32, r.username, "username"@);
    assert(buf.subrange(p, q) =~= auth);
    auth_framings(buf, p, r.capabilities, r.auth_response);
    assert(buf.subrange(q, s) =~= database);
    text_roundtrips(buf, q, r.database->0, "database"@);
    assert(buf.subrange(s, s + plugin.len()) =~= plugin);
    text_roundtrips(buf, s, r.auth_plugin->0, "auth_plugin"@);
}

} // verus!
