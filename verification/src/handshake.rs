//! The login exchange: one framed request from the client, one framed answer
//! from the server, or the close of the connection with a code that says why.

use crate::error::FramingError;
use crate::framing::frame;
use crate::net::{NetworkId, PROTOCOL_MAGIC, PROTOCOL_VERSION};
use crate::serialization::byte_reader::ByteReader;
use crate::serialization::byte_writer::ByteWriter;
use crate::serialization::wire::{
    decode_u16, decode_u32, decode_u64, encode_str, encode_u16, encode_u32, encode_u64,
    lemma_overwrite_peek, lemma_str_round_trip, lemma_unsigned_round_trip, overwrite, parse_str,
};
use vstd::pervasive::unreached;
use vstd::prelude::*;
use vstd::string::StringSliceAdditionalSpecFns;
use vstd::utf8::{decode_utf8_encode_utf8, encode_utf8};

verus! {

/// Close code for a request that is malformed or speaks another protocol.
pub const CLOSE_MALFORMED: u32 = 1;

/// Close code for an identity that the server does not take.
pub const CLOSE_REJECTED: u32 = 2;

/// Least number of bytes in a username.
pub const MIN_USERNAME_LEN: usize = 3;

/// Number of bytes of the accept payload.
pub const RESPONSE_LEN: usize = 30;

/// Number of bytes of a request before the bytes of the username: magic,
/// version and the length of the username.
pub const REQUEST_FIXED_LEN: usize = 6;

/// The two fields by which peers tell that they speak the same protocol.
#[derive(Debug, Clone, Copy, PartialEq, Eq, Structural)]
pub struct ProtocolHeader {
    /// Tag of the protocol.
    pub magic: u16,
    /// Version of the protocol.
    pub version: u16,
}

impl ProtocolHeader {
    /// The header of this build.
    pub fn current() -> (h: Self)
        ensures
            h == (ProtocolHeader { magic: PROTOCOL_MAGIC, version: PROTOCOL_VERSION }),
    {
        ProtocolHeader { magic: PROTOCOL_MAGIC, version: PROTOCOL_VERSION }
    }

    /// Whether both fields are exactly those of this build.
    pub fn is_current(&self) -> (b: bool)
        ensures
            b == (self.magic == PROTOCOL_MAGIC && self.version == PROTOCOL_VERSION),
    {
        self.magic == PROTOCOL_MAGIC && self.version == PROTOCOL_VERSION
    }
}

/// Three 32-bit floats, each held as its IEEE-754 bit pattern.
#[derive(Debug, Clone, Copy, PartialEq, Eq, Structural)]
pub struct Vec3Bits {
    /// Bits of the first coordinate.
    pub x: u32,
    /// Bits of the second coordinate.
    pub y: u32,
    /// Bits of the third coordinate.
    pub z: u32,
}

/// Two 32-bit floats, each held as its IEEE-754 bit pattern.
#[derive(Debug, Clone, Copy, PartialEq, Eq, Structural)]
pub struct Vec2Bits {
    /// Bits of the first coordinate.
    pub x: u32,
    /// Bits of the second coordinate.
    pub y: u32,
}

/// What the server tells a client that it lets in.
#[derive(Debug, Clone, Copy, PartialEq, Eq, Structural)]
pub struct LoginResponse {
    /// The handle of the client's entity.
    pub nid: NetworkId,
    /// Where the entity spawns.
    pub position: Vec3Bits,
    /// Yaw and pitch of the entity's head.
    pub head_rotation: Vec2Bits,
    /// Seed of the world.
    pub world_seed: u64,
}

/// The answer of the game loop to a login.
pub enum LoginResult {
    /// The client is let in, with this state.
    Accepted(LoginResponse),
    /// The client is turned away, for this reason.
    Denied {
        /// Why, in words for the client.
        reason: String,
    },
}

/// Why a login fails on the server.
#[derive(Debug, Clone, Copy, PartialEq, Eq, Structural)]
pub enum LoginRejection {
    /// The request is too short, has another magic or version, or its
    /// username is cut off or is not UTF-8.
    Malformed,
    /// The username has fewer than three bytes.
    UsernameTooShort,
}

impl LoginRejection {
    /// The code with which the connection is closed: 1 for a malformed
    /// request, 2 for an identity that is not taken.
    pub open spec fn spec_close_code(&self) -> u32 {
        match self {
            LoginRejection::Malformed => CLOSE_MALFORMED,
            LoginRejection::UsernameTooShort => CLOSE_REJECTED,
        }
    }

    /// The reason that goes into the close frame.
    pub open spec fn spec_close_reason(&self) -> Seq<char> {
        match self {
            LoginRejection::Malformed => "Invalid login request"@,
            LoginRejection::UsernameTooShort => "Username too short"@,
        }
    }

    /// The code with which the connection is closed.
    pub fn close_code(&self) -> (code: u32)
        ensures
            code == self.spec_close_code(),
    {
        match self {
            LoginRejection::Malformed => CLOSE_MALFORMED,
            LoginRejection::UsernameTooShort => CLOSE_REJECTED,
        }
    }

    /// The reason that goes into the close frame.
    pub fn close_reason(&self) -> (reason: &'static str)
        ensures
            reason@ == self.spec_close_reason(),
    {
        match self {
            LoginRejection::Malformed => "Invalid login request",
            LoginRejection::UsernameTooShort => "Username too short",
        }
    }
}

/// Why a login fails on the client once the server has answered.
#[derive(Debug, Clone, Copy, PartialEq, Eq, Structural)]
pub enum ResponseError {
    /// The answer has fewer than the 30 bytes of an accept payload.
    TooShort {
        /// Number of bytes that came.
        got: usize,
    },
}

/// The payload of a login request: magic, version, then the username as a
/// string.
pub open spec fn request_payload(header: ProtocolHeader, username: Seq<char>) -> Seq<u8> {
    encode_u16(header.magic) + encode_u16(header.version) + encode_str(username)
}

/// What the server makes of the payload of a request: the username, or the
/// reason to close the connection.
pub open spec fn parse_request(payload: Seq<u8>) -> Result<Seq<char>, LoginRejection> {
    if payload.len() < REQUEST_FIXED_LEN {
        Err(LoginRejection::Malformed)
    } else if decode_u16(payload.subrange(0, 2)) != PROTOCOL_MAGIC {
        Err(LoginRejection::Malformed)
    } else if decode_u16(payload.subrange(2, 4)) != PROTOCOL_VERSION {
        Err(LoginRejection::Malformed)
    } else {
        match parse_str(payload.subrange(4, payload.len() as int)) {
            Err(_) => Err(LoginRejection::Malformed),
            Ok((username, used)) => if used < 2 + MIN_USERNAME_LEN {
                Err(LoginRejection::UsernameTooShort)
            } else {
                Ok(username)
            },
        }
    }
}

/// The accept payload: handle, position, head rotation and seed, 30 bytes.
pub open spec fn response_payload(response: LoginResponse) -> Seq<u8> {
    encode_u16(response.nid@) + encode_u32(response.position.x) + encode_u32(response.position.y)
        + encode_u32(response.position.z) + encode_u32(response.head_rotation.x) + encode_u32(
        response.head_rotation.y,
    ) + encode_u64(response.world_seed)
}

/// What the client makes of the payload of an answer: the accept state, or
/// nothing where fewer than 30 bytes came. Bytes after the first 30 are not
/// looked at.
pub open spec fn parse_response(payload: Seq<u8>) -> Option<LoginResponse> {
    if payload.len() < RESPONSE_LEN {
        None
    } else {
        Some(
            LoginResponse {
                nid: NetworkId::spec_from_raw(decode_u16(payload.subrange(0, 2))),
                position: Vec3Bits {
                    x: decode_u32(payload.subrange(2, 6)),
                    y: decode_u32(payload.subrange(6, 10)),
                    z: decode_u32(payload.subrange(10, 14)),
                },
                head_rotation: Vec2Bits {
                    x: decode_u32(payload.subrange(14, 18)),
                    y: decode_u32(payload.subrange(18, 22)),
                },
                world_seed: decode_u64(payload.subrange(22, 30)),
            },
        )
    }
}

/// Round trip of the answer: the accept payload has 30 bytes, and the client
/// reads from it exactly the state that the server wrote.
pub proof fn lemma_response_round_trip(response: LoginResponse)
    ensures
        response_payload(response).len() == RESPONSE_LEN,
        parse_response(response_payload(response)) == Some(response),
{
    let p = response_payload(response);
    lemma_unsigned_round_trip(0, response.nid@, response.position.x, response.world_seed);
    lemma_unsigned_round_trip(0, 0, response.position.y, 0);
    lemma_unsigned_round_trip(0, 0, response.position.z, 0);
    lemma_unsigned_round_trip(0, 0, response.head_rotation.x, 0);
    lemma_unsigned_round_trip(0, 0, response.head_rotation.y, 0);
    assert(p.subrange(0, 2) =~= encode_u16(response.nid@));
    assert(p.subrange(2, 6) =~= encode_u32(response.position.x));
    assert(p.subrange(6, 10) =~= encode_u32(response.position.y));
    assert(p.subrange(10, 14) =~= encode_u32(response.position.z));
    assert(p.subrange(14, 18) =~= encode_u32(response.head_rotation.x));
    assert(p.subrange(18, 22) =~= encode_u32(response.head_rotation.y));
    assert(p.subrange(22, 30) =~= encode_u64(response.world_seed));
    NetworkId::lemma_from_raw(response.nid);
}

/// What the server makes of a well-formed request: a username of at least
/// three bytes is taken, a shorter one is turned away as too short.
pub proof fn lemma_request_round_trip(username: Seq<char>)
    requires
        encode_utf8(username).len() <= u16::MAX,
    ensures
        parse_request(
            request_payload(
                ProtocolHeader { magic: PROTOCOL_MAGIC, version: PROTOCOL_VERSION },
                username,
            ),
        ) == (if encode_utf8(username).len() >= MIN_USERNAME_LEN {
            Ok::<Seq<char>, LoginRejection>(username)
        } else {
            Err::<Seq<char>, LoginRejection>(LoginRejection::UsernameTooShort)
        }),
{
    let header = ProtocolHeader { magic: PROTOCOL_MAGIC, version: PROTOCOL_VERSION };
    let p = request_payload(header, username);
    lemma_unsigned_round_trip(0, PROTOCOL_MAGIC, 0, 0);
    lemma_unsigned_round_trip(0, PROTOCOL_VERSION, 0, 0);
    lemma_str_round_trip(username, Seq::<u8>::empty());
    assert(p.subrange(0, 2) =~= encode_u16(PROTOCOL_MAGIC));
    assert(p.subrange(2, 4) =~= encode_u16(PROTOCOL_VERSION));
    assert(p.subrange(4, p.len() as int) =~= encode_str(username) + Seq::<u8>::empty());
}

/// A request with another magic or another version is malformed, whatever
/// else it holds.
pub proof fn lemma_mismatch_is_malformed(header: ProtocolHeader, username: Seq<char>)
    requires
        header.magic != PROTOCOL_MAGIC || header.version != PROTOCOL_VERSION,
    ensures
        parse_request(request_payload(header, username)) == Err::<Seq<char>, LoginRejection>(
            LoginRejection::Malformed,
        ),
{
    let p = request_payload(header, username);
    lemma_unsigned_round_trip(0, header.magic, 0, 0);
    lemma_unsigned_round_trip(0, header.version, 0, 0);
    assert(p.subrange(0, 2) =~= encode_u16(header.magic));
    assert(p.subrange(2, 4) =~= encode_u16(header.version));
}

/// Writes the framed login request of `username` at the start of `dst` and
/// returns it. A username that makes the payload longer than an envelope
/// can hold is refused before anything is written.
pub fn encode_login_request<'a>(dst: &'a mut [u8], username: &str) -> (r: Result<
    &'a [u8],
    FramingError,
>)
    requires
        old(dst)@.len() >= 2 + REQUEST_FIXED_LEN + username.spec_bytes().len(),
    ensures
        REQUEST_FIXED_LEN + username.spec_bytes().len() <= u16::MAX <==> r is Ok,
        r matches Ok(bytes) ==> {
            let framed = frame(
                request_payload(
                    ProtocolHeader { magic: PROTOCOL_MAGIC, version: PROTOCOL_VERSION },
                    username@,
                ),
            );
            bytes@ == framed && final(dst)@ == overwrite(old(dst)@, 0, framed)
        },
        r matches Err(e) ==> e == FramingError::Oversized && final(dst)@ == old(dst)@,
{
    if username.as_bytes().len() > 65535 - REQUEST_FIXED_LEN {
        return Err(FramingError::Oversized);
    }
    let ghost before = dst@;
    let ghost header = ProtocolHeader { magic: PROTOCOL_MAGIC, version: PROTOCOL_VERSION };
    let ghost payload = request_payload(header, username@);
    let mut writer = ByteWriter::new_for_message(dst);
    writer.write_u16(PROTOCOL_MAGIC);
    writer.write_u16(PROTOCOL_VERSION);
    writer.write_str(username);
    let ghost written = writer@.buf;
    proof {
        assert(written =~= overwrite(before, 2, payload));
        lemma_overwrite_peek(before, 2, payload);
    }
    if writer.write_message_len().is_err() {
        proof {
            assert(false);
        }
        return Err(FramingError::Oversized);
    }
    let ghost last = writer@.buf;
    let bytes = writer.into_bytes();
    proof {
        lemma_overwrite_peek(written, 0, encode_u16(payload.len() as u16));
        assert(bytes@ =~= frame(payload));
        assert(last =~= overwrite(before, 0, frame(payload)));
    }
    Ok(bytes)
}

/// Reads a login request from its payload, as the server does: the header
/// must be exactly that of this build, and the username must be UTF-8 of at
/// least three bytes.
pub fn validate_login_request<'a>(payload: &'a [u8]) -> (r: Result<&'a str, LoginRejection>)
    ensures
        match parse_request(payload@) {
            Ok(username) => r is Ok && r->Ok_0@ == username,
            Err(e) => r is Err && r->Err_0 == e,
        },
{
    let mut reader = ByteReader::new(payload);
    if reader.bytes_remaining() < REQUEST_FIXED_LEN {
        return Err(LoginRejection::Malformed);
    }
    let magic = reader.read_u16();
    proof {
        assert(reader@.peek(2) =~= payload@.subrange(2, 4));
    }
    let version = reader.read_u16();
    proof {
        assert(reader@.remaining() =~= payload@.subrange(4, payload@.len() as int));
    }
    match (magic, version) {
        (Ok(PROTOCOL_MAGIC), Ok(PROTOCOL_VERSION)) => {},
        _ => {
            return Err(LoginRejection::Malformed);
        },
    }
    match reader.read_str() {
        Err(_) => Err(LoginRejection::Malformed),
        Ok(username) => {
            proof {
                let field = payload@.subrange(4, payload@.len() as int);
                let declared = decode_u16(field.subrange(0, 2)) as int;
                decode_utf8_encode_utf8(field.subrange(2, 2 + declared));
            }
            if username.as_bytes().len() < MIN_USERNAME_LEN {
                Err(LoginRejection::UsernameTooShort)
            } else {
                Ok(username)
            }
        },
    }
}

/// Writes the framed accept payload of `response` at the start of `dst` and
/// returns it.
pub fn encode_login_response<'a>(dst: &'a mut [u8], response: &LoginResponse) -> (bytes: &'a [u8])
    requires
        old(dst)@.len() >= 2 + RESPONSE_LEN,
    ensures
        bytes@ == frame(response_payload(*response)),
        final(dst)@ == overwrite(old(dst)@, 0, frame(response_payload(*response))),
{
    let ghost before = dst@;
    let ghost payload = response_payload(*response);
    let mut writer = ByteWriter::new_for_message(dst);
    writer.write_u16(response.nid.raw());
    writer.write_u32(response.position.x);
    writer.write_u32(response.position.y);
    writer.write_u32(response.position.z);
    writer.write_u32(response.head_rotation.x);
    writer.write_u32(response.head_rotation.y);
    writer.write_u64(response.world_seed);
    let ghost written = writer@.buf;
    proof {
        lemma_response_round_trip(*response);
        assert(written =~= overwrite(before, 2, payload));
        lemma_overwrite_peek(before, 2, payload);
    }
    if writer.write_message_len().is_err() {
        proof {
            assert(false);
        }
        unreached()
    } else {
        let ghost last = writer@.buf;
        let bytes = writer.into_bytes();
        proof {
            lemma_overwrite_peek(written, 0, encode_u16(payload.len() as u16));
            assert(bytes@ =~= frame(payload));
            assert(last =~= overwrite(before, 0, frame(payload)));
        }
        bytes
    }
}

/// Reads the accept state from the payload of the server's answer. An
/// answer of fewer than 30 bytes is a failure of the login.
pub fn decode_login_response(payload: &[u8]) -> (r: Result<LoginResponse, ResponseError>)
    ensures
        match parse_response(payload@) {
            Some(response) => r == Ok::<LoginResponse, ResponseError>(response),
            None => r == Err::<LoginResponse, ResponseError>(
                ResponseError::TooShort { got: payload@.len() as usize },
            ),
        },
{
    let mut reader = ByteReader::new(payload);
    if reader.bytes_remaining() < RESPONSE_LEN {
        return Err(ResponseError::TooShort { got: payload.len() });
    }
    let nid = reader.read_u16();
    proof {
        assert(reader@.peek(4) =~= payload@.subrange(2, 6));
    }
    let x = reader.read_u32();
    proof {
        assert(reader@.peek(4) =~= payload@.subrange(6, 10));
    }
    let y = reader.read_u32();
    proof {
        assert(reader@.peek(4) =~= payload@.subrange(10, 14));
    }
    let z = reader.read_u32();
    proof {
        assert(reader@.peek(4) =~= payload@.subrange(14, 18));
    }
    let yaw = reader.read_u32();
    proof {
        assert(reader@.peek(4) =~= payload@.subrange(18, 22));
    }
    let pitch = reader.read_u32();
    proof {
        assert(reader@.peek(8) =~= payload@.subrange(22, 30));
    }
    let seed = reader.read_u64();
    match (nid, x, y, z, yaw, pitch, seed) {
        (Ok(nid), Ok(x), Ok(y), Ok(z), Ok(yaw), Ok(pitch), Ok(seed)) => Ok(
            LoginResponse {
                nid: NetworkId::from_raw(nid),
                position: Vec3Bits { x, y, z },
                head_rotation: Vec2Bits { x: yaw, y: pitch },
                world_seed: seed,
            },
        ),
        _ => Err(ResponseError::TooShort { got: payload.len() }),
    }
}

} // verus!
