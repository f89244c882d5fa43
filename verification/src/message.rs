//! The messages that a client sends to the server once it is logged in.

use crate::error::DecodeError;
use crate::serialization::byte_reader::ByteReader;
use crate::serialization::byte_writer::ByteWriter;
use crate::serialization::wire::{
    encode_str, encode_u8, lemma_str_round_trip, overwrite, parse_str,
};
use vstd::prelude::*;
use vstd::string::StringSliceAdditionalSpecFns;
use vstd::utf8::encode_utf8;

verus! {

/// The byte that opens a chat message.
pub const CHAT_TAG: u8 = 1;

/// A message from a client.
pub enum InMsg<'a> {
    /// A line of chat.
    Chat(&'a str),
}

/// What an [`InMsg`] says.
pub enum InMsgView {
    /// A line of chat with its characters.
    Chat(Seq<char>),
}

impl<'a> View for InMsg<'a> {
    type V = InMsgView;

    open spec fn view(&self) -> InMsgView {
        match self {
            InMsg::Chat(text) => InMsgView::Chat(text@),
        }
    }
}

/// The wire form of a message: the byte of its kind, then its fields.
pub open spec fn encode_in_msg(msg: InMsgView) -> Seq<u8> {
    match msg {
        InMsgView::Chat(text) => encode_u8(CHAT_TAG) + encode_str(text),
    }
}

/// The message at the start of `bytes`, or the reason why there is none.
pub open spec fn parse_in_msg(bytes: Seq<u8>) -> Result<InMsgView, DecodeError> {
    if bytes.len() < 1 {
        Err(DecodeError::OutOfBounds)
    } else if bytes[0] != CHAT_TAG {
        Err(DecodeError::UnknownTag)
    } else {
        match parse_str(bytes.subrange(1, bytes.len() as int)) {
            Ok((text, _)) => Ok(InMsgView::Chat(text)),
            Err(e) => Err(e),
        }
    }
}

/// Round trip of messages: a chat line whose UTF-8 form has at most 65535
/// bytes is read back from its wire form, whatever follows it.
pub proof fn lemma_in_msg_round_trip(text: Seq<char>, rest: Seq<u8>)
    requires
        encode_utf8(text).len() <= u16::MAX,
    ensures
        parse_in_msg(encode_in_msg(InMsgView::Chat(text)) + rest) == Ok::<InMsgView, DecodeError>(
            InMsgView::Chat(text),
        ),
{
    let all = encode_in_msg(InMsgView::Chat(text)) + rest;
    lemma_str_round_trip(text, rest);
    assert(all.subrange(1, all.len() as int) =~= encode_str(text) + rest);
}

impl<'a> InMsg<'a> {
    /// Reads the message that `stream` starts with.
    pub fn decode(stream: &'a [u8]) -> (r: Result<Self, DecodeError>)
        ensures
            match parse_in_msg(stream@) {
                Ok(msg) => r is Ok && r->Ok_0@ == msg,
                Err(e) => r is Err && r->Err_0 == e,
            },
    {
        let mut reader = ByteReader::new(stream);
        let tag = match reader.read_u8() {
            Ok(tag) => tag,
            Err(e) => {
                return Err(e);
            },
        };
        proof {
            assert(reader@.remaining() =~= stream@.subrange(1, stream@.len() as int));
            assert(stream@.subrange(0, 1)[0] == stream@[0]);
        }
        if tag != CHAT_TAG {
            return Err(DecodeError::UnknownTag);
        }
        match reader.read_str() {
            Ok(text) => Ok(InMsg::Chat(text)),
            Err(e) => Err(e),
        }
    }

    /// Writes the message at the cursor of `dst`.
    pub fn encode(&self, dst: &mut ByteWriter<'_>)
        requires
            match self {
                InMsg::Chat(text) => text.spec_bytes().len() <= u16::MAX && old(dst)@.pos + 3
                    + text.spec_bytes().len() <= old(dst)@.buf.len(),
            },
        ensures
            final(dst).wrote(old(dst), encode_in_msg(self@)),
            final(final(dst).target())@ == final(old(dst).target())@,
    {
        match self {
            InMsg::Chat(text) => {
                dst.write_u8(CHAT_TAG).write_str(text);
                proof {
                    assert(dst@.buf =~= overwrite(
                        old(dst)@.buf,
                        old(dst)@.pos as int,
                        encode_in_msg(self@),
                    ));
                }
            },
        }
    }
}

/// The line that the server passes on for a chat payload: the bytes of the
/// sender's name, a colon and a space, and the bytes of the text.
pub open spec fn chat_line(username: Seq<char>, text: Seq<char>) -> Seq<u8> {
    encode_utf8(username) + seq![0x3Au8, 0x20u8] + encode_utf8(text)
}

/// Makes the line that the server passes on from the payload of a chat
/// message, which holds the text as a string.
pub fn relay_chat(username: &str, payload: &[u8]) -> (r: Result<Vec<u8>, DecodeError>)
    ensures
        match parse_str(payload@) {
            Ok((text, _)) => r is Ok && r->Ok_0@ == chat_line(username@, text),
            Err(e) => r is Err && r->Err_0 == e,
        },
{
    let mut reader = ByteReader::new(payload);
    proof {
        assert(reader@.remaining() =~= payload@);
    }
    let text = match reader.read_str() {
        Ok(text) => text,
        Err(e) => {
            return Err(e);
        },
    };
    let mut line: Vec<u8> = Vec::new();
    append(&mut line, username.as_bytes());
    line.push(0x3A);
    line.push(0x20);
    append(&mut line, text.as_bytes());
    proof {
        assert(line@ =~= chat_line(username@, text@));
    }
    Ok(line)
}

/// Appends the bytes of `src` to `dst`.
fn append(dst: &mut Vec<u8>, src: &[u8])
    ensures
        final(dst)@ == old(dst)@ + src@,
{
    let mut i: usize = 0;
    while i < src.len()
        invariant
            i <= src@.len(),
            dst@ == old(dst)@ + src@.subrange(0, i as int),
        decreases src@.len() - i,
    {
        dst.push(src[i]);
        i = i + 1;
        proof {
            assert(dst@ =~= old(dst)@ + src@.subrange(0, i as int));
        }
    }
    proof {
        assert(src@.subrange(0, src@.len() as int) =~= src@);
    }
}

} // verus!
