use crate::cipher::{lemma_cipher_round_trip, xor_bytes, xor_cipher};
use crate::frame::{encode_frame, frame_decoding, frame_of, lemma_frame_round_trip, FrameError, MAX_FRAME_LEN};
use crate::handshake::Role;
use crate::keystream::{keystream_of, state_after, KeystreamGenerator};
use crate::text::string_from_utf8;
use vstd::prelude::*;
use vstd::string::StringSliceAdditionalSpecFns;
use vstd::utf8::{decode_utf8, encode_utf8, encode_utf8_decode_utf8, encode_utf8_valid_utf8, valid_utf8};

verus! {

/// The frame sent for a non-empty line: its UTF-8 bytes enciphered with the
/// keystream from state `s`, behind their length.
pub open spec fn sealed_frame(s: u64, line: Seq<u8>) -> Seq<u8> {
    frame_of(xor_bytes(line, keystream_of(s, line.len())))
}

/// The plaintext bytes of a received payload deciphered with the keystream
/// from state `s`.
pub open spec fn opened_bytes(s: u64, payload: Seq<u8>) -> Seq<u8> {
    xor_bytes(payload, keystream_of(s, payload.len()))
}

/// An established chat: the role taken in the handshake and one keystream
/// per direction, both seeded with the shared secret.
pub struct ChatSession {
    role: Role,
    sender: Sender,
    receiver: Receiver,
}

/// The sending direction; its view is the state of its keystream.
pub struct Sender {
    keystream: KeystreamGenerator,
}

/// The receiving direction; its view is the state of its keystream.
pub struct Receiver {
    keystream: KeystreamGenerator,
}

impl View for Sender {
    type V = u64;

    closed spec fn view(&self) -> u64 {
        self.keystream@
    }
}

impl View for Receiver {
    type V = u64;

    closed spec fn view(&self) -> u64 {
        self.keystream@
    }
}

impl ChatSession {
    /// Seeds both directions' keystreams with the shared secret.
    pub fn new(role: Role, shared_secret: u64) -> (r: ChatSession)
        ensures
            r.spec_role() == role,
            r.spec_sender()@ == shared_secret,
            r.spec_receiver()@ == shared_secret,
    {
        ChatSession {
            role,
            sender: Sender { keystream: KeystreamGenerator::new(shared_secret) },
            receiver: Receiver { keystream: KeystreamGenerator::new(shared_secret) },
        }
    }

    pub closed spec fn spec_role(&self) -> Role {
        self.role
    }

    pub closed spec fn spec_sender(&self) -> Sender {
        self.sender
    }

    pub closed spec fn spec_receiver(&self) -> Receiver {
        self.receiver
    }

    /// The role taken in the handshake.
    pub fn role(&self) -> (r: Role)
        ensures
            r == self.spec_role(),
    {
        self.role
    }

    /// Hands the two directions to their own loops.
    pub fn split(self) -> (r: (Sender, Receiver))
        ensures
            r.0@ == self.spec_sender()@,
            r.1@ == self.spec_receiver()@,
    {
        (self.sender, self.receiver)
    }
}

impl Sender {
    /// Turns one input line into the frame to write: an empty line yields
    /// nothing and leaves the keystream alone; any other line is enciphered
    /// byte for byte and framed.
    pub fn seal_line(&mut self, line: &str) -> (r: Option<Vec<u8>>)
        requires
            line.spec_bytes().len() <= u32::MAX,
        ensures
            line.spec_bytes().len() == 0 ==> r is None && final(self)@ == old(self)@,
            line.spec_bytes().len() > 0 ==> r is Some,
            r matches Some(f) ==> f@ == sealed_frame(old(self)@, line.spec_bytes()),
            final(self)@ == state_after(old(self)@, line.spec_bytes().len()),
    {
        let bytes = line.as_bytes();
        if bytes.len() == 0 {
            return None;
        }
        let cipher = xor_cipher(bytes, &mut self.keystream);
        Some(encode_frame(cipher.as_slice()))
    }
}

impl Receiver {
    /// Deciphers one received payload; the text is handed back only when the
    /// plaintext is valid UTF-8, and the keystream advances either way.
    pub fn open_payload(&mut self, payload: &[u8]) -> (r: Option<String>)
        ensures
            final(self)@ == state_after(old(self)@, payload@.len()),
            r is Some <==> valid_utf8(opened_bytes(old(self)@, payload@)),
            r matches Some(s) ==> s@ == decode_utf8(opened_bytes(old(self)@, payload@)),
    {
        let plain = xor_cipher(payload, &mut self.keystream);
        string_from_utf8(plain)
    }
}

/// Chat round trip: when both directions start from the same keystream
/// state, the frame sealed for a line of at most `MAX_FRAME_LEN` bytes reads
/// back as one whole frame whose payload opens to valid UTF-8 that decodes
/// to exactly that line.
pub proof fn lemma_chat_round_trip(s: u64, line: Seq<char>)
    requires
        encode_utf8(line).len() <= MAX_FRAME_LEN,
    ensures
        ({
            let bytes = encode_utf8(line);
            let payload = xor_bytes(bytes, keystream_of(s, bytes.len()));
            &&& frame_decoding(sealed_frame(s, bytes)) == Ok::<(Seq<u8>, nat), FrameError>(
                (payload, 4 + bytes.len()),
            )
            &&& opened_bytes(s, payload) == bytes
            &&& valid_utf8(opened_bytes(s, payload))
            &&& decode_utf8(opened_bytes(s, payload)) == line
        }),
{
    let bytes = encode_utf8(line);
    let payload = xor_bytes(bytes, keystream_of(s, bytes.len()));
    lemma_frame_round_trip(payload);
    lemma_cipher_round_trip(bytes, s);
    encode_utf8_valid_utf8(line);
    encode_utf8_decode_utf8(line);
}

} // verus!
