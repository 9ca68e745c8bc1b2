use crate::keystream::{keystream_of, output_byte, state_after, KeystreamGenerator};
use vstd::prelude::*;

verus! {

/// Byte-wise XOR of `data` with the first `data.len()` bytes of `key`.
pub open spec fn xor_bytes(data: Seq<u8>, key: Seq<u8>) -> Seq<u8>
    recommends
        data.len() <= key.len(),
{
    Seq::new(data.len(), |i: int| data[i] ^ key[i])
}

/// XORs each byte of `data` with the next byte of the keystream, consuming
/// exactly one keystream byte per data byte.
pub fn xor_cipher(data: &[u8], keystream: &mut KeystreamGenerator) -> (r: Vec<u8>)
    ensures
        r@ == xor_bytes(data@, keystream_of(old(keystream)@, data@.len())),
        final(keystream)@ == state_after(old(keystream)@, data@.len()),
{
    let ghost s0 = keystream@;
    let mut out: Vec<u8> = Vec::with_capacity(data.len());
    let mut i: usize = 0;
    while i < data.len()
        invariant
            i <= data@.len(),
            out@.len() == i,
            keystream@ == state_after(s0, i as nat),
            forall|j: int|
                0 <= j < i ==> #[trigger] out@[j] == data@[j] ^ output_byte(
                    state_after(s0, (j + 1) as nat),
                ),
        decreases data@.len() - i,
    {
        let k = keystream.next_byte();
        out.push(data[i] ^ k);
        i = i + 1;
    }
    assert(out@ =~= xor_bytes(data@, keystream_of(s0, data@.len())));
    out
}

/// Cipher round trip: XOR-ing twice with keystreams started from the same
/// state gives back the message, for every message and every seed.
pub proof fn lemma_cipher_round_trip(msg: Seq<u8>, seed: u64)
    ensures
        xor_bytes(xor_bytes(msg, keystream_of(seed, msg.len())), keystream_of(seed, msg.len()))
            == msg,
{
    let ks = keystream_of(seed, msg.len());
    assert forall|i: int| 0 <= i < msg.len() implies #[trigger] xor_bytes(
        xor_bytes(msg, ks),
        ks,
    )[i] == msg[i] by {
        let a = msg[i];
        let k = ks[i];
        assert((a ^ k) ^ k == a) by (bit_vector);
    }
    assert(xor_bytes(xor_bytes(msg, ks), ks) =~= msg);
}

/// No resynchronisation: when the ciphertext byte at `j` is lost before
/// decryption, the bytes before `j` still decrypt correctly, and every later
/// decrypted byte is the following plaintext byte XOR-ed with two adjacent
/// keystream bytes, so it is correct only where those two happen to agree.
pub proof fn lemma_dropped_byte(msg: Seq<u8>, seed: u64, j: int)
    requires
        0 <= j < msg.len(),
    ensures
        ({
            let ks = keystream_of(seed, msg.len());
            let cut = xor_bytes(msg, ks).remove(j);
            let d = xor_bytes(cut, keystream_of(seed, cut.len()));
            &&& d.len() == msg.len() - 1
            &&& forall|i: int| 0 <= i < j ==> #[trigger] d[i] == msg[i]
            &&& forall|i: int|
                j <= i < d.len() ==> #[trigger] d[i] == msg[i + 1] ^ ks[i + 1] ^ ks[i]
            &&& forall|i: int|
                j <= i < d.len() ==> (#[trigger] d[i] == msg[i + 1] <==> ks[i] == ks[i + 1])
        }),
{
    let ks = keystream_of(seed, msg.len());
    let cut = xor_bytes(msg, ks).remove(j);
    let ks2 = keystream_of(seed, cut.len());
    let d = xor_bytes(cut, ks2);
    assert forall|i: int| 0 <= i < j implies #[trigger] d[i] == msg[i] by {
        let a = msg[i];
        let k = ks[i];
        assert(ks2[i] == k);
        assert((a ^ k) ^ k == a) by (bit_vector);
    }
    assert forall|i: int| j <= i < d.len() implies #[trigger] d[i] == msg[i + 1] ^ ks[i + 1]
        ^ ks[i] && (d[i] == msg[i + 1] <==> ks[i] == ks[i + 1]) by {
        let a = msg[i + 1];
        let k1 = ks[i + 1];
        let k0 = ks[i];
        assert(ks2[i] == k0);
        assert(cut[i] == a ^ k1);
        assert((a ^ k1) ^ k0 == a ^ k1 ^ k0) by (bit_vector);
        assert((a ^ k1 ^ k0 == a) <==> (k0 == k1)) by (bit_vector);
    }
}

} // verus!
