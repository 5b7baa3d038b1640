use vstd::prelude::*;
use vstd::string::StringSliceAdditionalSpecFns;

verus! {

/// The number of bytes in the length prefix of a frame.
pub const HEADER_LEN: usize = 8;

/// The number that `bytes` spell, most significant byte first.
pub open spec fn be_value(bytes: Seq<u8>) -> nat
    decreases bytes.len(),
{
    if bytes.len() == 0 {
        0
    } else {
        be_value(bytes.drop_last()) * 256 + bytes.last() as nat
    }
}

/// The lowest `width` base-256 digits of `value`, most significant first.
pub open spec fn be_bytes(value: nat, width: nat) -> Seq<u8>
    decreases width,
{
    if width == 0 {
        Seq::empty()
    } else {
        be_bytes(value / 256, (width - 1) as nat).push((value % 256) as u8)
    }
}

/// 256 to the power of `width`.
pub open spec fn radix_pow(width: nat) -> nat
    decreases width,
{
    if width == 0 {
        1
    } else {
        256 * radix_pow((width - 1) as nat)
    }
}

/// The frame that carries `payload`: the payload's length as eight bytes, most significant
/// first, then the payload itself.
pub open spec fn frame_of(payload: Seq<u8>) -> Seq<u8> {
    be_bytes(payload.len(), 8) + payload
}

/// The payload of the frame that `bytes` start with, and the number of bytes that frame
/// takes up; `None` while `bytes` do not yet hold a whole frame.
pub open spec fn first_frame(bytes: Seq<u8>) -> Option<(Seq<u8>, nat)> {
    if bytes.len() < 8 {
        None
    } else {
        let len = be_value(bytes.subrange(0, 8));
        if len <= bytes.len() - 8 {
            Some((bytes.subrange(8, 8 + len as int), 8 + len))
        } else {
            None
        }
    }
}

/// The text that a payload stands for: its bytes read as UTF-8, every malformed sequence
/// replaced by U+FFFD.
pub uninterp spec fn utf8_lossy(bytes: Seq<u8>) -> Seq<char>;

/// `String::from_utf8_lossy`, with the borrowed or owned result made an owned `String`.
/// The text it yields depends on the bytes alone and is called `utf8_lossy` of them;
/// nothing more is claimed of it.
#[verifier::external_body]
pub(crate) fn lossy_text(bytes: &[u8]) -> (text: String)
    ensures
        text@ == utf8_lossy(bytes@),
{
    String::from_utf8_lossy(bytes).into_owned()
}

/// `be_bytes` yields as many digits as asked for.
pub proof fn lemma_be_bytes_len(value: nat, width: nat)
    ensures
        be_bytes(value, width).len() == width,
    decreases width,
{
    if width > 0 {
        lemma_be_bytes_len(value / 256, (width - 1) as nat);
    }
}

/// Reading back the digits of a number that fits in `width` digits gives the number.
pub proof fn lemma_be_value_of_bytes(value: nat, width: nat)
    requires
        value < radix_pow(width),
    ensures
        be_value(be_bytes(value, width)) == value,
    decreases width,
{
    if width > 0 {
        let rest = be_bytes(value / 256, (width - 1) as nat);
        lemma_be_value_of_bytes(value / 256, (width - 1) as nat);
        assert(be_bytes(value, width).drop_last() =~= rest);
        assert(be_bytes(value, width).last() == (value % 256) as u8);
    }
}

/// Eight digits hold every number below 2 to the power of 64.
pub proof fn lemma_radix_pow_8()
    ensures
        radix_pow(8) == 0x1_0000_0000_0000_0000,
{
    reveal_with_fuel(radix_pow, 9);
}

/// A frame starts with an eight-byte prefix that spells the length of its payload.
pub proof fn lemma_frame_prefix(payload: Seq<u8>)
    requires
        payload.len() < 0x1_0000_0000_0000_0000,
    ensures
        frame_of(payload).len() == 8 + payload.len(),
        frame_of(payload).subrange(0, 8) == be_bytes(payload.len(), 8),
        be_value(frame_of(payload).subrange(0, 8)) == payload.len(),
{
    lemma_be_bytes_len(payload.len(), 8);
    lemma_radix_pow_8();
    lemma_be_value_of_bytes(payload.len(), 8);
    assert(frame_of(payload).subrange(0, 8) =~= be_bytes(payload.len(), 8));
}

/// Decoding what encoding produced gives the payload back, whatever bytes follow the
/// frame: for every payload shorter than 2 to the power of 64, the first frame of
/// `frame_of(payload) + rest` is that payload, and it takes up eight bytes more than the
/// payload is long.
pub proof fn lemma_decode_encode(payload: Seq<u8>, rest: Seq<u8>)
    requires
        payload.len() < 0x1_0000_0000_0000_0000,
    ensures
        first_frame(frame_of(payload) + rest) == Some((payload, 8 + payload.len())),
{
    lemma_frame_prefix(payload);
    let bytes = frame_of(payload) + rest;
    assert(bytes.subrange(0, 8) =~= frame_of(payload).subrange(0, 8));
    assert(bytes.subrange(8, 8 + payload.len() as int) =~= payload);
}

/// The eight-byte length prefix for a payload of `len` bytes.
pub fn length_prefix(len: u64) -> (header: Vec<u8>)
    ensures
        header@ == be_bytes(len as nat, 8),
{
    let b7 = (len % 256) as u8;
    let r7 = len / 256;
    let b6 = (r7 % 256) as u8;
    let r6 = r7 / 256;
    let b5 = (r6 % 256) as u8;
    let r5 = r6 / 256;
    let b4 = (r5 % 256) as u8;
    let r4 = r5 / 256;
    let b3 = (r4 % 256) as u8;
    let r3 = r4 / 256;
    let b2 = (r3 % 256) as u8;
    let r2 = r3 / 256;
    let b1 = (r2 % 256) as u8;
    let r1 = r2 / 256;
    let b0 = (r1 % 256) as u8;
    let mut header: Vec<u8> = Vec::new();
    header.push(b0);
    header.push(b1);
    header.push(b2);
    header.push(b3);
    header.push(b4);
    header.push(b5);
    header.push(b6);
    header.push(b7);
    proof {
        reveal_with_fuel(be_bytes, 9);
        assert(header@ =~= be_bytes(len as nat, 8));
    }
    header
}

/// The payload length that an eight-byte length prefix spells.
pub fn prefix_value(header: &[u8; 8]) -> (len: u64)
    ensures
        len == be_value(header@),
{
    let mut len: u64 = 0;
    let mut i: usize = 0;
    proof {
        lemma_radix_pow_8();
    }
    while i < 8
        invariant
            i <= 8,
            len == be_value(header@.take(i as int)),
            len < radix_pow(i as nat),
            radix_pow(8) == 0x1_0000_0000_0000_0000,
        decreases 8 - i,
    {
        proof {
            assert(header@.take(i + 1).drop_last() =~= header@.take(i as int));
            lemma_radix_pow_grows((i + 1) as nat, 8);
        }
        len = len * 256 + header[i] as u64;
        i += 1;
    }
    assert(header@.take(8) =~= header@);
    len
}

/// `radix_pow` does not shrink as the width grows.
pub proof fn lemma_radix_pow_grows(small: nat, large: nat)
    requires
        small <= large,
    ensures
        radix_pow(small) <= radix_pow(large),
        radix_pow(small) > 0,
    decreases large,
{
    if small < large {
        lemma_radix_pow_grows(small, (large - 1) as nat);
    } else if small > 0 {
        lemma_radix_pow_grows((small - 1) as nat, (small - 1) as nat);
    }
}

/// Encodes one frame: the length prefix of `payload`, then `payload`.
pub fn encode(payload: &[u8]) -> (frame: Vec<u8>)
    ensures
        frame@ == frame_of(payload@),
{
    let mut frame = length_prefix(payload.len() as u64);
    let mut i: usize = 0;
    while i < payload.len()
        invariant
            i <= payload@.len(),
            frame@ == be_bytes(payload@.len(), 8) + payload@.take(i as int),
        decreases payload.len() - i,
    {
        frame.push(payload[i]);
        assert(payload@.take(i + 1) =~= payload@.take(i as int).push(payload@[i as int]));
        i += 1;
    }
    assert(payload@.take(payload@.len() as int) =~= payload@);
    frame
}

/// Encodes the frame whose payload is the UTF-8 form of `text`.
pub fn encode_text(text: &str) -> (frame: Vec<u8>)
    ensures
        frame@ == frame_of(text.spec_bytes()),
{
    encode(text.as_bytes())
}

/// Decodes the frame that `bytes` start with: its payload and the number of bytes it takes
/// up. `None` while `bytes` hold less than a whole frame.
pub fn decode(bytes: &[u8]) -> (frame: Option<(Vec<u8>, usize)>)
    ensures
        match frame {
            Some((payload, used)) => first_frame(bytes@) == Some((payload@, used as nat)),
            None => first_frame(bytes@) is None,
        },
{
    if bytes.len() < HEADER_LEN {
        return None;
    }
    let mut header: [u8; 8] = [0u8; 8];
    let mut i: usize = 0;
    while i < 8
        invariant
            i <= 8,
            bytes@.len() >= 8,
            forall|k: int| 0 <= k < i ==> header@[k] == bytes@[k],
        decreases 8 - i,
    {
        header[i] = bytes[i];
        i += 1;
    }
    assert(header@ =~= bytes@.subrange(0, 8));
    let len = prefix_value(&header);
    if len > (bytes.len() - HEADER_LEN) as u64 {
        return None;
    }
    let end = HEADER_LEN + len as usize;
    let mut payload: Vec<u8> = Vec::new();
    let mut j: usize = HEADER_LEN;
    while j < end
        invariant
            8 <= j <= end <= bytes@.len(),
            payload@ == bytes@.subrange(8, j as int),
        decreases end - j,
    {
        payload.push(bytes[j]);
        assert(bytes@.subrange(8, j + 1) =~= bytes@.subrange(8, j as int).push(bytes@[j as int]));
        j += 1;
    }
    Some((payload, end))
}

} // verus!
