//! The body parts of the live multipart stream that viewers receive.

use vstd::prelude::*;
use vstd::utf8::encode_utf8;

verus! {

/// The content type of a live stream response.
pub const STREAM_CONTENT_TYPE: &'static str = "multipart/x-mixed-replace;boundary=123456789000000000000987654321";

/// What precedes the length of each frame: the boundary line, the frame's
/// content type, and the length header's name.
pub const PART_HEAD: &'static str = "\r\n--123456789000000000000987654321\r\nContent-Type: image/jpeg\r\nContent-Length: ";

/// What separates the length from the frame's bytes.
pub const PART_HEAD_END: &'static str = "\r\n\r\n";

/// The decimal digits of `n`, in ASCII.
pub open spec fn decimal(n: nat) -> Seq<u8>
    decreases n,
{
    if n < 10 {
        seq![(0x30 + n) as u8]
    } else {
        decimal(n / 10).push((0x30 + n % 10) as u8)
    }
}

/// The decimal digits of `n`.
pub fn decimal_bytes(n: usize) -> (r: Vec<u8>)
    ensures
        r@ == decimal(n as nat),
    decreases n,
{
    if n < 10 {
        let mut r: Vec<u8> = Vec::new();
        r.push((0x30 + n) as u8);
        r
    } else {
        let mut r = decimal_bytes(n / 10);
        r.push((0x30 + n % 10) as u8);
        r
    }
}

fn append_bytes(dst: &mut Vec<u8>, src: &[u8])
    ensures
        final(dst)@ == old(dst)@ + src@,
{
    let mut i: usize = 0;
    while i < src.len()
        invariant
            i <= src@.len(),
            dst@ == old(dst)@ + src@.subrange(0, i as int),
        decreases src@.len() - i,
    {
        dst.push(src[i]);
        i = i + 1;
        assert(dst@ =~= old(dst)@ + src@.subrange(0, i as int));
    }
    assert(src@.subrange(0, i as int) =~= src@);
}

/// One part of the live stream: the boundary and headers, then the frame.
pub fn prepare_http_bytes(data: &[u8]) -> (r: Vec<u8>)
    ensures
        r@ == encode_utf8(PART_HEAD@) + decimal(data@.len()) + encode_utf8(PART_HEAD_END@) + data@,
{
    let mut r: Vec<u8> = Vec::new();
    append_bytes(&mut r, PART_HEAD.as_bytes());
    let digits = decimal_bytes(data.len());
    append_bytes(&mut r, digits.as_slice());
    append_bytes(&mut r, PART_HEAD_END.as_bytes());
    append_bytes(&mut r, data);
    assert(r@ =~= encode_utf8(PART_HEAD@) + decimal(data@.len()) + encode_utf8(PART_HEAD_END@) + data@);
    r
}

} // verus!
