//! The byte strings that signatures cover: each text field is its UTF-8
//! bytes preceded by their length as 8 big-endian bytes, so that no two
//! different records frame to the same bytes by shifting a boundary.

use vstd::prelude::*;
use vstd::utf8::encode_utf8;

verus! {

/// `n` as 8 big-endian bytes.
pub open spec fn be64(n: nat) -> Seq<u8> {
    seq![
        (n / 0x100000000000000 % 256) as u8,
        (n / 0x1000000000000 % 256) as u8,
        (n / 0x10000000000 % 256) as u8,
        (n / 0x100000000 % 256) as u8,
        (n / 0x1000000 % 256) as u8,
        (n / 0x10000 % 256) as u8,
        (n / 0x100 % 256) as u8,
        (n % 256) as u8,
    ]
}

/// A text framed by its byte length.
pub open spec fn framed_text(s: Seq<char>) -> Seq<u8> {
    be64(encode_utf8(s).len()) + encode_utf8(s)
}

/// A list of texts: the frame of each, in order.
pub open spec fn framed_list(items: Seq<String>) -> Seq<u8>
    decreases items.len(),
{
    if items.len() == 0 {
        Seq::empty()
    } else {
        framed_list(items.drop_last()) + framed_text(items.last()@)
    }
}

/// Appends `n` as 8 big-endian bytes.
pub fn append_u64(out: &mut Vec<u8>, n: u64)
    ensures
        final(out)@ == old(out)@ + be64(n as nat),
{
    out.push((n / 0x100000000000000 % 256) as u8);
    out.push((n / 0x1000000000000 % 256) as u8);
    out.push((n / 0x10000000000 % 256) as u8);
    out.push((n / 0x100000000 % 256) as u8);
    out.push((n / 0x1000000 % 256) as u8);
    out.push((n / 0x10000 % 256) as u8);
    out.push((n / 0x100 % 256) as u8);
    out.push((n % 256) as u8);
    assert(final(out)@ =~= old(out)@ + be64(n as nat));
}

/// Appends raw bytes.
pub fn append_bytes(out: &mut Vec<u8>, bytes: &[u8])
    ensures
        final(out)@ == old(out)@ + bytes@,
{
    let ghost start = out@;
    let mut i: usize = 0;
    while i < bytes.len()
        invariant
            0 <= i <= bytes@.len(),
            out@ == start + bytes@.take(i as int),
        decreases bytes@.len() - i,
    {
        out.push(bytes[i]);
        i = i + 1;
        assert(out@ =~= start + bytes@.take(i as int));
    }
    assert(bytes@.take(i as int) =~= bytes@);
}

/// Appends a text framed by its byte length.
pub fn append_text(out: &mut Vec<u8>, s: &str)
    ensures
        final(out)@ == old(out)@ + framed_text(s@),
{
    let bytes = s.as_bytes();
    append_u64(out, bytes.len() as u64);
    append_bytes(out, bytes);
    assert(final(out)@ =~= old(out)@ + framed_text(s@));
}

/// Appends each text of a list, framed.
pub fn append_list(out: &mut Vec<u8>, items: &Vec<String>)
    ensures
        final(out)@ == old(out)@ + framed_list(items@),
{
    let ghost start = out@;
    let mut i: usize = 0;
    while i < items.len()
        invariant
            0 <= i <= items@.len(),
            out@ == start + framed_list(items@.take(i as int)),
        decreases items@.len() - i,
    {
        append_text(out, items[i].as_str());
        proof {
            assert(items@.take(i + 1).drop_last() =~= items@.take(i as int));
        }
        i = i + 1;
        assert(out@ =~= start + framed_list(items@.take(i as int)));
    }
    assert(items@.take(i as int) =~= items@);
}

} // verus!
