//! The two halves of a codec: frames out of bytes, bytes out of frames.

use vstd::bytes::{
    lemma_auto_spec_u64_to_from_le_bytes, spec_u64_from_le_bytes, spec_u64_to_le_bytes,
    u64_from_le_bytes, u64_to_le_bytes,
};
use vstd::prelude::*;
use vstd::slice::slice_subrange;

verus! {

/// Takes frames from the front of a byte buffer.
pub trait Decode {
    type Item;

    /// Whether decoding can turn a buffer that holds `before` into one that
    /// holds `after` and give `item`. A decoder that says what it does
    /// leaves the buffer as it is where it gives no frame, and drains the
    /// bytes of the frame from the front where it gives one.
    open spec fn decodes(&self, before: Seq<u8>, after: Seq<u8>, item: Option<Self::Item>) -> bool {
        true
    }

    /// Decodes the frame at the front of `buffer`, if a whole frame is
    /// there.
    fn decode(&self, buffer: &mut Vec<u8>) -> (item: Option<Self::Item>)
        ensures
            self.decodes(old(buffer)@, final(buffer)@, item),
    ;
}

/// Writes frames to the end of a byte buffer.
pub trait Encode {
    type Item;

    /// Whether encoding `item` can turn a buffer that holds `before` into
    /// one that holds `after`. An encoder that says what it does puts the
    /// bytes of the item after what was there.
    open spec fn encodes(&self, item: Self::Item, before: Seq<u8>, after: Seq<u8>) -> bool {
        true
    }

    /// Appends the bytes of `item` to `buffer`.
    fn encode(&self, item: Self::Item, buffer: &mut Vec<u8>)
        ensures
            self.encodes(item, old(buffer)@, final(buffer)@),
    ;
}

/// How many bytes the length of a frame takes.
pub const PREFIX_SIZE: usize = 8;

/// The codec of frames behind their length: the length in eight bytes, the
/// least significant first, then the bytes of the frame.
pub struct LengthPrefixed;

/// A frame on the wire: its length, then its bytes.
pub open spec fn prefixed(frame: Seq<u8>) -> Seq<u8> {
    spec_u64_to_le_bytes(frame.len() as u64) + frame
}

/// The frame that the bytes open with, where all of it is there.
pub open spec fn frame_at_front(bytes: Seq<u8>) -> Option<Seq<u8>> {
    if bytes.len() >= PREFIX_SIZE && spec_u64_from_le_bytes(bytes.take(PREFIX_SIZE as int))
        <= bytes.len() - PREFIX_SIZE {
        Some(
            bytes.subrange(
                PREFIX_SIZE as int,
                PREFIX_SIZE + spec_u64_from_le_bytes(bytes.take(PREFIX_SIZE as int)),
            ),
        )
    } else {
        None
    }
}

impl Decode for LengthPrefixed {
    type Item = Vec<u8>;

    open spec fn decodes(&self, before: Seq<u8>, after: Seq<u8>, item: Option<Vec<u8>>) -> bool {
        match frame_at_front(before) {
            Some(frame) => {
                &&& item is Some
                &&& item->0@ == frame
                &&& after == before.skip(PREFIX_SIZE + frame.len())
            },
            None => item is None && after == before,
        }
    }

    /// Takes the frame at the front of the buffer, where its length and all
    /// its bytes are there.
    fn decode(&self, buffer: &mut Vec<u8>) -> (item: Option<Vec<u8>>) {
        if buffer.len() < PREFIX_SIZE {
            return None;
        }
        let prefix = slice_subrange(buffer.as_slice(), 0, PREFIX_SIZE);
        let length = u64_from_le_bytes(prefix);
        if length > (buffer.len() - PREFIX_SIZE) as u64 {
            return None;
        }
        let end = PREFIX_SIZE + length as usize;
        let mut rest = buffer.split_off(end);
        let frame = buffer.split_off(PREFIX_SIZE);
        std::mem::swap(buffer, &mut rest);
        proof {
            assert(frame@ =~= old(buffer)@.subrange(PREFIX_SIZE as int, end as int));
            assert(buffer@ =~= old(buffer)@.skip(end as int));
        }
        Some(frame)
    }
}

impl Encode for LengthPrefixed {
    type Item = Vec<u8>;

    open spec fn encodes(&self, item: Vec<u8>, before: Seq<u8>, after: Seq<u8>) -> bool {
        after == before + prefixed(item@)
    }

    /// Appends the length of the frame and the frame.
    fn encode(&self, item: Vec<u8>, buffer: &mut Vec<u8>) {
        let prefix = u64_to_le_bytes(item.len() as u64);
        buffer.extend_from_slice(prefix.as_slice());
        buffer.extend_from_slice(item.as_slice());
        proof {
            assert(buffer@ =~= old(buffer)@ + prefixed(item@));
        }
    }
}

/// The length of a frame takes eight bytes, and is read back from them.
pub proof fn lemma_prefix_reads_back(frame: Seq<u8>)
    requires
        frame.len() <= u64::MAX,
    ensures
        prefixed(frame).len() == PREFIX_SIZE + frame.len(),
        spec_u64_from_le_bytes(prefixed(frame).take(PREFIX_SIZE as int)) == frame.len(),
        prefixed(frame).skip(PREFIX_SIZE as int) == frame,
{
    lemma_auto_spec_u64_to_from_le_bytes();
    let prefix = spec_u64_to_le_bytes(frame.len() as u64);
    assert(prefixed(frame).take(PREFIX_SIZE as int) =~= prefix);
    assert(prefixed(frame).skip(PREFIX_SIZE as int) =~= frame);
}

} // verus!
