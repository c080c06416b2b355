use vstd::prelude::*;
use vstd::utf8::{decode_utf8, valid_utf8};

verus! {

/// The number of bytes in front of the channel values of an E1.31 data packet.
pub const HEADER_SIZE: usize = 126;

/// The number of bytes of an E1.31 data packet for a whole universe.
pub const PACKET_SIZE: usize = 638;

/// The number of channel values that an E1.31 data packet for a whole universe holds.
pub const UNIVERSE_SIZE: usize = 512;

/// The number of channels that we use of each universe: whole groups of 3.
pub const UNIVERSE_CHANNELS: usize = 510;

/// The first 16 bytes of the root layer: preamble size, post-amble size and packet identifier.
pub const ROOT_START: [u8; 16] = [
    0x00, 0x10, 0x00, 0x00, 0x41, 0x53, 0x43, 0x2D, 0x45, 0x31, 0x2E, 0x31, 0x37, 0x00, 0x00, 0x00,
];

/// The vector of the root layer, VECTOR_ROOT_E131_DATA.
pub const ROOT_VECTOR: [u8; 4] = [0x00, 0x00, 0x00, 0x04];

/// The vector of the framing layer, VECTOR_E131_DATA_PACKET.
pub const FRAME_VECTOR: [u8; 4] = [0x00, 0x00, 0x00, 0x02];

/// The start of the DMP layer after its length: VECTOR_DMP_SET_PROPERTY (1 byte), address and data
/// type (1 byte), first property address (2 bytes), and address increment (2 bytes).
pub const DMP_START: [u8; 6] = [0x02, 0xa1, 0x00, 0x00, 0x00, 0x01];

/// The header of the packets that we send: those of a whole universe, from the source "E1.31
/// Divider", with sequence number 0 for universe 1.
pub const PACKET_HEADER: [u8; 126] = [
    0, 16, 0, 0, 65, 83, 67, 45, 69, 49, 46, 49, 55, 0, 0, 0, 114, 110, 0, 0, 0, 4, 0, 0, 0, 0, 0,
    0, 0, 0, 0, 0, 0, 0, 0, 0, 0, 0, 114, 88, 0, 0, 0, 2, 69, 49, 46, 51, 49, 32, 68, 105, 118, 105,
    100, 101, 114, 0, 0, 0, 0, 0, 0, 0, 0, 0, 0, 0, 0, 0, 0, 0, 0, 0, 0, 0, 0, 0, 0, 0, 0, 0, 0, 0,
    0, 0, 0, 0, 0, 0, 0, 0, 0, 0, 0, 0, 0, 0, 0, 0, 0, 0, 0, 0, 0, 0, 0, 0, 0, 0, 0, 0, 0, 0, 1, 114,
    11, 2, 161, 0, 0, 0, 1, 2, 1, 0,
];

/// The number that two bytes make, most significant byte first.
pub open spec fn be16(bytes: Seq<u8>, at: int) -> int {
    bytes[at] * 256 + bytes[at + 1]
}

/// Whether `part` stands in `bytes` from index `at` on.
pub open spec fn stands_at(bytes: Seq<u8>, at: int, part: Seq<u8>) -> bool {
    &&& at + part.len() <= bytes.len()
    &&& bytes.subrange(at, at + part.len()) =~= part
}

/// Whether the two bytes at `at` give the flags of a protocol data unit, 0x7, in the upper 4 bits,
/// and its length in the lower 12.
pub open spec fn pdu_length_at(bytes: Seq<u8>, at: int, length: int) -> bool {
    &&& length <= 0xfff
    &&& be16(bytes, at) == 0x7000 + length
}

/// Whether `bytes` is an E1.31 data packet, with values for one universe at most. What it says of
/// its sender (the bytes from 22 to 38) and its priority, synchronization address, sequence number
/// and options (the bytes from 108 to 113) is left open.
pub open spec fn is_data_packet(bytes: Seq<u8>) -> bool {
    let size = bytes.len() - HEADER_SIZE;
    &&& 0 <= size <= UNIVERSE_SIZE
    // Root layer
    &&& stands_at(bytes, 0, ROOT_START@)
    &&& pdu_length_at(bytes, 16, 110 + size)
    &&& stands_at(bytes, 18, ROOT_VECTOR@)
    // Framing layer
    &&& pdu_length_at(bytes, 38, 88 + size)
    &&& stands_at(bytes, 40, FRAME_VECTOR@)
    // DMP layer: its length, its start, the number of property values, and the first of these,
    // the DMX start code
    &&& pdu_length_at(bytes, 115, 11 + size)
    &&& stands_at(bytes, 117, DMP_START@)
    &&& be16(bytes, 123) == 1 + size
    &&& bytes[125] == 0
}

/// The bytes of the source name in a packet.
pub open spec fn name_field(bytes: Seq<u8>) -> Seq<u8> {
    bytes.subrange(44, 108)
}

/// The source name, universe and channel values of a data packet whose source name is text; none
/// for other bytes.
pub open spec fn parsed(bytes: Seq<u8>) -> Option<(Seq<char>, int, Seq<u8>)> {
    if is_data_packet(bytes) && valid_utf8(name_field(bytes)) {
        Some(
            (
                decode_utf8(name_field(bytes)),
                be16(bytes, 113),
                bytes.skip(HEADER_SIZE as int),
            ),
        )
    } else {
        None
    }
}

/// The packet that carries `values` for a universe, with a sequence number.
pub open spec fn packet_bytes(values: Seq<u8>, universe: int, seq_number: int) -> Seq<u8> {
    PACKET_HEADER@.update(111, seq_number as u8).update(113, (universe / 256) as u8).update(
        114,
        (universe % 256) as u8,
    ) + values
}

} // verus!
