//! The 7+1-bit transfer framing of a 64-bit operand, and the big-endian
//! reading of the device's response.
use vstd::prelude::*;

verus! {

/// Transfers that carry one operand.
pub const FRAME_LEN: usize = 10;

/// Transfers, among those of a frame, that carry seven data bits each.
pub const DATA_TRANSFERS: usize = 9;

/// Bytes in the device's response.
pub const RESPONSE_LEN: usize = 8;

/// Set in the last transfer of a frame, clear in the others.
pub const COMMAND_BIT: u8 = 0x80;

/// The data bits of a data transfer.
pub const DATA_MASK: u8 = 0x7F;

/// Transfer `i` of the frame of `value`: for `i < 9` the seven bits that
/// start at bit `63 - 7 * i`; for the last one, bit 0 with the command bit.
pub open spec fn transfer_of(value: u64, i: int) -> u8 {
    if 0 <= i < 9 {
        ((value >> ((57 - 7 * i) as u64)) & 0x7Fu64) as u8
    } else {
        0x80u8 | ((value & 1u64) as u8)
    }
}

/// The ten transfers that carry `value`, in the order they are sent.
pub open spec fn frame_of(value: u64) -> Seq<u8> {
    Seq::new(10, |i: int| transfer_of(value, i))
}

/// Encodes `value` as ten transfers: nine of seven data bits each, most
/// significant first, then the lowest bit with the command bit set.
pub fn prepare_transfers(value: u64) -> (transfers: [u8; 10])
    ensures
        transfers@ == frame_of(value),
{
    let mut transfers = [0u8; 10];
    let mut i: usize = 0;
    while i < DATA_TRANSFERS
        invariant
            i <= 9,
            forall|j: int| 0 <= j < i ==> transfers@[j] == transfer_of(value, j),
        decreases 9 - i,
    {
        let shift: u64 = 64 - 7 * (i as u64 + 1);
        transfers[i] = ((value >> shift) & 0x7F) as u8;
        i = i + 1;
    }
    transfers[9] = COMMAND_BIT | ((value & 0x1) as u8);
    assert(transfers@ =~= frame_of(value));
    transfers
}

/// The value carried by the first `n` data transfers of `f`, seven bits from
/// each, the first transfer most significant.
pub open spec fn data_prefix(f: Seq<u8>, n: nat) -> u64
    decreases n,
{
    if n == 0 {
        0
    } else {
        (data_prefix(f, (n - 1) as nat) << 7u64) | ((f[n - 1] & 0x7Fu8) as u64)
    }
}

/// The value that a frame carries: the data bits of its nine data transfers,
/// then the low bit of its last transfer; command bits are dropped.
pub open spec fn frame_value(f: Seq<u8>) -> u64 {
    (data_prefix(f, 9) << 1u64) | ((f[9] & 1u8) as u64)
}

/// Reads back the value that a frame of ten transfers carries.
pub fn decode_transfers(transfers: &[u8; 10]) -> (value: u64)
    ensures
        value == frame_value(transfers@),
{
    let mut acc: u64 = 0;
    let mut i: usize = 0;
    while i < DATA_TRANSFERS
        invariant
            i <= 9,
            acc == data_prefix(transfers@, i as nat),
        decreases 9 - i,
    {
        acc = (acc << 7) | ((transfers[i] & DATA_MASK) as u64);
        i = i + 1;
    }
    (acc << 1) | ((transfers[9] & 1) as u64)
}

/// The value of the first `n` bytes of `b`, read big-endian.
pub open spec fn be_prefix(b: Seq<u8>, n: nat) -> u64
    decreases n,
{
    if n == 0 {
        0
    } else {
        (be_prefix(b, (n - 1) as nat) << 8u64) | (b[n - 1] as u64)
    }
}

/// The ciphertext that an eight-byte response stands for: the first byte
/// received is the most significant.
pub open spec fn ciphertext_of(response: Seq<u8>) -> u64 {
    be_prefix(response, 8)
}

/// Reassembles the device's eight response bytes into the ciphertext.
pub fn reassemble_ciphertext(response: &[u8; 8]) -> (ciphertext: u64)
    ensures
        ciphertext == ciphertext_of(response@),
{
    let mut acc: u64 = 0;
    let mut i: usize = 0;
    while i < RESPONSE_LEN
        invariant
            i <= 8,
            acc == be_prefix(response@, i as nat),
        decreases 8 - i,
    {
        acc = (acc << 8) | (response[i] as u64);
        i = i + 1;
    }
    acc
}

proof fn lemma_first_chunk(v: u64)
    by (bit_vector)
    ensures
        ((0u64 << 7u64) | ((((v >> 57u64) & 0x7Fu64) as u8 & 0x7Fu8) as u64)) == v >> 57u64,
{
}

proof fn lemma_next_chunk(v: u64, s: u64)
    by (bit_vector)
    requires
        s <= 50,
    ensures
        (((v >> (s + 7) as u64) << 7u64) | ((((v >> s) & 0x7Fu64) as u8 & 0x7Fu8) as u64)) == v
            >> s,
{
}

proof fn lemma_last_bit(v: u64)
    by (bit_vector)
    ensures
        (((v >> 1u64) << 1u64) | (((0x80u8 | ((v & 1u64) as u8)) & 1u8) as u64)) == v,
{
}

proof fn lemma_data_prefix(v: u64, n: nat)
    requires
        1 <= n <= 9,
    ensures
        data_prefix(frame_of(v), n) == v >> ((64 - 7 * n) as u64),
    decreases n,
{
    let f = frame_of(v);
    if n == 1 {
        assert(f[0] == transfer_of(v, 0));
        assert(data_prefix(f, 0) == 0);
        lemma_first_chunk(v);
    } else {
        lemma_data_prefix(v, (n - 1) as nat);
        let s = (64 - 7 * n) as u64;
        assert(f[n - 1] == transfer_of(v, n - 1));
        assert((57 - 7 * (n - 1)) as u64 == s);
        assert((64 - 7 * (n - 1)) as u64 == (s + 7) as u64);
        lemma_next_chunk(v, s);
    }
}

/// Stripping the command bits from the frame of `v` and joining the data bits
/// in order gives `v` back.
pub proof fn lemma_frame_round_trip(v: u64)
    ensures
        frame_value(frame_of(v)) == v,
{
    lemma_data_prefix(v, 9);
    assert(frame_of(v)[9] == transfer_of(v, 9));
    lemma_last_bit(v);
}

/// Every frame has the command bit clear in its nine data transfers and set
/// in its last one.
pub proof fn lemma_frame_shape(v: u64)
    ensures
        frame_of(v).len() == 10,
        forall|i: int| 0 <= i < 9 ==> #[trigger] frame_of(v)[i] & 0x80u8 == 0,
        frame_of(v)[9] & 0x80u8 == 0x80u8,
{
    assert forall|i: int| 0 <= i < 9 implies #[trigger] frame_of(v)[i] & 0x80u8 == 0 by {
        let x = v >> ((57 - 7 * i) as u64);
        assert((((x & 0x7Fu64) as u8) & 0x80u8) == 0) by (bit_vector);
    }
    let b = (v & 1u64) as u8;
    assert((0x80u8 | b) & 0x80u8 == 0x80u8) by (bit_vector);
}

} // verus!
