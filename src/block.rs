//! One record of the log: two addresses and a fixed 512-byte message buffer,
//! with its exact 544-byte binary layout.
use crate::le::{
    le_bytes, le_value, lemma_le_bytes_len, lemma_le_value_of_bytes, lemma_pow256_16,
    u128_from_le, u128_to_le,
};
use vstd::prelude::*;
use vstd::string::StringSliceAdditionalSpecFns;

verus! {

/// Bytes in a message buffer.
pub const MESSAGE_LEN: usize = 512;

/// Bytes in one serialized record.
pub const RECORD_LEN: usize = 544;

/// An opaque 128-bit sender or recipient handle.
#[derive(Clone, Copy)]
pub struct Addr(u128);

impl View for Addr {
    type V = u128;

    closed spec fn view(&self) -> u128 {
        self.0
    }
}

impl Addr {
    pub fn new(address: u128) -> (r: Addr)
        ensures
            r@ == address,
    {
        Addr(address)
    }

    /// The numeric value of the address.
    pub fn value(&self) -> (r: u128)
        ensures
            r == self@,
    {
        self.0
    }
}

/// What a block holds, as plain values.
pub struct BlockView {
    pub to: u128,
    pub from: u128,
    pub message: Seq<u8>,
}

/// A record: recipient, sender and a zero-padded message buffer.
pub struct Block {
    to: Addr,
    from: Addr,
    message: [u8; 512],
}

impl View for Block {
    type V = BlockView;

    closed spec fn view(&self) -> BlockView {
        BlockView { to: self.to@, from: self.from@, message: self.message@ }
    }
}

/// The 544 bytes that stand for `b` on disk: `to` and `from` as 16
/// little-endian bytes each, then the message buffer verbatim.
pub open spec fn serialize(b: BlockView) -> Seq<u8> {
    le_bytes(b.to as nat, 16) + le_bytes(b.from as nat, 16) + b.message
}

/// The block that the 544 bytes `s` stand for.
pub open spec fn deserialize(s: Seq<u8>) -> BlockView {
    BlockView {
        to: le_value(s.subrange(0, 16)) as u128,
        from: le_value(s.subrange(16, 32)) as u128,
        message: s.subrange(32, 544),
    }
}

/// The message buffer `m` after `src` is copied over its start: at most 512
/// bytes of `src` are taken, and the bytes after them keep their old values.
pub open spec fn overwrite_prefix(m: Seq<u8>, src: Seq<u8>) -> Seq<u8> {
    if src.len() >= m.len() {
        src.subrange(0, m.len() as int)
    } else {
        src + m.subrange(src.len() as int, m.len() as int)
    }
}

/// The bytes of `m` before its first zero byte (all of `m` if it holds none).
pub open spec fn zero_terminated(m: Seq<u8>) -> Seq<u8>
    decreases m.len(),
{
    if m.len() == 0 || m[0] == 0 {
        Seq::empty()
    } else {
        seq![m[0]] + zero_terminated(m.drop_first())
    }
}

/// `m` without its trailing zero bytes.
pub open spec fn strip_zeros(m: Seq<u8>) -> Seq<u8>
    decreases m.len(),
{
    if m.len() == 0 || m.last() != 0 {
        m
    } else {
        strip_zeros(m.drop_last())
    }
}

/// A buffer of 512 zero bytes.
pub open spec fn zero_message() -> Seq<u8> {
    Seq::new(512, |i: int| 0u8)
}

/// The null block: both addresses zero, the message all zero.
pub open spec fn null_view() -> BlockView {
    BlockView { to: 0, from: 0, message: zero_message() }
}

/// The block that carries `c` sealed for the addresses of `b`.
pub open spec fn sealed_view(b: BlockView, c: Seq<u8>) -> BlockView {
    BlockView { to: b.to, from: b.from, message: overwrite_prefix(zero_message(), c) }
}

proof fn lemma_zero_terminated_is_prefix(m: Seq<u8>, k: int)
    requires
        0 <= k <= m.len(),
        forall|j: int| 0 <= j < k ==> m[j] != 0,
        k == m.len() || m[k] == 0,
    ensures
        zero_terminated(m) == m.subrange(0, k),
    decreases m.len(),
{
    if m.len() == 0 || m[0] == 0 {
        assert(m.subrange(0, k) =~= Seq::<u8>::empty());
    } else {
        let t = m.drop_first();
        assert forall|j: int| 0 <= j < k - 1 implies t[j] != 0 by {
            assert(m[j + 1] != 0);
        }
        lemma_zero_terminated_is_prefix(t, k - 1);
        assert(m.subrange(0, k) =~= seq![m[0]] + t.subrange(0, k - 1));
    }
}

proof fn lemma_strip_zeros_is_prefix(m: Seq<u8>, k: int)
    requires
        0 <= k <= m.len(),
        forall|j: int| k <= j < m.len() ==> m[j] == 0,
        k == 0 || m[k - 1] != 0,
    ensures
        strip_zeros(m) == m.subrange(0, k),
    decreases m.len(),
{
    if m.len() == 0 || m.last() != 0 {
        assert(m.subrange(0, k) =~= m);
    } else {
        lemma_strip_zeros_is_prefix(m.drop_last(), k);
        assert(m.drop_last().subrange(0, k) =~= m.subrange(0, k));
    }
}

/// Every block's message buffer is 512 bytes long.
pub proof fn lemma_message_len(b: Block)
    ensures
        b@.message.len() == 512,
{
}

/// A serialized block is always 544 bytes long.
pub proof fn lemma_serialized_size(b: Block)
    ensures
        serialize(b@).len() == 544,
{
    lemma_le_bytes_len(b@.to as nat, 16);
    lemma_le_bytes_len(b@.from as nat, 16);
}

/// Decoding the record of a block gives back that block.
pub proof fn lemma_round_trip(b: Block)
    ensures
        deserialize(serialize(b@)) == b@,
{
    round_trip_view(b@);
}

/// Decoding the record of any block view with a 512-byte message gives it back.
pub proof fn round_trip_view(v: BlockView)
    requires
        v.message.len() == 512,
    ensures
        deserialize(serialize(v)) == v,
        serialize(v).len() == 544,
{
    let s = serialize(v);
    lemma_le_bytes_len(v.to as nat, 16);
    lemma_le_bytes_len(v.from as nat, 16);
    assert(s.subrange(0, 16) =~= le_bytes(v.to as nat, 16));
    assert(s.subrange(16, 32) =~= le_bytes(v.from as nat, 16));
    assert(s.subrange(32, 544) =~= v.message);
    lemma_le_value_of_bytes(v.to as nat, 16);
    lemma_le_value_of_bytes(v.from as nat, 16);
    lemma_pow256_16();
    vstd::arithmetic::div_mod::lemma_small_mod(v.to as nat, u128::MAX as nat + 1);
    vstd::arithmetic::div_mod::lemma_small_mod(v.from as nat, u128::MAX as nat + 1);
}

/// Setting the message from a source longer than 512 bytes stores exactly the
/// first 512 bytes of the source, whatever the buffer held before.
pub proof fn lemma_truncation(b: Block, src: Seq<u8>)
    requires
        src.len() > 512,
    ensures
        overwrite_prefix(b@.message, src) == src.subrange(0, 512),
{
}

/// A text of at most 512 bytes with no zero byte, set on a null message, is
/// exactly what gets sealed.
pub proof fn lemma_plaintext_of_text(t: Seq<u8>)
    requires
        t.len() <= 512,
        forall|j: int| 0 <= j < t.len() ==> t[j] != 0,
    ensures
        zero_terminated(overwrite_prefix(zero_message(), t)) == t,
{
    let m = overwrite_prefix(zero_message(), t);
    lemma_zero_terminated_is_prefix(m, t.len() as int);
    assert(m.subrange(0, t.len() as int) =~= t);
}

/// A text with a zero byte at `z`, set on a null message, is sealed only up to
/// its first zero byte: what gets sealed is a proper prefix of the text, no
/// longer than `z`.
pub proof fn lemma_embedded_zero_truncates(t: Seq<u8>, z: int)
    requires
        t.len() <= 512,
        0 <= z < t.len(),
        t[z] == 0,
    ensures
        zero_terminated(overwrite_prefix(zero_message(), t)).len() <= z,
        zero_terminated(overwrite_prefix(zero_message(), t)) == t.subrange(
            0,
            zero_terminated(overwrite_prefix(zero_message(), t)).len() as int,
        ),
        zero_terminated(overwrite_prefix(zero_message(), t)) != t,
{
    let m = overwrite_prefix(zero_message(), t);
    first_zero_exists(t, z);
    let k = choose|k: int|
        0 <= k <= z && t[k] == 0 && forall|j: int| 0 <= j < k ==> t[j] != 0;
    lemma_zero_terminated_is_prefix(m, k);
    assert(m.subrange(0, k) =~= t.subrange(0, k));
}

proof fn first_zero_exists(t: Seq<u8>, z: int)
    requires
        0 <= z < t.len(),
        t[z] == 0,
    ensures
        exists|k: int| 0 <= k <= z && t[k] == 0 && forall|j: int| 0 <= j < k ==> t[j] != 0,
    decreases z,
{
    if exists|j: int| 0 <= j < z && t[j] == 0 {
        let j = choose|j: int| 0 <= j < z && t[j] == 0;
        first_zero_exists(t, j);
    } else {
        assert(forall|j: int| 0 <= j < z ==> t[j] != 0);
    }
}

/// Stripping the trailing zeros of a sealed message gives back the
/// ciphertext, as long as it fits and does not itself end in a zero byte.
pub proof fn lemma_ciphertext_recovered(b: BlockView, c: Seq<u8>)
    requires
        c.len() <= 512,
        c.len() == 0 || c.last() != 0,
    ensures
        strip_zeros(sealed_view(b, c).message) == c,
{
    let m = sealed_view(b, c).message;
    lemma_strip_zeros_is_prefix(m, c.len() as int);
    assert(m.subrange(0, c.len() as int) =~= c);
}

impl Block {
    /// The null block.
    pub fn null() -> (r: Block)
        ensures
            r@ == null_view(),
    {
        let r = Block { to: Addr(0), from: Addr(0), message: [0u8; 512] };
        assert(r.message@ =~= zero_message());
        r
    }

    /// Sets the sender.
    pub fn from(&mut self, address: Addr)
        ensures
            final(self)@ == (BlockView { from: address@, ..old(self)@ }),
    {
        self.from = address;
    }

    /// Sets the recipient.
    pub fn to(&mut self, address: Addr)
        ensures
            final(self)@ == (BlockView { to: address@, ..old(self)@ }),
    {
        self.to = address;
    }

    /// The recipient.
    pub fn to_address(&self) -> (r: Addr)
        ensures
            r@ == self@.to,
    {
        self.to
    }

    /// The sender.
    pub fn from_address(&self) -> (r: Addr)
        ensures
            r@ == self@.from,
    {
        self.from
    }

    fn copy_into_message(&mut self, src: &[u8])
        ensures
            final(self)@ == (BlockView {
                message: overwrite_prefix(old(self)@.message, src@),
                ..old(self)@
            }),
    {
        let ghost m0 = self.message@;
        let mut index: usize = 0;
        while index < src.len() && index < MESSAGE_LEN
            invariant
                index <= src@.len(),
                index <= 512,
                self.to == old(self).to,
                self.from == old(self).from,
                self.message@.len() == 512,
                m0 == old(self).message@,
                forall|j: int| 0 <= j < index ==> self.message@[j] == src@[j],
                forall|j: int| index <= j < 512 ==> self.message@[j] == m0[j],
            decreases src@.len() - index,
        {
            self.message[index] = src[index];
            index = index + 1;
        }
        assert(self.message@ =~= overwrite_prefix(m0, src@));
    }

    /// Copies the bytes of `message` over the start of the buffer; bytes past
    /// the 512th are dropped.
    pub fn message_str(&mut self, message: &str)
        ensures
            final(self)@ == (BlockView {
                message: overwrite_prefix(old(self)@.message, message.spec_bytes()),
                ..old(self)@
            }),
    {
        let bytes: &[u8] = message.as_bytes();
        self.copy_into_message(bytes);
    }

    /// Copies `message` over the start of the buffer; bytes past the 512th
    /// are dropped.
    pub fn message_vec(&mut self, message: &Vec<u8>)
        ensures
            final(self)@ == (BlockView {
                message: overwrite_prefix(old(self)@.message, message@),
                ..old(self)@
            }),
    {
        self.copy_into_message(message.as_slice());
    }

    /// The whole message buffer.
    pub fn message(&self) -> (r: Vec<u8>)
        ensures
            r@ == self@.message,
    {
        let mut r: Vec<u8> = Vec::new();
        let mut i: usize = 0;
        while i < MESSAGE_LEN
            invariant
                i <= 512,
                self.message@.len() == 512,
                r@ == self.message@.subrange(0, i as int),
            decreases 512 - i,
        {
            r.push(self.message[i]);
            i = i + 1;
        }
        assert(r@ =~= self.message@);
        r
    }

    /// The 544-byte record for this block.
    pub fn to_bytes(&self) -> (r: [u8; 544])
        ensures
            r@ == serialize(self@),
    {
        let mut bytes: [u8; 544] = [0u8; 544];
        let to = u128_to_le(self.to.0);
        let from = u128_to_le(self.from.0);
        let mut index: usize = 0;
        while index < 16
            invariant
                index <= 16,
                bytes@.len() == 544,
                forall|j: int| 0 <= j < index ==> bytes@[j] == to@[j],
            decreases 16 - index,
        {
            bytes[index] = to[index];
            index = index + 1;
        }
        while index < 32
            invariant
                16 <= index <= 32,
                bytes@.len() == 544,
                forall|j: int| 0 <= j < 16 ==> bytes@[j] == to@[j],
                forall|j: int| 16 <= j < index ==> bytes@[j] == from@[j - 16],
            decreases 32 - index,
        {
            bytes[index] = from[index - 16];
            index = index + 1;
        }
        while index < RECORD_LEN
            invariant
                32 <= index <= 544,
                bytes@.len() == 544,
                self.message@.len() == 512,
                forall|j: int| 0 <= j < 16 ==> bytes@[j] == to@[j],
                forall|j: int| 16 <= j < 32 ==> bytes@[j] == from@[j - 16],
                forall|j: int| 32 <= j < index ==> bytes@[j] == self.message@[j - 32],
            decreases 544 - index,
        {
            bytes[index] = self.message[index - 32];
            index = index + 1;
        }
        proof {
            lemma_le_bytes_len(self.to.0 as nat, 16);
            lemma_le_bytes_len(self.from.0 as nat, 16);
        }
        assert(bytes@ =~= serialize(self@));
        bytes
    }

    /// The block that a 544-byte record stands for.
    pub fn from_bytes(bytes: [u8; 544]) -> (r: Block)
        ensures
            r@ == deserialize(bytes@),
    {
        let mut block = Block::null();
        let mut message_bytes: [u8; 512] = [0u8; 512];
        let mut index: usize = 0;
        while index < MESSAGE_LEN
            invariant
                index <= 512,
                bytes@.len() == 544,
                message_bytes@.len() == 512,
                forall|j: int| 0 <= j < index ==> message_bytes@[j] == bytes@[j + 32],
            decreases 512 - index,
        {
            message_bytes[index] = bytes[index + 32];
            index = index + 1;
        }
        block.to = Addr(u128_from_le(bytes.as_slice(), 0));
        block.from = Addr(u128_from_le(bytes.as_slice(), 16));
        block.message = message_bytes;
        assert(message_bytes@ =~= bytes@.subrange(32, 544));
        block
    }

    /// The message up to its first zero byte: what gets sealed.
    pub fn plaintext(&self) -> (r: Vec<u8>)
        ensures
            r@ == zero_terminated(self@.message),
    {
        let mut r: Vec<u8> = Vec::new();
        let mut index: usize = 0;
        while index < MESSAGE_LEN && self.message[index] != 0
            invariant
                index <= 512,
                self.message@.len() == 512,
                r@ == self.message@.subrange(0, index as int),
                forall|j: int| 0 <= j < index ==> self.message@[j] != 0,
            decreases 512 - index,
        {
            r.push(self.message[index]);
            index = index + 1;
        }
        proof {
            lemma_zero_terminated_is_prefix(self.message@, index as int);
        }
        r
    }

    /// The message without its trailing zero bytes: the ciphertext of a
    /// sealed block.
    pub fn ciphertext(&self) -> (r: Vec<u8>)
        ensures
            r@ == strip_zeros(self@.message),
    {
        strip_trailing_zeros(self.message.as_slice())
    }

    /// A null block with the addresses of `self`, whose message is
    /// `ciphertext` (cut to 512 bytes) padded with zeros.
    pub fn sealed(&self, ciphertext: &Vec<u8>) -> (r: Block)
        ensures
            r@ == sealed_view(self@, ciphertext@),
    {
        let mut r = Block::null();
        r.to(self.to);
        r.from(self.from);
        r.message_vec(ciphertext);
        r
    }
}

/// `m` without its trailing zero bytes: the ciphertext stored in a sealed
/// message buffer.
pub fn strip_trailing_zeros(m: &[u8]) -> (r: Vec<u8>)
    ensures
        r@ == strip_zeros(m@),
{
    let mut end: usize = m.len();
    while end > 0 && m[end - 1] == 0
        invariant
            end <= m@.len(),
            forall|j: int| end <= j < m@.len() ==> m@[j] == 0,
        decreases end,
    {
        end = end - 1;
    }
    let mut r: Vec<u8> = Vec::new();
    let mut i: usize = 0;
    while i < end
        invariant
            i <= end <= m@.len(),
            r@ == m@.subrange(0, i as int),
        decreases end - i,
    {
        r.push(m[i]);
        i = i + 1;
    }
    proof {
        lemma_strip_zeros_is_prefix(m@, end as int);
    }
    r
}

} // verus!
