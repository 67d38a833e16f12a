//! The block file: an append-only sequence of 544-byte records addressed by
//! their position. The file itself is read and written by the caller; this
//! handle decides what is written, where a record lies, and keeps the count.
use crate::block::{
    deserialize, lemma_message_len, round_trip_view, sealed_view, serialize, strip_zeros,
    zero_terminated, Block, BlockView, MESSAGE_LEN,
};
use crate::seal::{
    decrypt_pkcs1v15, encrypt_pkcs1v15, modulus_size, pkcs1v15_decrypted, public_key_size,
};
use vstd::prelude::*;

verus! {

/// Why a store operation did not go through.
#[derive(Clone, Copy, Debug, PartialEq, Eq, Structural)]
pub enum StoreError {
    /// The index is at or beyond the number of records appended.
    IndexOutOfRange,
    /// The record count would pass what file offsets can address.
    StoreFull,
    /// The payload could not be sealed with the public key.
    EncryptionFailed,
    /// The stored payload could not be opened with the private key.
    DecryptionFailed,
}

/// The bytes that appending `rs` in order writes: their records, back to back.
pub open spec fn log_bytes(rs: Seq<BlockView>) -> Seq<u8>
    decreases rs.len(),
{
    if rs.len() == 0 {
        Seq::empty()
    } else {
        log_bytes(rs.drop_last()) + serialize(rs.last())
    }
}

/// A handle on one block file and the records appended through it.
#[derive(Clone)]
pub struct BlockFile {
    path: String,
    blocks: usize,
    records: Ghost<Seq<BlockView>>,
}

impl BlockFile {
    /// The records appended through this handle, in order.
    pub closed spec fn records(self) -> Seq<BlockView> {
        self.records@
    }

    /// The path of the file, as characters.
    pub closed spec fn path_spec(self) -> Seq<char> {
        self.path@
    }

    /// The count matches the records, every record has a full message
    /// buffer, and every record's offset fits in a `u64`.
    pub closed spec fn wf(self) -> bool {
        &&& self.records@.len() == self.blocks
        &&& self.blocks as int * 544 <= u64::MAX
        &&& forall|i: int| 0 <= i < self.blocks ==> #[trigger] self.records@[i].message.len() == 512
    }

    /// Whether one more record can be appended.
    pub open spec fn has_room(self) -> bool {
        (self.records().len() + 1) * 544 <= u64::MAX && self.records().len() < usize::MAX
    }

    /// A handle on the file at `path`, with no records appended yet. The
    /// caller creates the file if it does not exist.
    pub fn new(path: String) -> (r: BlockFile)
        ensures
            r.wf(),
            r.records() == Seq::<BlockView>::empty(),
            r.path_spec() == path@,
    {
        BlockFile { path, blocks: 0, records: Ghost(Seq::empty()) }
    }

    /// The path of the file.
    pub fn path(&self) -> (r: &str)
        ensures
            r@ == self.path_spec(),
    {
        self.path.as_str()
    }

    /// The number of records appended through this handle.
    pub fn len(&self) -> (r: usize)
        requires
            self.wf(),
        ensures
            r == self.records().len(),
    {
        self.blocks
    }

    /// Whether the handle can take no more records.
    pub fn is_full(&self) -> (r: bool)
        requires
            self.wf(),
        ensures
            r == !self.has_room(),
    {
        self.blocks == usize::MAX || self.blocks as u64 >= u64::MAX / 544
    }

    /// Counts `data` as appended and returns the 544 bytes that the caller
    /// writes at the end of the file.
    pub fn append(&mut self, data: &Block) -> (r: [u8; 544])
        requires
            old(self).wf(),
            old(self).has_room(),
        ensures
            final(self).wf(),
            final(self).records() == old(self).records().push(data@),
            final(self).path_spec() == old(self).path_spec(),
            r@ == serialize(data@),
            log_bytes(final(self).records()) == log_bytes(old(self).records()) + r@,
    {
        let bytes = data.to_bytes();
        proof {
            lemma_message_len(*data);
        }
        self.blocks = self.blocks + 1;
        self.records = Ghost(self.records@.push(data@));
        proof {
            assert(self.records@.drop_last() =~= old(self).records@);
        }
        bytes
    }

    /// The byte offset of record `index`, which must be one of the records
    /// appended through this handle.
    pub fn locate(&self, index: usize) -> (r: Result<u64, StoreError>)
        requires
            self.wf(),
        ensures
            index < self.records().len() <==> r is Ok,
            r is Ok ==> r->Ok_0 == index as int * 544,
            r is Err ==> r->Err_0 == StoreError::IndexOutOfRange,
    {
        if index < self.blocks {
            Ok(index as u64 * 544)
        } else {
            Err(StoreError::IndexOutOfRange)
        }
    }

    /// Counts the block that carries `ciphertext` for the addresses of `data`
    /// as appended, and returns its record.
    pub fn append_sealed(&mut self, data: &Block, ciphertext: &Vec<u8>) -> (r: [u8; 544])
        requires
            old(self).wf(),
            old(self).has_room(),
        ensures
            final(self).wf(),
            final(self).records() == old(self).records().push(sealed_view(data@, ciphertext@)),
            final(self).path_spec() == old(self).path_spec(),
            r@ == serialize(sealed_view(data@, ciphertext@)),
    {
        let sealed = data.sealed(ciphertext);
        self.append(&sealed)
    }

    /// Seals the message of `data` (up to its first zero byte) with
    /// `public_key`, counts the sealed block as appended and returns its
    /// record. A key whose ciphertexts would not fit in a message buffer is
    /// refused. On failure the handle is unchanged.
    pub fn append_enc(&mut self, data: &Block, public_key: &rsa::RsaPublicKey) -> (r: Result<
        [u8; 544],
        StoreError,
    >)
        requires
            old(self).wf(),
            old(self).has_room(),
        ensures
            final(self).wf(),
            final(self).path_spec() == old(self).path_spec(),
            zero_terminated(data@.message).len() + 11 > modulus_size(*public_key) ==> r is Err,
            modulus_size(*public_key) > 512 ==> r is Err,
            r is Err ==> r->Err_0 == StoreError::EncryptionFailed && final(self).records()
                == old(self).records(),
            r is Ok ==> exists|c: Seq<u8>|
                c.len() == modulus_size(*public_key) && c.len() <= 512 && final(self).records() == old(
                    self,
                ).records().push(sealed_view(data@, c)) && r->Ok_0@ == serialize(
                    #[trigger] sealed_view(data@, c),
                ),
    {
        let plaintext = data.plaintext();
        let size = public_key_size(public_key);
        if size < 11 || size > MESSAGE_LEN {
            return Err(StoreError::EncryptionFailed);
        }
        match encrypt_pkcs1v15(public_key, plaintext.as_slice()) {
            Ok(ciphertext) => Ok(self.append_sealed(data, &ciphertext)),
            Err(_) => Err(StoreError::EncryptionFailed),
        }
    }
}

/// What `read_enc` hands on for a decryption outcome.
pub fn opened(outcome: Result<Vec<u8>, rsa::errors::Error>) -> (r: Result<Vec<u8>, StoreError>)
    ensures
        outcome is Ok ==> r == Ok::<Vec<u8>, StoreError>(outcome->Ok_0),
        outcome is Err ==> r == Err::<Vec<u8>, StoreError>(StoreError::DecryptionFailed),
{
    match outcome {
        Ok(plaintext) => Ok(plaintext),
        Err(_) => Err(StoreError::DecryptionFailed),
    }
}

/// Opens the sealed payload of `record` (its message without trailing zero
/// bytes) with `private_key`.
pub fn read_enc(private_key: &rsa::RsaPrivateKey, record: &Block) -> (r: Result<Vec<u8>, StoreError>)
    ensures
        r is Ok <==> pkcs1v15_decrypted(*private_key, strip_zeros(record@.message)) is Some,
        r is Ok ==> r->Ok_0@ == pkcs1v15_decrypted(
            *private_key,
            strip_zeros(record@.message),
        )->Some_0,
        r is Err ==> r->Err_0 == StoreError::DecryptionFailed,
{
    let ciphertext = record.ciphertext();
    opened(decrypt_pkcs1v15(private_key, ciphertext.as_slice()))
}

/// The records appended through a handle lie back to back: record `i` is the
/// 544 bytes at offset `i * 544` of `log_bytes`, which `append` extends by
/// exactly the bytes it returns, and `locate` gives that offset. Decoding
/// those bytes gives the `i`-th block appended. Where the file was empty when
/// the handle was made and each returned record was written in order, these
/// are the file's contents.
pub proof fn lemma_sequential_offsets(s: BlockFile, i: int)
    requires
        s.wf(),
        0 <= i < s.records().len(),
    ensures
        log_bytes(s.records()).len() == s.records().len() * 544,
        i * 544 + 544 <= u64::MAX,
        deserialize(log_bytes(s.records()).subrange(i * 544, i * 544 + 544)) == s.records()[i],
{
    lemma_log_layout(s.records(), i);
}

proof fn lemma_log_layout(rs: Seq<BlockView>, i: int)
    requires
        0 <= i < rs.len(),
        forall|j: int| 0 <= j < rs.len() ==> #[trigger] rs[j].message.len() == 512,
    ensures
        log_bytes(rs).len() == rs.len() * 544,
        log_bytes(rs).subrange(i * 544, i * 544 + 544) == serialize(rs[i]),
        deserialize(log_bytes(rs).subrange(i * 544, i * 544 + 544)) == rs[i],
    decreases rs.len(),
{
    let init = rs.drop_last();
    round_trip_view(rs.last());
    round_trip_view(rs[i]);
    if rs.len() == 1 {
        assert(log_bytes(init) =~= Seq::<u8>::empty());
        assert(log_bytes(rs).subrange(0, 544) =~= serialize(rs[0]));
    } else if i < rs.len() - 1 {
        assert(init[i] == rs[i]);
        lemma_log_layout(init, i);
        assert(log_bytes(rs).subrange(i * 544, i * 544 + 544) =~= log_bytes(init).subrange(
            i * 544,
            i * 544 + 544,
        ));
    } else {
        lemma_log_layout(init, 0);
        assert(log_bytes(rs).subrange(i * 544, i * 544 + 544) =~= serialize(rs[i]));
    }
}

} // verus!
