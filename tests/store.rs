use aphrodite::block::{Addr, Block};
use aphrodite::store::{opened, read_enc, BlockFile, StoreError};

const TEXT: &str = "hdafihjouefwjouaehdafihjouefwjouaehdafihjouefwjouaehdafihjouefwjouae";

fn sample() -> Block {
    let mut b = Block::null();
    b.to(Addr::new(13));
    b.from(Addr::new(17));
    b.message_str(TEXT);
    b
}

fn read_at(file: &[u8], store: &BlockFile, index: usize) -> Result<Block, StoreError> {
    let offset = store.locate(index)? as usize;
    let mut record = [0u8; 544];
    record.copy_from_slice(&file[offset..offset + 544]);
    Ok(Block::from_bytes(record))
}

#[test]
fn new_store_is_empty() {
    let store = BlockFile::new("./block.chain".to_string());
    assert_eq!(store.len(), 0);
    assert_eq!(store.path(), "./block.chain");
    assert!(!store.is_full());
    assert_eq!(store.locate(0), Err(StoreError::IndexOutOfRange));
}

#[test]
fn append_then_read_scenario() {
    let mut store = BlockFile::new("p".to_string());
    let mut file: Vec<u8> = Vec::new();
    file.extend_from_slice(&store.append(&sample()));
    assert_eq!(file.len(), 544);
    assert_eq!(store.len(), 1);
    let b = read_at(&file, &store, 0).unwrap();
    assert_eq!(b.to_address().value(), 13);
    assert_eq!(b.from_address().value(), 17);
    assert_eq!(b.ciphertext(), TEXT.as_bytes().to_vec());
    assert_eq!(b.ciphertext().len(), TEXT.len());
}

#[test]
fn records_come_back_in_order() {
    let mut store = BlockFile::new("p".to_string());
    let mut file: Vec<u8> = Vec::new();
    for i in 0..5u128 {
        let mut b = Block::null();
        b.to(Addr::new(i));
        b.from(Addr::new(100 + i));
        b.message_vec(&vec![i as u8 + 1; (i as usize) + 1]);
        file.extend_from_slice(&store.append(&b));
    }
    assert_eq!(file.len(), 5 * 544);
    for i in 0..5usize {
        assert_eq!(store.locate(i), Ok(i as u64 * 544));
        let b = read_at(&file, &store, i).unwrap();
        assert_eq!(b.to_address().value(), i as u128);
        assert_eq!(b.from_address().value(), 100 + i as u128);
        assert_eq!(b.ciphertext(), vec![i as u8 + 1; i + 1]);
    }
}

#[test]
fn index_at_or_past_count_is_refused() {
    let mut store = BlockFile::new("p".to_string());
    store.append(&sample());
    store.append(&sample());
    assert_eq!(store.locate(1), Ok(544));
    assert_eq!(store.locate(2), Err(StoreError::IndexOutOfRange));
    assert_eq!(store.locate(usize::MAX), Err(StoreError::IndexOutOfRange));
}

#[test]
fn encrypted_round_trip_scenario() {
    let mut rng = rand::thread_rng();
    let private_key = rsa::RsaPrivateKey::new(&mut rng, 2048).unwrap();
    let public_key = rsa::RsaPublicKey::from(&private_key);
    let mut store = BlockFile::new("p".to_string());
    let record = store.append_enc(&sample(), &public_key).unwrap();
    assert_eq!(store.len(), 1);
    let file = record.to_vec();
    let b = read_at(&file, &store, 0).unwrap();
    assert_eq!(b.to_address().value(), 13);
    assert_eq!(b.from_address().value(), 17);
    assert_ne!(b.message()[..70].to_vec(), TEXT.as_bytes().to_vec());
    assert!(b.message()[256..].iter().all(|x| *x == 0));
    let opened_text = read_enc(&private_key, &b);
    if b.message()[255] != 0 {
        assert_eq!(opened_text, Ok(TEXT.as_bytes().to_vec()));
    } else {
        // a ciphertext ending in a zero byte loses it to the padding strip
        assert_ne!(opened_text, Ok(TEXT.as_bytes().to_vec()));
    }
}

#[test]
fn embedded_zero_seals_only_the_prefix() {
    let mut rng = rand::thread_rng();
    let private_key = rsa::RsaPrivateKey::new(&mut rng, 1024).unwrap();
    let public_key = rsa::RsaPublicKey::from(&private_key);
    let mut b = Block::null();
    b.message_vec(&vec![65u8, 66, 0, 67, 68]);
    let mut store = BlockFile::new("p".to_string());
    let record = store.append_enc(&b, &public_key).unwrap();
    let sealed = Block::from_bytes(record);
    if sealed.message()[127] != 0 {
        assert_eq!(read_enc(&private_key, &sealed), Ok(vec![65u8, 66]));
    }
}

#[test]
fn too_long_plaintext_fails_encryption() {
    let mut rng = rand::thread_rng();
    let private_key = rsa::RsaPrivateKey::new(&mut rng, 512).unwrap();
    let public_key = rsa::RsaPublicKey::from(&private_key);
    let mut store = BlockFile::new("p".to_string());
    assert_eq!(store.append_enc(&sample(), &public_key), Err(StoreError::EncryptionFailed));
    assert_eq!(store.len(), 0);
}

#[test]
fn empty_record_fails_decryption() {
    let mut rng = rand::thread_rng();
    let private_key = rsa::RsaPrivateKey::new(&mut rng, 512).unwrap();
    assert_eq!(read_enc(&private_key, &Block::null()), Err(StoreError::DecryptionFailed));
}

#[test]
fn opened_maps_outcomes() {
    assert_eq!(opened(Ok(vec![1u8, 2])), Ok(vec![1u8, 2]));
    assert_eq!(opened(Err(rsa::errors::Error::Decryption)), Err(StoreError::DecryptionFailed));
}
