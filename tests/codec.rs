use aphrodite::block::{strip_trailing_zeros, Addr, Block};

const TEXT: &str = "hdafihjouefwjouaehdafihjouefwjouaehdafihjouefwjouaehdafihjouefwjouae";

fn sample() -> Block {
    let mut b = Block::null();
    b.to(Addr::new(13));
    b.from(Addr::new(17));
    b.message_str(TEXT);
    b
}

#[test]
fn null_block_is_all_zero() {
    let b = Block::null();
    let bytes = b.to_bytes();
    assert_eq!(bytes.len(), 544);
    assert!(bytes.iter().all(|x| *x == 0));
    assert_eq!(b.to_address().value(), 0);
    assert_eq!(b.from_address().value(), 0);
    assert_eq!(b.message(), vec![0u8; 512]);
}

#[test]
fn layout_is_little_endian_to_then_from_then_message() {
    let mut b = Block::null();
    b.to(Addr::new(0x0102));
    b.from(Addr::new(u128::MAX));
    b.message_vec(&vec![7u8, 8u8]);
    let bytes = b.to_bytes();
    assert_eq!(bytes[0], 0x02);
    assert_eq!(bytes[1], 0x01);
    assert!(bytes[2..16].iter().all(|x| *x == 0));
    assert!(bytes[16..32].iter().all(|x| *x == 0xff));
    assert_eq!(bytes[32], 7);
    assert_eq!(bytes[33], 8);
    assert!(bytes[34..].iter().all(|x| *x == 0));
}

#[test]
fn round_trip_restores_block() {
    let b = sample();
    let back = Block::from_bytes(b.to_bytes());
    assert_eq!(back.to_address().value(), 13);
    assert_eq!(back.from_address().value(), 17);
    assert_eq!(back.message(), b.message());
    assert_eq!(back.to_bytes().to_vec(), b.to_bytes().to_vec());
}

#[test]
fn from_bytes_reads_fields() {
    let mut bytes = [0u8; 544];
    bytes[0] = 13;
    bytes[16] = 17;
    bytes[31] = 1;
    bytes[543] = 9;
    let b = Block::from_bytes(bytes);
    assert_eq!(b.to_address().value(), 13);
    assert_eq!(b.from_address().value(), 17 + (1u128 << 120));
    assert_eq!(b.message()[511], 9);
}

#[test]
fn long_message_is_truncated_to_512_bytes() {
    let src: Vec<u8> = (0..600u32).map(|i| (i % 251) as u8 + 1).collect();
    let mut b = Block::null();
    b.message_vec(&src);
    assert_eq!(b.message(), src[..512].to_vec());
    let text = "x".repeat(700);
    let mut t = Block::null();
    t.message_str(&text);
    assert_eq!(t.message(), vec![b'x'; 512]);
}

#[test]
fn short_message_keeps_old_tail() {
    let mut b = Block::null();
    b.message_vec(&vec![5u8; 10]);
    b.message_str("ab");
    let m = b.message();
    assert_eq!(&m[..2], b"ab");
    assert_eq!(&m[2..10], &[5u8; 8]);
    assert!(m[10..].iter().all(|x| *x == 0));
}

#[test]
fn plaintext_is_the_text_without_zero_bytes() {
    let b = sample();
    assert_eq!(b.plaintext(), TEXT.as_bytes().to_vec());
}

#[test]
fn plaintext_stops_at_embedded_zero() {
    let mut b = Block::null();
    b.message_vec(&vec![1u8, 2, 0, 3, 4]);
    assert_eq!(b.plaintext(), vec![1u8, 2]);
}

#[test]
fn plaintext_of_full_buffer_is_whole_buffer() {
    let mut b = Block::null();
    b.message_vec(&vec![9u8; 512]);
    assert_eq!(b.plaintext(), vec![9u8; 512]);
}

#[test]
fn strip_trailing_zeros_keeps_inner_zeros() {
    assert_eq!(strip_trailing_zeros(&[1, 0, 2, 0, 0]), vec![1u8, 0, 2]);
    assert_eq!(strip_trailing_zeros(&[0, 0]), Vec::<u8>::new());
    assert_eq!(strip_trailing_zeros(&[]), Vec::<u8>::new());
    assert_eq!(strip_trailing_zeros(&[3]), vec![3u8]);
}

#[test]
fn sealed_block_keeps_addresses_and_pads() {
    let b = sample();
    let s = b.sealed(&vec![4u8, 0, 6]);
    assert_eq!(s.to_address().value(), 13);
    assert_eq!(s.from_address().value(), 17);
    let m = s.message();
    assert_eq!(&m[..3], &[4u8, 0, 6]);
    assert!(m[3..].iter().all(|x| *x == 0));
    assert_eq!(s.ciphertext(), vec![4u8, 0, 6]);
}
