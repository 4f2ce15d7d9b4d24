use dupescan::digest::{
    calculate_digest, digest_bytes, digest_chunks, DigestError, DigestStep, ReadOutcome,
    StreamDigest, CHUNK_SIZE,
};
use dupescan::hex::{has_digest_shape, to_hex};

const HELLO_MD5: &str = "5d41402abc4b2a76b9719d911017c592";
const EMPTY_MD5: &str = "d41d8cd98f00b204e9800998ecf8427e";

fn sample(len: usize) -> Vec<u8> {
    let mut data = Vec::with_capacity(len);
    for i in 0..len {
        data.push((i * 31 % 251) as u8);
    }
    data
}

#[test]
fn digest_of_hello_matches_known_vector() {
    assert_eq!(digest_bytes(b"hello"), HELLO_MD5);
}

#[test]
fn digest_of_known_inputs() {
    assert_eq!(digest_bytes(b""), EMPTY_MD5);
    assert_eq!(digest_bytes(b"world"), "7d793037a0760186574b0282f2f435e7");
    assert_eq!(digest_bytes(b"abc"), "900150983cd24fb0d6963f7d28e17f72");
    assert_eq!(digest_bytes(b"hello world"), "5eb63bbbe01eeed093cb22bb8f5acdc3");
}

#[test]
fn digest_differs_from_its_input() {
    let input = b"0123456789abcdef0123456789abcdef";
    let fp = digest_bytes(input);
    assert_ne!(fp.as_bytes(), &input[..]);
    assert!(has_digest_shape(&fp));
}

#[test]
fn chunks_give_the_digest_of_their_concatenation() {
    let chunks = vec![b"he".to_vec(), b"".to_vec(), b"l".to_vec(), b"lo".to_vec()];
    assert_eq!(digest_chunks(&chunks), HELLO_MD5);
    assert_eq!(digest_chunks(&vec![b"hello".to_vec()]), HELLO_MD5);
    assert_eq!(digest_chunks(&Vec::new()), EMPTY_MD5);
}

#[test]
fn every_split_point_gives_the_same_digest() {
    let data = sample(200);
    let whole = digest_bytes(&data);
    for cut in 0..=data.len() {
        let chunks = vec![data[..cut].to_vec(), data[cut..].to_vec()];
        assert_eq!(digest_chunks(&chunks), whole);
    }
}

#[test]
fn every_chunk_size_gives_the_same_digest() {
    let data = sample(1000);
    let whole = digest_bytes(&data);
    for size in [1usize, 2, 3, 7, 64, 100, 250, 999, 1000, 1001, CHUNK_SIZE] {
        assert_eq!(calculate_digest(&data, size), whole);
    }
}

#[test]
fn chunk_size_zero_reads_nothing() {
    assert_eq!(calculate_digest(b"hello", 0), EMPTY_MD5);
}

#[test]
fn calculate_digest_of_empty_source() {
    assert_eq!(calculate_digest(b"", CHUNK_SIZE), EMPTY_MD5);
}

#[test]
fn source_of_several_full_chunks() {
    let data = sample(3 * CHUNK_SIZE);
    assert_eq!(calculate_digest(&data, CHUNK_SIZE), digest_bytes(&data));
    let longer = sample(3 * CHUNK_SIZE + 5);
    assert_eq!(calculate_digest(&longer, CHUNK_SIZE), digest_bytes(&longer));
}

#[test]
fn short_read_ends_the_stream() {
    let state = StreamDigest::new(8);
    match state.feed(ReadOutcome::Data(b"hello".to_vec())) {
        DigestStep::Done(fp) => assert_eq!(fp, HELLO_MD5),
        _ => panic!("a short read must end the digest"),
    }
}

#[test]
fn empty_read_ends_the_stream() {
    let state = StreamDigest::new(5);
    let state = match state.feed(ReadOutcome::Data(b"hello".to_vec())) {
        DigestStep::Continue(next) => next,
        _ => panic!("a full read must ask for more"),
    };
    match state.feed(ReadOutcome::Data(Vec::new())) {
        DigestStep::Done(fp) => assert_eq!(fp, HELLO_MD5),
        _ => panic!("an empty read must end the digest"),
    }
}

#[test]
fn full_reads_accumulate() {
    let state = StreamDigest::new(2);
    let state = match state.feed(ReadOutcome::Data(b"he".to_vec())) {
        DigestStep::Continue(next) => next,
        _ => panic!("a full read must ask for more"),
    };
    let state = match state.feed(ReadOutcome::Data(b"ll".to_vec())) {
        DigestStep::Continue(next) => next,
        _ => panic!("a full read must ask for more"),
    };
    match state.feed(ReadOutcome::Data(b"o".to_vec())) {
        DigestStep::Done(fp) => assert_eq!(fp, HELLO_MD5),
        _ => panic!("a short read must end the digest"),
    }
}

#[test]
fn failed_read_gives_no_fingerprint() {
    let state = StreamDigest::standard();
    match state.feed(ReadOutcome::Failed) {
        DigestStep::Failed(e) => assert_eq!(e, DigestError::ReadFailure),
        _ => panic!("a failed read must fail the digest"),
    }
}

#[test]
fn failed_read_after_data_drops_the_partial_digest() {
    let state = StreamDigest::new(2);
    let state = match state.feed(ReadOutcome::Data(b"he".to_vec())) {
        DigestStep::Continue(next) => next,
        _ => panic!("a full read must ask for more"),
    };
    assert!(matches!(
        state.feed(ReadOutcome::Failed),
        DigestStep::Failed(DigestError::ReadFailure)
    ));
}

#[test]
fn standard_chunk_size() {
    assert_eq!(CHUNK_SIZE, 16384);
    let data = sample(CHUNK_SIZE);
    let state = StreamDigest::standard();
    assert!(matches!(state.feed(ReadOutcome::Data(data)), DigestStep::Continue(_)));
    let shorter = sample(CHUNK_SIZE - 1);
    let state = StreamDigest::standard();
    assert!(matches!(state.feed(ReadOutcome::Data(shorter)), DigestStep::Done(_)));
}

#[test]
fn hex_of_bytes() {
    assert_eq!(to_hex(&[]), "");
    assert_eq!(to_hex(&[0x00]), "00");
    assert_eq!(to_hex(&[0x0f, 0xf0, 0xa5]), "0ff0a5");
    assert_eq!(to_hex(&[0x01, 0x23, 0x45, 0x67, 0x89, 0xab, 0xcd, 0xef]), "0123456789abcdef");
    assert_eq!(to_hex(&[0xff, 0x10, 0x9a]), "ff109a");
}

#[test]
fn digest_shape() {
    assert!(has_digest_shape(HELLO_MD5));
    assert!(has_digest_shape("00000000000000000000000000000000"));
    assert!(!has_digest_shape(""));
    assert!(!has_digest_shape("5d41402abc4b2a76b9719d911017c59"));
    assert!(!has_digest_shape("5d41402abc4b2a76b9719d911017c5920"));
    assert!(!has_digest_shape("5D41402ABC4B2A76B9719D911017C592"));
    assert!(!has_digest_shape("5d41402abc4b2a76b9719d911017c59g"));
    assert!(!has_digest_shape("5d41402abc4b2a76b9719d911017c59/"));
    assert!(!has_digest_shape("5d41402abc4b2a76b9719d911017c59:"));
    assert!(!has_digest_shape("5d41402abc4b2a76b9719d911017c59`"));
    assert!(!has_digest_shape("5d41402abc4b2a76b9719d911017c5é"));
}
