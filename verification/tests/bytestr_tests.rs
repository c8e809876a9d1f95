use std::collections::hash_map::DefaultHasher;
use std::hash::Hash;
use std::hash::Hasher;

use bytebuf::bytestr::ByteString;
use bytebuf::bytestr::IntoVector;

fn hash_of(b: &ByteString) -> u64 {
    let mut h = DefaultHasher::new();
    b.hash(&mut h);
    h.finish()
}

#[test]
fn round_trip_bytes() {
    let bytes: Vec<u8> = vec![0, 255, 104, 10, 0, 128];
    let b = ByteString::from_bytes(bytes.clone());
    assert_eq!(b.into_bytes(), bytes);
}

#[test]
fn round_trip_empty() {
    let b = ByteString::from_bytes(Vec::<u8>::new());
    assert_eq!(b.into_bytes(), Vec::<u8>::new());
}

#[test]
fn utf8_round_trip() {
    let s = String::from("caf\u{e9} \u{1f600} ok");
    let b = ByteString::from_bytes(s.clone());
    assert_eq!(b.into_utf8_string(), Ok(s));
}

#[test]
fn utf8_failure_is_lossless() {
    let bytes: Vec<u8> = vec![0xe2, 0x28, 0xa1, 0x00, 0xff];
    let b = ByteString::from_bytes(bytes.clone());
    let r = b.into_utf8_string();
    match r {
        Ok(_) => panic!("invalid UTF-8 must not decode"),
        Err(back) => assert_eq!(back.into_bytes(), bytes),
    }
}

#[test]
fn hello_scenario() {
    let b = ByteString::from_bytes(vec![104u8, 101, 108, 108, 111]);
    assert_eq!(b.into_utf8_string(), Ok(String::from("hello")));
}

#[test]
fn invalid_bytes_scenario() {
    let b = ByteString::from_bytes(vec![255u8, 50, 48, 49]);
    let r = b.into_utf8_string();
    match r {
        Ok(_) => panic!("invalid UTF-8 must not decode"),
        Err(back) => assert_eq!(back.into_bytes(), vec![255u8, 50, 48, 49]),
    }
}

#[test]
fn sources_agree() {
    let from_vec = ByteString::from_bytes(vec![104u8, 105]);
    let from_slice = ByteString::from_bytes(&[104u8, 105][..]);
    let from_str = ByteString::from_bytes("hi");
    let from_string = ByteString::from_bytes(String::from("hi"));
    assert_eq!(from_vec, from_slice);
    assert_eq!(from_vec, from_str);
    assert_eq!(from_vec, from_string);
}

#[test]
fn into_vector_sources() {
    assert_eq!(vec![1u8, 2].into_vec(), vec![1u8, 2]);
    assert_eq!((&[1u8, 2][..]).into_vec(), vec![1u8, 2]);
    assert_eq!("hi".into_vec(), vec![104u8, 105]);
    assert_eq!(String::from("hi").into_vec(), vec![104u8, 105]);
}

#[test]
fn from_byte_iter_collects_in_order() {
    let b = ByteString::from_byte_iter(vec![5u8, 6, 7].into_iter());
    assert_eq!(b.as_bytes(), &[5u8, 6, 7]);
    let lazy = ByteString::from_byte_iter((0u8..4).map(|i| i * 10));
    assert_eq!(lazy.into_bytes(), vec![0u8, 10, 20, 30]);
}

#[test]
fn from_byte_iter_empty() {
    let b = ByteString::from_byte_iter(Vec::<u8>::new().into_iter());
    assert!(b.is_empty());
}

#[test]
fn equality_matches_bytes() {
    let a = ByteString::from_bytes(vec![1u8, 2, 3]);
    let b = ByteString::from_bytes(vec![1u8, 2, 3]);
    let c = ByteString::from_bytes(vec![1u8, 2, 4]);
    let d = ByteString::from_bytes(vec![1u8, 2]);
    assert_eq!(a, b);
    assert_ne!(a, c);
    assert_ne!(a, d);
}

#[test]
fn equal_buffers_hash_alike() {
    let a = ByteString::from_bytes(vec![9u8, 8, 7]);
    let b = ByteString::from_bytes(vec![9u8, 8, 7]);
    assert_eq!(a, b);
    assert_eq!(hash_of(&a), hash_of(&b));
}

#[test]
fn ordering_is_lexicographic() {
    let pairs: Vec<(Vec<u8>, Vec<u8>)> = vec![
        (vec![], vec![]),
        (vec![], vec![0]),
        (vec![1, 2], vec![1, 2, 0]),
        (vec![1, 2, 3], vec![1, 2, 4]),
        (vec![255], vec![0, 0, 0]),
        (vec![97, 98, 99], vec![97, 98, 99]),
    ];
    for (x, y) in pairs {
        let bx = ByteString::from_bytes(x.clone());
        let by = ByteString::from_bytes(y.clone());
        assert_eq!(bx.partial_cmp(&by), x.partial_cmp(&y));
        assert_eq!(bx.cmp(&by), x.cmp(&y));
    }
}

#[test]
fn sorting_matches_byte_order() {
    let mut buffers = vec![
        ByteString::from_bytes(vec![2u8]),
        ByteString::from_bytes(vec![1u8, 255]),
        ByteString::from_bytes(vec![]),
        ByteString::from_bytes(vec![1u8]),
    ];
    buffers.sort();
    let sorted: Vec<Vec<u8>> = buffers.into_iter().map(|b| b.into_bytes()).collect();
    assert_eq!(
        sorted,
        vec![vec![], vec![1u8], vec![1u8, 255], vec![2u8]]
    );
}

#[test]
fn slices_give_the_requested_range() {
    let b = ByteString::from_bytes(vec![10u8, 20, 30, 40, 50]);
    assert_eq!(b.slice(1, 4), &[20u8, 30, 40]);
    assert_eq!(b.slice(0, 5), &[10u8, 20, 30, 40, 50]);
    assert_eq!(b.slice(2, 2), &[] as &[u8]);
    assert_eq!(b.slice_from(3), &[40u8, 50]);
    assert_eq!(b.slice_from(5), &[] as &[u8]);
    assert_eq!(b.slice_to(2), &[10u8, 20]);
    assert_eq!(b.slice_to(0), &[] as &[u8]);
}

#[test]
fn empty_buffer_behavior() {
    let b = ByteString::from_bytes(Vec::<u8>::new());
    assert!(b.is_empty());
    assert_eq!(b.len(), 0);
    assert_eq!(b.slice(0, 0), &[] as &[u8]);
    assert_eq!(b.as_bytes(), &[] as &[u8]);
}

#[test]
fn len_and_as_bytes() {
    let b = ByteString::from_bytes(vec![7u8, 0, 9]);
    assert!(!b.is_empty());
    assert_eq!(b.len(), 3);
    assert_eq!(b.as_bytes(), &[7u8, 0, 9]);
}

#[test]
fn equiv_compares_against_text() {
    let b = ByteString::from_bytes(vec![97u8, 98, 99]);
    assert!(b.equiv("abc"));
    assert!(!b.equiv("abd"));
    assert!(!b.equiv("ab"));
    let raw = ByteString::from_bytes(vec![255u8]);
    assert!(!raw.equiv("\u{ff}"));
}

#[test]
fn clone_keeps_the_bytes() {
    let b = ByteString::from_bytes(vec![3u8, 1, 4]);
    let c = b.clone();
    assert_eq!(b, c);
    assert_eq!(c.into_bytes(), vec![3u8, 1, 4]);
}

#[test]
fn debug_shows_byte_values() {
    let b = ByteString::from_bytes(vec![255u8, 50, 48, 49]);
    assert_eq!(format!("{:?}", b), "ByteString([255, 50, 48, 49])");
}
