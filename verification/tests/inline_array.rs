//! Behaviour of the byte-array value: construction in each representation,
//! sharing, copy-on-write mutation, equality, ordering and hashing.

use std::collections::hash_map::DefaultHasher;
use std::hash::Hash;
use std::hash::Hasher;

use inline_array::InlineArray;
use inline_array::Kind;
use inline_array::hash_bytes;
use inline_array::len48::decode_len;
use inline_array::len48::encode_len;
use inline_array::order::cmp_slices;
use inline_array::order::eq_slices;

#[test]
fn inline_array_smoke() {
    let ia = InlineArray::from(vec![1, 2, 3]);
    assert_eq!(ia, vec![1, 2, 3]);
}

#[test]
fn small_remote_array_smoke() {
    let ia = InlineArray::from(&[4; 200][..]);
    assert_eq!(ia, vec![4; 200]);
}

#[test]
fn big_remote_array_smoke() {
    let ia = InlineArray::from(&[4; 256][..]);
    assert_eq!(ia, vec![4; 256]);
}

#[test]
fn boxed_slice_conversion() {
    let boite1: Box<[u8]> = Box::new([1, 2, 3]);
    let iv1: InlineArray = boite1.into();
    assert_eq!(iv1, vec![1, 2, 3]);
    let boite2: Box<[u8]> = Box::new([4; 128]);
    let iv2: InlineArray = boite2.into();
    assert_eq!(iv2, vec![4; 128]);
}

#[test]
fn inline_array_as_mut_identity() {
    let initial = &[1];
    let mut iv = InlineArray::from(initial);
    assert_eq!(initial, &*iv);
    assert_eq!(initial, iv.make_mut());
}

fn prop_identity(inline_array: &InlineArray) -> bool {
    let mut iv2 = inline_array.clone();

    if iv2 != inline_array {
        println!("expected clone to equal original");
        return false;
    }

    if *inline_array != *iv2 {
        println!("expected AsMut to equal original");
        return false;
    }

    if &*inline_array != iv2.make_mut() {
        println!("expected AsMut to equal original");
        return false;
    }

    let buf: &[u8] = inline_array.as_ref();
    assert_eq!(buf.as_ptr() as usize % 8, 0);

    true
}

#[test]
fn inline_array_bug_00() {
    assert!(prop_identity(&InlineArray::new(&[
        0, 0, 0, 0, 0, 0, 0, 0, 0, 0, 0, 0, 0, 0, 0, 0,
    ])));
}

#[test]
fn construction_round_trips_inline_lengths() {
    for len in 0..=7usize {
        let bytes: Vec<u8> = (0..len as u8).collect();
        let v = InlineArray::from(&bytes[..]);
        assert_eq!(v.kind(), Kind::Inline);
        assert_eq!(v.len(), len);
        assert_eq!(&*v, &bytes[..]);
    }
}

#[test]
fn construction_round_trips_small_lengths() {
    for len in [8usize, 9, 100, 254, 255] {
        let bytes: Vec<u8> = (0..len).map(|i| (i % 251) as u8).collect();
        let v = InlineArray::from(&bytes[..]);
        assert_eq!(v.kind(), Kind::SmallRemote);
        assert_eq!(v.len(), len);
        assert_eq!(&*v, &bytes[..]);
    }
}

#[test]
fn construction_round_trips_big_lengths() {
    for len in [256usize, 257, 1000, 4096] {
        let bytes: Vec<u8> = (0..len).map(|i| (i % 251) as u8).collect();
        let v = InlineArray::from(&bytes[..]);
        assert_eq!(v.kind(), Kind::BigRemote);
        assert_eq!(v.len(), len);
        assert_eq!(&*v, &bytes[..]);
    }
}

#[test]
fn clone_views_are_equal() {
    for bytes in [vec![], vec![1, 2, 3], vec![5; 100], vec![6; 700]] {
        let v = InlineArray::from(&bytes[..]);
        let c = v.clone();
        assert_eq!(&*c, &*v);
        assert_eq!(c, v);
    }
}

#[test]
fn equality_is_view_equality() {
    let a = InlineArray::from(&[1, 2, 3]);
    let b = InlineArray::from(vec![1, 2, 3]);
    let c = InlineArray::from(&[1, 2, 4]);
    let d = InlineArray::from(&[1, 2, 3, 4]);
    assert_eq!(a, b);
    assert!(a != c);
    assert!(a != d);
    let long_a = InlineArray::from(&[9; 300][..]);
    let long_b = InlineArray::from(vec![9; 300]);
    assert_eq!(long_a, long_b);
    assert!(long_a != a);
}

#[test]
fn ordering_matches_slice_ordering() {
    let cases: [(&[u8], &[u8]); 6] = [
        (&[], &[]),
        (&[], &[0]),
        (&[1, 2, 3], &[1, 2, 3]),
        (&[1, 2], &[1, 2, 3]),
        (&[1, 2, 4], &[1, 2, 3]),
        (&[200; 300], &[200; 299]),
    ];
    for (x, y) in cases {
        let vx = InlineArray::from(x);
        let vy = InlineArray::from(y);
        assert_eq!(vx.cmp(&vy), x.cmp(y));
        assert_eq!(vx.partial_cmp(&vy), Some(x.cmp(y)));
        assert_eq!(cmp_slices(x, y), x.cmp(y));
        assert_eq!(eq_slices(x, y), x == y);
    }
}

#[test]
fn hashing_matches_raw_bytes() {
    for bytes in [vec![], vec![1, 2, 3], vec![7; 40], vec![8; 600]] {
        let v = InlineArray::from(&bytes[..]);

        assert_eq!(v.hash64(), hash_bytes(&bytes));

        let mut h1 = DefaultHasher::new();
        v.hash(&mut h1);
        let mut h2 = DefaultHasher::new();
        bytes[..].hash(&mut h2);
        assert_eq!(h1.finish(), h2.finish());
    }
}

#[test]
fn default_is_empty_inline() {
    let v = InlineArray::default();
    assert_eq!(v.kind(), Kind::Inline);
    assert_eq!(v.len(), 0);
    assert!(v.is_empty());
    assert_eq!(&*v, &[]);
}

#[test]
fn string_conversions_use_utf8_bytes() {
    let from_str = InlineArray::from("hello");
    assert_eq!(&*from_str, b"hello");
    let owned = String::from("a longer string that does not fit inline");
    let from_ref = InlineArray::from(&owned);
    let from_owned = InlineArray::from(owned.clone());
    assert_eq!(&*from_ref, owned.as_bytes());
    assert_eq!(from_owned, from_ref);
}

#[test]
fn array_reference_conversion() {
    let v = InlineArray::from(&[1u8, 2, 3, 4, 5, 6, 7, 8, 9]);
    assert_eq!(&*v, &[1, 2, 3, 4, 5, 6, 7, 8, 9]);
    let w = InlineArray::from(&v);
    assert_eq!(w, v);
}

#[test]
fn try_new_accepts_every_testable_length() {
    assert!(InlineArray::try_new(&[]).is_ok());
    assert!(InlineArray::try_new(&[3; 4096]).is_ok());
}

#[test]
fn inline_scenario() {
    let v = InlineArray::from(&[1, 2, 3]);
    assert_eq!(v.kind(), Kind::Inline);
    assert_eq!(&*v, &[1, 2, 3]);
    assert_eq!(v.len(), 3);
    assert_eq!(&*v.clone(), &[1, 2, 3]);
}

#[test]
fn small_remote_scenario() {
    let v = InlineArray::from(&[4; 200][..]);
    assert_eq!(v.kind(), Kind::SmallRemote);
    assert_eq!(v, vec![4; 200]);
    let c1 = v.clone();
    let c2 = v.clone();
    drop(c1);
    assert_eq!(v, vec![4; 200]);
    assert_eq!(c2, vec![4; 200]);
}

#[test]
fn big_remote_scenario() {
    let v = InlineArray::from(&[4; 256][..]);
    assert_eq!(v.kind(), Kind::BigRemote);
    assert_eq!(v, vec![4; 256]);
}

#[test]
fn unique_make_mut_scenario() {
    let v = InlineArray::from(&[0; 16]);
    let c = v.clone();
    assert_eq!(c, v);
    drop(c);
    let mut v = v;
    assert_eq!(v.make_mut(), &[0; 16][..]);
}

#[test]
fn make_mut_privatizes_a_shared_buffer() {
    let mut v = InlineArray::from(&[9; 64][..]);
    let w = v.clone();
    {
        let m = v.make_mut();
        assert_eq!(m, &[9; 64][..]);
        m[0] = 1;
        m[63] = 2;
    }
    assert_eq!(v[0], 1);
    assert_eq!(v[63], 2);
    assert_eq!(w, vec![9; 64]);
}

#[test]
fn make_mut_writes_show_in_the_view() {
    let mut v = InlineArray::from(&[7, 7, 7]);
    v.make_mut()[0] = 8;
    assert_eq!(&*v, &[8, 7, 7]);
}

#[test]
fn make_mut_privatizes_a_shared_big_buffer() {
    let mut v = InlineArray::from(&[5; 300][..]);
    let w = v.clone();
    v.make_mut()[299] = 6;
    assert_eq!(v[299], 6);
    assert_eq!(w, vec![5; 300]);
}

#[test]
fn saturated_counter_keeps_every_clone_intact() {
    let original = InlineArray::from(&[11; 256][..]);
    let mut clones: Vec<InlineArray> = Vec::new();
    for _ in 0..(u16::MAX as usize + 1) {
        clones.push(original.clone());
    }
    assert_eq!(&*original, &[11; 256][..]);
    assert_eq!(&*clones[0], &[11; 256][..]);
    assert_eq!(&*clones[u16::MAX as usize], &[11; 256][..]);
    for c in &clones {
        assert_eq!(c, &original);
    }
    drop(clones);
    assert_eq!(&*original, &[11; 256][..]);
}

#[test]
fn small_counter_saturation_keeps_every_clone_intact() {
    let original = InlineArray::from(&[12; 20][..]);
    let mut clones: Vec<InlineArray> = Vec::new();
    for _ in 0..(u8::MAX as usize + 1) {
        clones.push(original.clone());
    }
    for c in &clones {
        assert_eq!(c, &original);
    }
    drop(clones);
    assert_eq!(&*original, &[12; 20][..]);
}

#[test]
fn length_field_round_trips() {
    for len in [0usize, 1, 255, 256, 65536, 0xFFFF_FFFF_FFFF] {
        let bytes = encode_len(len);
        assert_eq!(decode_len(&bytes) as usize, len);
    }
    assert_eq!(encode_len(0x0102_0304_0506), [6, 5, 4, 3, 2, 1]);
}

#[test]
fn representation_sanity_checks_run() {
    inline_array::_static_tests();
}

#[test]
fn word_trailer_encodes_length_and_tag() {
    let v = InlineArray::from(&[1, 2, 3]);
    assert_eq!(v.inline_trailer(), 3 << 2);
    assert_eq!(v.inline_len(), 3);
    let s = InlineArray::from(&[4; 200][..]);
    assert_eq!(s.inline_trailer(), 0b01);
    assert_eq!(s.inline_len(), 0);
    let b = InlineArray::from(&[4; 256][..]);
    assert_eq!(b.inline_trailer(), 0b10);
    assert_eq!(b.inline_len(), 0);
}
