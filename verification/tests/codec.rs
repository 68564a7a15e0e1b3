use wasm_boundary::{Error, Point, Rect, Value};

#[test]
fn a_point_is_its_two_coordinates_least_significant_byte_first() {
    let p = Point { x: 2, y: 3 };
    assert_eq!(p.encode(), vec![2, 0, 0, 0, 3, 0, 0, 0]);
    let q = Point { x: 0x0102_0304, y: -2 };
    assert_eq!(q.encode(), vec![4, 3, 2, 1, 0xfe, 0xff, 0xff, 0xff]);
}

#[test]
fn a_rect_is_its_four_sides_in_order() {
    let r = Rect { left: 2, right: 8, top: 3, bottom: 9 };
    assert_eq!(r.encode(), vec![2, 0, 0, 0, 8, 0, 0, 0, 3, 0, 0, 0, 9, 0, 0, 0]);
}

#[test]
fn a_pair_of_points_is_one_point_after_the_other() {
    let pair = (Point { x: 2, y: 3 }, Point { x: 8, y: 9 });
    let mut expected = pair.0.encode();
    expected.extend(pair.1.encode());
    assert_eq!(pair.encode(), expected);
    assert_eq!(pair.encode().len(), 16);
}

#[test]
fn integers_encode_in_four_bytes() {
    assert_eq!(1i32.encode(), vec![1, 0, 0, 0]);
    assert_eq!((-1i32).encode(), vec![0xff, 0xff, 0xff, 0xff]);
    assert_eq!(i32::MIN.encode(), vec![0, 0, 0, 0x80]);
    assert_eq!(i32::MAX.encode(), vec![0xff, 0xff, 0xff, 0x7f]);
    assert_eq!(0xdead_beefu32.encode(), vec![0xef, 0xbe, 0xad, 0xde]);
    assert_eq!(i32::decode(&[0, 0, 0, 0x80]), Ok(i32::MIN));
    assert_eq!(u32::decode(&[0xef, 0xbe, 0xad, 0xde]), Ok(0xdead_beef));
}

#[test]
fn encoded_size_is_the_length_of_the_encoding() {
    let p = Point { x: -7, y: 70 };
    let r = Rect { left: 1, right: 2, top: 3, bottom: 4 };
    let pair = (p, Point { x: 0, y: 0 });
    assert_eq!(p.encoded_size(), 8);
    assert_eq!(r.encoded_size(), 16);
    assert_eq!(pair.encoded_size(), 16);
    assert_eq!(5i32.encoded_size(), 4);
    assert_eq!(5u32.encoded_size(), 4);
    assert_eq!(p.encoded_size(), p.encode().len());
    assert_eq!(r.encoded_size(), r.encode().len());
    assert_eq!(pair.encoded_size(), pair.encode().len());
    assert_eq!(5i32.encoded_size(), 5i32.encode().len());
    assert_eq!(5u32.encoded_size(), 5u32.encode().len());
}

#[test]
fn decode_inverts_encode() {
    let coordinates: [i32; 7] = [0, 1, -1, 2, 1000, i32::MIN, i32::MAX];
    for &x in coordinates.iter() {
        for &y in coordinates.iter() {
            let p = Point { x, y };
            assert_eq!(Point::decode(&p.encode()), Ok(p));
            let r = Rect { left: x, right: y, top: y, bottom: x };
            assert_eq!(Rect::decode(&r.encode()), Ok(r));
            let pair = (p, Point { x: y, y: x });
            assert_eq!(<(Point, Point)>::decode(&pair.encode()), Ok(pair));
            assert_eq!(i32::decode(&x.encode()), Ok(x));
        }
    }
    for &w in [0u32, 1, 0x8000_0000, u32::MAX].iter() {
        assert_eq!(u32::decode(&w.encode()), Ok(w));
    }
}

#[test]
fn encode_inverts_decode() {
    let bytes: Vec<u8> = (1u8..=16).map(|b| b.wrapping_mul(37)).collect();
    let r = Rect::decode(&bytes).unwrap();
    assert_eq!(r.encode(), bytes);
    let pair = <(Point, Point)>::decode(&bytes).unwrap();
    assert_eq!(pair.encode(), bytes);
    let p = Point::decode(&bytes).unwrap();
    assert_eq!(p.encode(), bytes[..8].to_vec());
}

#[test]
fn decode_of_a_short_input_fails() {
    let p = Point { x: 2, y: 3 }.encode();
    for n in 0..8 {
        assert_eq!(Point::decode(&p[..n]), Err(Error::Decode { expected: 8, actual: n }));
    }
    let r = Rect { left: 2, right: 8, top: 3, bottom: 9 }.encode();
    for n in 0..16 {
        assert_eq!(Rect::decode(&r[..n]), Err(Error::Decode { expected: 16, actual: n }));
        assert_eq!(
            <(Point, Point)>::decode(&r[..n]),
            Err(Error::Decode { expected: 16, actual: n })
        );
    }
    for n in 0..4 {
        assert_eq!(i32::decode(&r[..n]), Err(Error::Decode { expected: 4, actual: n }));
        assert_eq!(u32::decode(&r[..n]), Err(Error::Decode { expected: 4, actual: n }));
    }
    assert_eq!(Point::decode(&[]), Err(Error::Decode { expected: 8, actual: 0 }));
}

#[test]
fn decode_does_not_look_beyond_the_encoding() {
    let mut bytes = Point { x: 2, y: 3 }.encode();
    bytes.extend([0xaa, 0xbb, 0xcc]);
    assert_eq!(Point::decode(&bytes), Ok(Point { x: 2, y: 3 }));
}

#[test]
fn the_encoding_is_the_one_that_bincode_writes() {
    let coordinates: [i32; 6] = [0, 3, -3, 0x0102_0304, i32::MIN, i32::MAX];
    for &a in coordinates.iter() {
        for &b in coordinates.iter() {
            let p = Point { x: a, y: b };
            assert_eq!(p.encode(), bincode::serialize(&(a, b)).unwrap());
            assert_eq!(p.encoded_size() as u64, bincode::serialized_size(&(a, b)).unwrap());
            let r = Rect { left: a, right: b, top: b, bottom: a };
            assert_eq!(r.encode(), bincode::serialize(&(a, b, b, a)).unwrap());
            let pair = (p, Point { x: b, y: a });
            assert_eq!(pair.encode(), bincode::serialize(&((a, b), (b, a))).unwrap());
            assert_eq!(a.encode(), bincode::serialize(&a).unwrap());
        }
    }
    assert_eq!(0xdead_beefu32.encode(), bincode::serialize(&0xdead_beefu32).unwrap());
}

#[test]
fn decoding_accepts_what_bincode_accepts() {
    let bytes: Vec<u8> = (0u8..20).map(|b| b.wrapping_mul(53).wrapping_add(9)).collect();
    for n in 0..=bytes.len() {
        let input = &bytes[..n];
        let theirs: Option<(i32, i32)> = bincode::deserialize(input).ok();
        let ours = Point::decode(input).ok().map(|p| (p.x, p.y));
        assert_eq!(ours, theirs);
        let theirs: Option<(i32, i32, i32, i32)> = bincode::deserialize(input).ok();
        let ours = Rect::decode(input).ok().map(|r| (r.left, r.right, r.top, r.bottom));
        assert_eq!(ours, theirs);
        let theirs: Option<((i32, i32), (i32, i32))> = bincode::deserialize(input).ok();
        let ours =
            <(Point, Point)>::decode(input).ok().map(|(p, q)| ((p.x, p.y), (q.x, q.y)));
        assert_eq!(ours, theirs);
        let theirs: Option<u32> = bincode::deserialize(input).ok();
        assert_eq!(u32::decode(input).ok(), theirs);
    }
}
