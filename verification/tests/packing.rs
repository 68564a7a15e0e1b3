use wasm_boundary::{pack, to_scalar, to_word, try_pack, unpack, Error};

#[test]
fn pack_puts_pointer_high_and_length_low() {
    assert_eq!(pack(1, 16), 0x0000_0001_0000_0010);
    assert_eq!(pack(0, 0), 0);
    assert_eq!(pack(0, 7), 7);
    assert_eq!(pack(7, 0), 7i64 << 32);
    assert_eq!(pack(0x1234_5678, 0x9abc_def0), 0x1234_5678_9abc_def0);
}

#[test]
fn pack_of_a_high_pointer_is_negative() {
    assert_eq!(pack(0x8000_0000, 0), i64::MIN);
    assert_eq!(pack(u32::MAX, u32::MAX), -1);
    assert_eq!(pack(u32::MAX, 0), -(1i64 << 32));
}

#[test]
fn unpack_reads_the_bit_pattern() {
    assert_eq!(unpack(0x0000_0001_0000_0010), (1, 16));
    assert_eq!(unpack(-1), (u32::MAX, u32::MAX));
    assert_eq!(unpack(i64::MIN), (0x8000_0000, 0));
    assert_eq!(unpack(i64::MAX), (0x7fff_ffff, u32::MAX));
    assert_eq!(unpack(0), (0, 0));
}

#[test]
fn unpack_inverts_pack() {
    let samples: [u32; 9] =
        [0, 1, 2, 16, 4096, 0x7fff_ffff, 0x8000_0000, 0xffff_fffe, 0xffff_ffff];
    for &pointer in samples.iter() {
        for &length in samples.iter() {
            assert_eq!(unpack(pack(pointer, length)), (pointer, length));
        }
    }
}

#[test]
fn pack_inverts_unpack() {
    let samples: [i64; 7] = [0, 1, -1, i64::MIN, i64::MAX, 0x1_0000_0000, -0x1_0000_0001];
    for &value in samples.iter() {
        let (pointer, length) = unpack(value);
        assert_eq!(pack(pointer, length), value);
    }
}

#[test]
fn a_length_with_the_top_bit_set_does_not_spill_into_the_pointer() {
    let value = pack(5, 0xffff_ffff);
    assert_eq!(value, 0x0000_0005_ffff_ffff);
    assert_eq!(unpack(value), (5, 0xffff_ffff));
}

#[test]
fn packing_agrees_with_the_shared_join_and_split() {
    let samples: [i32; 7] = [0, 1, 23, -32, -1, i32::MIN, i32::MAX];
    for &a in samples.iter() {
        for &b in samples.iter() {
            let joined = wasi_binio_shared_mods::join_i32_to_i64(a, b);
            assert_eq!(pack(to_word(a), to_word(b)), joined);
            let (pointer, length) = unpack(joined);
            assert_eq!((to_scalar(pointer), to_scalar(length)), (a, b));
            assert_eq!(wasi_binio_shared_mods::split_i64_to_i32(joined), (a, b));
        }
    }
}

#[test]
fn try_pack_accepts_what_fits_in_32_bits() {
    assert_eq!(try_pack(1, 16), Ok(0x0000_0001_0000_0010));
    assert_eq!(try_pack(0, 0), Ok(0));
    assert_eq!(try_pack(0xffff_ffff, 0xffff_ffff), Ok(-1));
}

#[test]
fn try_pack_rejects_what_does_not_fit() {
    let big: usize = 0x1_0000_0000;
    assert_eq!(try_pack(big, 4), Err(Error::PackingOverflow { address: big, size: 4 }));
    assert_eq!(try_pack(4, big), Err(Error::PackingOverflow { address: 4, size: big }));
    assert_eq!(
        try_pack(usize::MAX, usize::MAX),
        Err(Error::PackingOverflow { address: usize::MAX, size: usize::MAX })
    );
}

#[test]
fn scalars_and_words_share_their_bits() {
    assert_eq!(to_scalar(0), 0);
    assert_eq!(to_scalar(0x7fff_ffff), i32::MAX);
    assert_eq!(to_scalar(0x8000_0000), i32::MIN);
    assert_eq!(to_scalar(0xffff_ffff), -1);
    assert_eq!(to_word(-1), 0xffff_ffff);
    assert_eq!(to_word(i32::MIN), 0x8000_0000);
    assert_eq!(to_word(16), 16);
    for &w in [0u32, 1, 0x7fff_ffff, 0x8000_0000, 0xffff_ffff].iter() {
        assert_eq!(to_word(to_scalar(w)), w);
    }
}
