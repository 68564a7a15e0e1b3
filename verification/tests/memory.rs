use wasm_boundary::{read_region, write_region, Error};

#[test]
fn a_region_is_read_as_it_stands() {
    let memory: Vec<u8> = (0u8..32).collect();
    assert_eq!(read_region(&memory, 4, 3), Ok(vec![4, 5, 6]));
    assert_eq!(read_region(&memory, 0, 32), Ok(memory.clone()));
    assert_eq!(read_region(&memory, 31, 1), Ok(vec![31]));
}

#[test]
fn an_empty_region_may_sit_at_the_very_end() {
    let memory = vec![1u8, 2, 3];
    assert_eq!(read_region(&memory, 3, 0), Ok(vec![]));
    assert_eq!(read_region(&memory, 0, 0), Ok(vec![]));
    assert_eq!(
        read_region(&memory, 4, 0),
        Err(Error::MemoryRead { pointer: 4, length: 0, extent: 3 })
    );
}

#[test]
fn a_read_beyond_the_extent_fails() {
    let memory = vec![0u8; 16];
    assert_eq!(
        read_region(&memory, 10, 7),
        Err(Error::MemoryRead { pointer: 10, length: 7, extent: 16 })
    );
    assert_eq!(
        read_region(&memory, 16, 1),
        Err(Error::MemoryRead { pointer: 16, length: 1, extent: 16 })
    );
    assert_eq!(
        read_region(&memory, u32::MAX, u32::MAX),
        Err(Error::MemoryRead { pointer: u32::MAX, length: u32::MAX as usize, extent: 16 })
    );
    assert_eq!(
        read_region(&[], 0, 1),
        Err(Error::MemoryRead { pointer: 0, length: 1, extent: 0 })
    );
}

#[test]
fn a_write_replaces_its_region_and_nothing_else() {
    let mut memory: Vec<u8> = vec![9; 8];
    assert_eq!(write_region(&mut memory, 2, &[1, 2, 3]), Ok(()));
    assert_eq!(memory, vec![9, 9, 1, 2, 3, 9, 9, 9]);
    assert_eq!(write_region(&mut memory, 5, &[7, 7, 7]), Ok(()));
    assert_eq!(memory, vec![9, 9, 1, 2, 3, 7, 7, 7]);
    assert_eq!(write_region(&mut memory, 8, &[]), Ok(()));
    assert_eq!(memory, vec![9, 9, 1, 2, 3, 7, 7, 7]);
}

#[test]
fn a_write_beyond_the_extent_fails_and_writes_nothing() {
    let mut memory: Vec<u8> = vec![9; 8];
    assert_eq!(
        write_region(&mut memory, 6, &[1, 2, 3]),
        Err(Error::MemoryWrite { pointer: 6, length: 3, extent: 8 })
    );
    assert_eq!(memory, vec![9; 8]);
    assert_eq!(
        write_region(&mut memory, 9, &[]),
        Err(Error::MemoryWrite { pointer: 9, length: 0, extent: 8 })
    );
    assert_eq!(
        write_region(&mut memory, u32::MAX, &[1]),
        Err(Error::MemoryWrite { pointer: u32::MAX, length: 1, extent: 8 })
    );
    assert_eq!(memory, vec![9; 8]);
}

#[test]
fn what_is_written_is_read_back() {
    for &size in [0usize, 1, 8, 4096].iter() {
        let bytes: Vec<u8> = (0..size).map(|i| (i % 251) as u8).collect();
        let mut memory = vec![0xeeu8; 5000];
        assert_eq!(write_region(&mut memory, 100, &bytes), Ok(()));
        assert_eq!(read_region(&memory, 100, size as u32), Ok(bytes));
        assert_eq!(memory.len(), 5000);
        assert!(memory[..100].iter().all(|&b| b == 0xee));
        assert!(memory[100 + size..].iter().all(|&b| b == 0xee));
    }
}

#[test]
fn a_write_elsewhere_leaves_a_region_alone() {
    let mut memory: Vec<u8> = (0u8..64).collect();
    let before = read_region(&memory, 8, 16).unwrap();
    assert_eq!(write_region(&mut memory, 24, &[0xff; 16]), Ok(()));
    assert_eq!(write_region(&mut memory, 0, &[0xff; 8]), Ok(()));
    assert_eq!(read_region(&memory, 8, 16), Ok(before));
}
