use aloe::fs::{copy_from_block, plan_read_step, read_smooth_from_block_device, BlockDevice, FsError};

struct Dummy {
    buf: [u8; 10],
}

impl Dummy {
    pub fn new() -> Self {
        Self { buf: [0; 10] }
    }
}

impl BlockDevice for Dummy {
    const BLOCK_SIZE: usize = 10;

    fn block_contents(&self, _block_offset: usize) -> vstd::seq::Seq<u8> {
        unreachable!("the contents of a block are a specification")
    }

    fn read_block<'a>(&'a mut self, block_offset: usize) -> aloe::fs::Result<&'a [u8]> {
        self.buf = [block_offset as u8; 10];
        Ok(&self.buf)
    }
}

struct Short;

impl BlockDevice for Short {
    const BLOCK_SIZE: usize = 10;

    fn block_contents(&self, _block_offset: usize) -> vstd::seq::Seq<u8> {
        unreachable!("the contents of a block are a specification")
    }

    fn read_block<'a>(&'a mut self, _block_offset: usize) -> aloe::fs::Result<&'a [u8]> {
        Ok(&[1, 2, 3])
    }
}

#[test]
fn test_reading_first_block() {
    let mut dummy = Dummy::new();
    assert_eq!(dummy.read_block(0).unwrap(), [0; 10], "Reading Block should return correct bytes");
}

#[test]
fn test_reading_nth_block() {
    let mut dummy = Dummy::new();

    for block_offset in 0..10 {
        assert_eq!(
            dummy.read_block(block_offset).unwrap(),
            &[block_offset as u8; 10],
            "Reading Block should return correct bytes"
        );
    }
}

#[test]
fn test_smooth_reading_first_whole() {
    let mut dummy = Dummy::new();

    let mut target = [255; 10];
    read_smooth_from_block_device(&mut dummy, 0, &mut target).unwrap();

    assert_eq!(target, [0; 10], "Expected smooth reading to be one 'sector' only!");
}

#[test]
fn test_smooth_reading_nth_whole() {
    let mut dummy = Dummy::new();

    let mut target = [255; 10];

    for nth in 0..10 {
        read_smooth_from_block_device(&mut dummy, nth * 10, &mut target).unwrap();

        assert_eq!(target, [nth as u8; 10], "Expected smooth reading to be one 'sector' only!");
    }
}

#[test]
fn test_smooth_over_boarder_two_whole() {
    let mut dummy = Dummy::new();

    let mut target = [255; 20];

    read_smooth_from_block_device(&mut dummy, 0, &mut target).unwrap();

    assert_eq!(
        target,
        [0, 0, 0, 0, 0, 0, 0, 0, 0, 0, 1, 1, 1, 1, 1, 1, 1, 1, 1, 1],
        "Expected bytes to switch when reading different sector"
    );
}

#[test]
fn test_smooth_over_boarder_two_offset() {
    let mut dummy = Dummy::new();

    let mut target = [255; 20];

    read_smooth_from_block_device(&mut dummy, 5, &mut target).unwrap();

    assert_eq!(
        target,
        [0, 0, 0, 0, 0, 1, 1, 1, 1, 1, 1, 1, 1, 1, 1, 2, 2, 2, 2, 2],
        "Expected bytes to switch when reading different sector"
    );
}

#[test]
fn test_smooth_over_boarder_three_offset() {
    let mut dummy = Dummy::new();

    let mut target = [255; 30];

    read_smooth_from_block_device(&mut dummy, 5, &mut target).unwrap();

    assert_eq!(
        target,
        [
            0, 0, 0, 0, 0, 1, 1, 1, 1, 1, 1, 1, 1, 1, 1, 2, 2, 2, 2, 2, 2, 2, 2, 2, 2, 3, 3, 3, 3, 3
        ],
        "Expected bytes to switch when reading different sector"
    );
}

#[test]
fn read_plan_steps() {
    assert_eq!(plan_read_step(5, 0, 30, 10), (0, 5, 5));
    assert_eq!(plan_read_step(5, 5, 30, 10), (1, 0, 10));
    assert_eq!(plan_read_step(5, 25, 30, 10), (3, 0, 5));
    assert_eq!(plan_read_step(5, 30, 30, 10), (3, 5, 0));
}

#[test]
fn short_block_is_a_read_error() {
    let mut short = Short;
    let mut target = [0u8; 10];
    assert!(matches!(read_smooth_from_block_device(&mut short, 0, &mut target), Err(FsError::ReadError)));
}

#[test]
fn copy_from_block_places_the_bytes() {
    let mut data = [9u8; 6];
    let block = [1u8, 2, 3, 4, 5];
    assert_eq!(copy_from_block(&mut data, 2, &block, 1, 3), Ok(()));
    assert_eq!(data, [9, 9, 2, 3, 4, 9]);
}

#[test]
fn copy_from_short_block_is_a_read_error() {
    let mut data = [9u8; 6];
    let block = [1u8, 2, 3];
    assert_eq!(copy_from_block(&mut data, 0, &block, 1, 3), Err(FsError::ReadError));
    assert_eq!(data, [9u8; 6]);
}

#[test]
fn smooth_read_across_three_blocks() {
    let mut dummy = Dummy::new();
    let mut data = [255u8; 22];
    assert_eq!(read_smooth_from_block_device(&mut dummy, 9, &mut data), Ok(22));
    let mut expected = [0u8; 22];
    for (i, byte) in expected.iter_mut().enumerate() {
        *byte = ((9 + i) / 10) as u8;
    }
    assert_eq!(data, expected);
}
