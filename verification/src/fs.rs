use vstd::prelude::*;

verus! {

/// Errors of the file system layer.
#[derive(Debug, Clone, Copy, PartialEq, Eq, Structural)]
pub enum FsError {
    EndOfFile,
    ReadError,
    InvalidInput,
    NotFound,
    NotSupported,
}

pub type Result<T> = core::result::Result<T, FsError>;

/// Where a seek is measured from.
pub enum SeekFrom {
    Start(u64),
    End(i64),
    Current(i64),
}

/// Something whose read position can be moved.
pub trait Seek {
    fn seek(&mut self, pos: SeekFrom) -> Result<u64>;

    fn stream_position(&mut self) -> u64;
}

/// Something that can be read from.
pub trait Read {
    fn read(&mut self, buf: &mut [u8]) -> Result<usize>;
}

/// # Block Device
/// A device that can only read 'blocks' of bytes at a time.
///
/// For example, sometimes you have drives that can only read one
/// sector (~512 or so bytes) at a time. However, for filesystems
/// and other logic, this can be hard to program for. This trait
/// implementes reading from such block devices.
pub trait BlockDevice {
    /// # Block Size
    /// The size of each of the blocks this media can read.
    const BLOCK_SIZE: usize;

    /// The bytes the device holds in block `block_offset`.
    spec fn block_contents(&self, block_offset: usize) -> Seq<u8>;

    /// # Read Device
    /// Read one block from the device given the block's offset: what it hands back is
    /// what the device holds there, and reading changes nothing the device holds.
    fn read_block<'a>(&'a mut self, block_offset: usize) -> (r: Result<&'a [u8]>)
        ensures
            r is Ok ==> r->Ok_0@ == old(self).block_contents(block_offset),
            forall|j: usize| #[trigger] final(self).block_contents(j) == old(self).block_contents(j),
    ;
}

/// Within one block, the bytes after position `pos` keep its block and take the places
/// that follow.
proof fn lemma_in_block(pos: int, b: int, k: int)
    requires
        b > 0,
        0 <= pos,
        0 <= k,
        pos % b + k < b,
    ensures
        (pos + k) / b == pos / b,
        (pos + k) % b == pos % b + k,
{
    vstd::arithmetic::div_mod::lemma_fundamental_div_mod(pos, b);
    assert((pos / b) * b == b * (pos / b)) by (nonlinear_arith);
    assert(0 <= pos % b) by (nonlinear_arith)
        requires
            b > 0,
    ;
    vstd::arithmetic::div_mod::lemma_fundamental_div_mod_converse(pos + k, b, pos / b, pos % b + k);
}

/// One step of a read that spans blocks: having copied `copied` of `len` bytes that start
/// at byte `offset` of the device, the block to read, where in it to start, and how many
/// bytes to take from it.
pub open spec fn read_step(offset: int, copied: int, len: int, block_size: int) -> (int, int, int) {
    let pos = offset + copied;
    let in_block = pos % block_size;
    let left = len - copied;
    let take = if block_size - in_block < left { block_size - in_block } else { left };
    (pos / block_size, in_block, take)
}

/// The next step of reading `len` bytes from byte `offset` of a device with blocks of
/// `block_size` bytes, after `copied` bytes were copied: which block, where in the block,
/// and how many bytes. Zero bytes means the read is done.
pub fn plan_read_step(offset: u64, copied: usize, len: usize, block_size: usize) -> (r: (
    usize,
    usize,
    usize,
))
    requires
        block_size > 0,
        copied <= len,
        offset + len <= u64::MAX,
        (offset + len) / (block_size as int) <= usize::MAX,
    ensures
        r.0 == read_step(offset as int, copied as int, len as int, block_size as int).0,
        r.1 == read_step(offset as int, copied as int, len as int, block_size as int).1,
        r.2 == read_step(offset as int, copied as int, len as int, block_size as int).2,
        r.1 < block_size,
        copied < len ==> r.2 > 0,
        r.2 <= len - copied,
        r.1 + r.2 <= block_size,
{
    let pos = offset + copied as u64;
    let bs = block_size as u64;
    assert(pos / bs <= (offset + len) / (block_size as int)) by (nonlinear_arith)
        requires
            pos <= offset + len,
            bs == block_size,
            bs > 0,
    ;
    let block_index = (pos / bs) as usize;
    let block_offset = (pos % bs) as usize;
    let room = block_size - block_offset;
    let left = len - copied;
    let take = if room < left {
        room
    } else {
        left
    };
    (block_index, block_offset, take)
}

/// Copy `count` bytes of a block the device returned, from `block_offset` on, into `data`
/// at `at`. A block too short to hold them is a `ReadError`, and then `data` is untouched.
pub fn copy_from_block(data: &mut [u8], at: usize, block: &[u8], block_offset: usize, count: usize) -> (r:
    Result<()>)
    requires
        at + count <= old(data)@.len(),
    ensures
        r is Err <==> block@.len() < block_offset + count,
        r is Err ==> r == Err::<(), FsError>(FsError::ReadError) && final(data)@ == old(data)@,
        r is Ok ==> final(data)@ == old(data)@.subrange(0, at as int) + block@.subrange(
            block_offset as int,
            block_offset + count,
        ) + old(data)@.subrange(at + count, old(data)@.len() as int),
{
    let blen = block.len();
    if blen < block_offset || blen - block_offset < count {
        return Err(FsError::ReadError);
    }
    let ghost d0 = data@;
    let dlen = data.len();
    let mut k: usize = 0;
    while k < count
        invariant
            k <= count,
            at + count <= d0.len(),
            dlen == d0.len(),
            block_offset + count <= blen,
            blen == block@.len(),
            data@ == d0.subrange(0, at as int) + block@.subrange(block_offset as int, block_offset + k)
                + d0.subrange(at + k, d0.len() as int),
        decreases count - k,
    {
        data[at + k] = block[block_offset + k];
        k = k + 1;
        assert(data@ =~= d0.subrange(0, at as int) + block@.subrange(block_offset as int, block_offset + k)
            + d0.subrange(at + k, d0.len() as int));
    }
    Ok(())
}

/// Read `data.len()` bytes that start at byte `offset_bytes` of the device, one block at a
/// time, into `data`.
///
/// An error of the device is handed back; a block shorter than the device's block size is
/// reported as `ReadError`.
pub fn read_smooth_from_block_device<Device: BlockDevice>(
    device: &mut Device,
    offset_bytes: u64,
    data: &mut [u8],
) -> (r: Result<usize>)
    requires
        Device::BLOCK_SIZE > 0,
        offset_bytes + old(data)@.len() <= u64::MAX,
        (offset_bytes + old(data)@.len()) / (Device::BLOCK_SIZE as int) <= usize::MAX,
    ensures
        final(data)@.len() == old(data)@.len(),
        r is Ok ==> r == Ok::<usize, FsError>(old(data)@.len() as usize),
        old(data)@.len() == 0 ==> r == Ok::<usize, FsError>(0),
        r is Ok ==> forall|i: int|
            0 <= i < old(data)@.len() ==> #[trigger] final(data)@[i] == old(device).block_contents(
                ((offset_bytes + i) / (Device::BLOCK_SIZE as int)) as usize,
            )[(offset_bytes + i) % (Device::BLOCK_SIZE as int)],
{
    let len = data.len();
    let mut data_copied: usize = 0;
    loop
        invariant
            data@.len() == len,
            len == old(data)@.len(),
            data_copied <= len,
            Device::BLOCK_SIZE > 0,
            offset_bytes + len <= u64::MAX,
            (offset_bytes + len) / (Device::BLOCK_SIZE as int) <= usize::MAX,
            forall|j: usize| #[trigger] device.block_contents(j) == old(device).block_contents(j),
            forall|i: int|
                0 <= i < data_copied ==> #[trigger] data@[i] == old(device).block_contents(
                    ((offset_bytes + i) / (Device::BLOCK_SIZE as int)) as usize,
                )[(offset_bytes + i) % (Device::BLOCK_SIZE as int)],
        ensures
            data_copied == len,
        decreases len - data_copied,
    {
        let (block_index, block_offset, reading_bytes) = plan_read_step(
            offset_bytes,
            data_copied,
            len,
            Device::BLOCK_SIZE,
        );
        if reading_bytes == 0 {
            break ;
        }
        let ghost d0 = data@;
        let ghost b = Device::BLOCK_SIZE as int;
        let device_block = device.read_block(block_index)?;
        copy_from_block(data, data_copied, device_block, block_offset, reading_bytes)?;
        proof {
            let pos = offset_bytes + data_copied;
            assert forall|i: int| 0 <= i < data_copied + reading_bytes implies #[trigger] data@[i]
                == old(device).block_contents(((offset_bytes + i) / b) as usize)[(offset_bytes + i) % b] by {
                if i >= data_copied {
                    let k = i - data_copied;
                    lemma_in_block(pos, b, k);
                    assert(data@[i] == device_block@[block_offset + k]);
                } else {
                    assert(data@[i] == d0[i]);
                }
            }
        }
        data_copied = data_copied + reading_bytes;
    }
    Ok(len)
}

} // verus!
