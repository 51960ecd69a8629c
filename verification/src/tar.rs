use vstd::prelude::*;

use core::str::Utf8Error;
use vstd::utf8::valid_utf8;
use vstd::string::StringSliceAdditionalSpecFns;

verus! {

/// `core::str::Utf8Error`, carried as the error of a file name that is not UTF-8.
#[verifier::external_type_specification]
#[verifier::external_body]
pub struct ExUtf8Error(Utf8Error);

/// The size of a tar header (and of every block of a tar file).
pub const HEADER_SIZE: usize = 512;

/// Why a tar file or one of its headers could not be read.
#[derive(Debug)]
pub enum TarError {
    NotEnoughBytesForHeader,
    BytesNotAligned,
    /// The name field holds no nul byte.
    StrConvertError,
    Utf8Error(Utf8Error),
    NotOctal,
    OutOfRange,
}

/// The index of the first nul byte of `s`, if there is one.
pub open spec fn first_nul(s: Seq<u8>) -> Option<int> {
    if exists|i: int| 0 <= i < s.len() && s[i] == 0 {
        Some(choose|i: int| 0 <= i < s.len() && s[i] == 0 && forall|j: int| 0 <= j < i ==> s[j] != 0)
    } else {
        None
    }
}

/// The length of the string that ends at the first nul byte of `bytes`, if there is one.
fn c_str_len_until_nul(bytes: &[u8]) -> (r: Option<usize>)
    ensures
        match r {
            Some(n) => 0 <= n < bytes@.len() && bytes@[n as int] == 0 && forall|j: int|
                0 <= j < n ==> bytes@[j] != 0,
            None => forall|j: int| 0 <= j < bytes@.len() ==> bytes@[j] != 0,
        },
{
    let mut i: usize = 0;
    while i < bytes.len()
        invariant
            i <= bytes@.len(),
            forall|j: int| 0 <= j < i ==> bytes@[j] != 0,
        decreases bytes@.len() - i,
    {
        if bytes[i] == 0 {
            return Some(i);
        }
        i = i + 1;
    }
    None
}

/// `core::str::from_utf8`: the standard library documents that it succeeds exactly when the
/// bytes are valid UTF-8, and that the string then holds those bytes.
#[verifier::external_body]
fn str_from_utf8(bytes: &[u8]) -> (r: Result<&str, Utf8Error>)
    ensures
        r is Ok <==> valid_utf8(bytes@),
        r is Ok ==> r->Ok_0.spec_bytes() == bytes@,
{
    core::str::from_utf8(bytes)
}

/// The value of an octal number field: nul bytes are skipped, the other bytes are digits,
/// the last one the least significant.
pub open spec fn octal_value(s: Seq<u8>) -> nat
    decreases s.len(),
{
    if s.len() == 0 {
        0
    } else if s.last() == 0 {
        octal_value(s.drop_last())
    } else {
        octal_value(s.drop_last()) * 8 + (s.last() - 48) as nat
    }
}

/// Every byte of the field is nul or a digit `'0'` to `'8'`.
pub open spec fn octal_digits(s: Seq<u8>) -> bool {
    forall|i: int| 0 <= i < s.len() && s[i] != 0 ==> 48 <= #[trigger] s[i] <= 56
}

proof fn lemma_octal_bound(s: Seq<u8>)
    requires
        octal_digits(s),
    ensures
        octal_value(s) < vstd::arithmetic::power::pow(9, s.len()),
    decreases s.len(),
{
    reveal(vstd::arithmetic::power::pow);
    if s.len() > 0 {
        let t = s.drop_last();
        assert(octal_digits(t)) by {
            assert forall|i: int| 0 <= i < t.len() && t[i] != 0 implies 48 <= #[trigger] t[i] <= 56 by {
                assert(t[i] == s[i]);
            }
        }
        lemma_octal_bound(t);
        vstd::arithmetic::power::lemma_pow_positive(9, t.len());
        if s.last() != 0 {
            assert(48 <= s[s.len() - 1] <= 56);
        }
    }
}

/// A tar header: the 512 bytes that precede each file of a tar archive.
pub struct TarHeader {
    bytes: Vec<u8>,
}

impl View for TarHeader {
    type V = Seq<u8>;

    closed spec fn view(&self) -> Seq<u8> {
        self.bytes@
    }
}

/// The file name field.
pub open spec fn filename_field(h: Seq<u8>) -> Seq<u8> {
    h.subrange(0, 100)
}

/// The file size field.
pub open spec fn size_field(h: Seq<u8>) -> Seq<u8> {
    h.subrange(124, 136)
}

/// The name stored in a header: the bytes of the name field before the first nul.
pub open spec fn filename_bytes(h: Seq<u8>) -> Option<Seq<u8>> {
    match first_nul(filename_field(h)) {
        Some(n) => Some(filename_field(h).subrange(0, n)),
        None => None,
    }
}

impl TarHeader {
    /// The header is exactly one block long.
    pub closed spec fn wf(&self) -> bool {
        self.bytes@.len() == HEADER_SIZE
    }

    /// Read a header from the start of `value`.
    pub fn try_from_bytes(value: &[u8]) -> (r: Result<TarHeader, TarError>)
        ensures
            value@.len() < HEADER_SIZE ==> r matches Err(TarError::NotEnoughBytesForHeader),
            value@.len() >= HEADER_SIZE ==> r is Ok && r->Ok_0.wf() && r->Ok_0@ == value@.subrange(
                0,
                HEADER_SIZE as int,
            ),
    {
        if value.len() < HEADER_SIZE {
            return Err(TarError::NotEnoughBytesForHeader);
        }
        let mut bytes: Vec<u8> = Vec::new();
        let mut i: usize = 0;
        while i < HEADER_SIZE
            invariant
                i <= HEADER_SIZE <= value@.len(),
                bytes@ == value@.subrange(0, i as int),
            decreases HEADER_SIZE - i,
        {
            bytes.push(value[i]);
            i = i + 1;
            assert(bytes@ =~= value@.subrange(0, i as int));
        }
        Ok(TarHeader { bytes })
    }

    /// Check if this header is empty: its name field holds only nul bytes.
    pub fn is_empty(&self) -> (r: bool)
        requires
            self.wf(),
        ensures
            r == forall|i: int| 0 <= i < 100 ==> self@[i] == 0,
    {
        let mut i: usize = 0;
        while i < 100
            invariant
                i <= 100,
                self.wf(),
                forall|j: int| 0 <= j < i ==> self@[j] == 0,
            decreases 100 - i,
        {
            if self.bytes[i] != 0 {
                assert(self@[i as int] != 0);
                return false;
            }
            i = i + 1;
        }
        true
    }

    /// The file name: the name field up to its first nul byte, which must be valid UTF-8.
    pub fn filename(&self) -> (r: Result<&str, TarError>)
        requires
            self.wf(),
        ensures
            filename_bytes(self@) is None ==> r matches Err(TarError::StrConvertError),
            filename_bytes(self@) is Some && !valid_utf8(filename_bytes(self@)->0) ==> r matches Err(
                TarError::Utf8Error(_),
            ),
            filename_bytes(self@) is Some && valid_utf8(filename_bytes(self@)->0) ==> r is Ok
                && r->Ok_0.spec_bytes() == filename_bytes(self@)->0,
    {
        let field = self.bytes.as_slice();
        let ghost h = self@;
        let name_field = slice_prefix(field, 100);
        match c_str_len_until_nul(name_field) {
            None => {
                proof {
                    assert(!(exists|i: int| 0 <= i < filename_field(h).len() && filename_field(h)[i] == 0));
                }
                Err(TarError::StrConvertError)
            },
            Some(n) => {
                proof {
                    lemma_first_nul(filename_field(h), n as int);
                }
                let name = slice_prefix(name_field, n);
                match str_from_utf8(name) {
                    Ok(s) => Ok(s),
                    Err(e) => Err(TarError::Utf8Error(e)),
                }
            },
        }
    }

    /// Checks if this file is of the same name as `compare_name`
    pub fn is_file(&self, compare_name: &str) -> (r: bool)
        requires
            self.wf(),
        ensures
            r == (compare_name.spec_bytes().len() <= 100 && filename_bytes(self@) is Some && valid_utf8(
                filename_bytes(self@)->0,
            ) && compare_name.spec_bytes() == filename_bytes(self@)->0),
    {
        let b = compare_name.as_bytes();
        if b.len() > 100 {
            return false;
        }
        match self.filename() {
            Ok(name) => {
                let a = name.as_bytes();
                let r = bytes_equal(a, b);
                assert(a@ == filename_bytes(self@)->0);
                assert(b@ == compare_name.spec_bytes());
                r
            },
            Err(_) => false,
        }
    }

    /// Attempt to get the filesize: the size field read as an octal number.
    pub fn filesize(&self) -> (r: Result<usize, TarError>)
        requires
            self.wf(),
        ensures
            !octal_digits(size_field(self@)) ==> r matches Err(TarError::NotOctal),
            octal_digits(size_field(self@)) && octal_value(size_field(self@)) > usize::MAX ==> r matches Err(
                TarError::OutOfRange,
            ),
            octal_digits(size_field(self@)) && octal_value(size_field(self@)) <= usize::MAX ==> r
                == Ok::<usize, TarError>(octal_value(size_field(self@)) as usize),
    {
        let ghost f = size_field(self@);
        let mut size: u64 = 0;
        let mut i: usize = 124;
        while i < 136
            invariant
                self.wf(),
                124 <= i <= 136,
                f == size_field(self@),
                octal_digits(f.subrange(0, i - 124)),
                size == octal_value(f.subrange(0, i - 124)),
            decreases 136 - i,
        {
            let b = self.bytes[i];
            let ghost pre = f.subrange(0, i - 124);
            let ghost next = f.subrange(0, i + 1 - 124);
            assert(next.drop_last() =~= pre);
            assert(next.last() == b);
            if b != 0 {
                if b > 56 || b < 48 {
                    proof {
                        assert(f[i - 124] == b);
                    }
                    return Err(TarError::NotOctal);
                }
                proof {
                    lemma_octal_bound(pre);
                    vstd::arithmetic::power::lemma_pow_increases(9, pre.len(), 12);
                    assert(vstd::arithmetic::power::pow(9, 12) == 282429536481) by {
                        reveal_with_fuel(vstd::arithmetic::power::pow, 13);
                    }
                }
                size = size * 8 + (b - 48) as u64;
            }
            proof {
                assert forall|j: int| 0 <= j < next.len() && next[j] != 0 implies 48 <= #[trigger] next[j] <= 56 by {
                    if j < pre.len() {
                        assert(next[j] == pre[j]);
                    }
                }
            }
            i = i + 1;
        }
        assert(f.subrange(0, 12) =~= f);
        if size > usize::MAX as u64 {
            return Err(TarError::OutOfRange);
        }
        Ok(size as usize)
    }
}

/// A tar archive held in memory.
#[derive(Clone, Copy)]
pub struct Tar<'a> {
    tar_file: &'a [u8],
}

impl<'a> View for Tar<'a> {
    type V = Seq<u8>;

    closed spec fn view(&self) -> Seq<u8> {
        self.tar_file@
    }
}

/// The number of bytes from one header to the next, for a file of `size` bytes.
pub open spec fn entry_step(size: int) -> int {
    ((size + 512) / 512 + 1) * 512
}

/// The step from one header to the next covers the header and every byte of the file's
/// data: the next header starts after the file's last byte, on a block border, at most a
/// block past the data's last block.
pub proof fn lemma_entry_step_covers_file(size: int)
    requires
        size >= 0,
    ensures
        entry_step(size) % 512 == 0,
        512 + size < entry_step(size),
        entry_step(size) <= size + 1024,
{
    let q = (size + 512) / 512;
    assert(q * 512 <= size + 512 && size + 512 < q * 512 + 512) by (nonlinear_arith)
        requires
            q == (size + 512) / 512,
            size >= 0,
    ;
    assert((q + 1) * 512 == q * 512 + 512) by (nonlinear_arith);
    assert(((q + 1) * 512) % 512 == 0) by (nonlinear_arith);
}

/// The bytes of the header that starts at `offset`.
pub open spec fn header_at(s: Seq<u8>, offset: int) -> Seq<u8> {
    s.subrange(offset, offset + HEADER_SIZE)
}

impl<'a> Tar<'a> {
    /// An archive over the bytes `tar_file`.
    pub fn new(tar_file: &'a [u8]) -> (r: Self)
        ensures
            r@ == tar_file@,
    {
        Self { tar_file }
    }

    /// Get an iterator of TarFileHeaders to iterate over the tar file
    pub fn iter(&self) -> (r: TarFileIter<'a>)
        ensures
            r.tar()@ == self@,
            r.offset() == 0,
    {
        TarFileIter { offset: 0, tar: *self }
    }
}

/// Walks the files of an archive, header by header.
pub struct TarFileIter<'a> {
    offset: usize,
    tar: Tar<'a>,
}

impl<'a> TarFileIter<'a> {
    /// The archive walked.
    pub closed spec fn tar(&self) -> Tar<'a> {
        self.tar
    }

    /// Where the next header is looked for.
    pub closed spec fn offset(&self) -> usize {
        self.offset
    }

    /// The file whose header starts at the current offset, moving the offset past the file.
    ///
    /// The walk ends (`None`, the offset unchanged) where no whole header is left, at an
    /// empty header, at a header whose size cannot be read, or where the next offset would
    /// not fit in a `usize`.
    pub fn next(&mut self) -> (r: Option<TarFile<'a>>)
        ensures
            final(self).tar() == old(self).tar(),
            ({
                let s = old(self).tar()@;
                let off = old(self).offset() as int;
                let h = header_at(s, off);
                match r {
                    None => final(self).offset() == old(self).offset() && (off + HEADER_SIZE
                        > s.len() || (forall|i: int| 0 <= i < 100 ==> h[i] == 0) || !octal_digits(
                        size_field(h),
                    ) || octal_value(size_field(h)) > usize::MAX || off + entry_step(
                        octal_value(size_field(h)) as int,
                    ) > usize::MAX),
                    Some(f) => {
                        &&& off + HEADER_SIZE <= s.len()
                        &&& !(forall|i: int| 0 <= i < 100 ==> h[i] == 0)
                        &&& octal_digits(size_field(h))
                        &&& f.wf()
                        &&& f.offset() == off
                        &&& f.tar() == old(self).tar()
                        &&& f.header()@ == h
                        &&& final(self).offset() == off + entry_step(
                            octal_value(size_field(h)) as int,
                        )
                    },
                }
            }),
    {
        let len = self.tar.tar_file.len();
        if self.offset > len || len - self.offset < HEADER_SIZE {
            return None;
        }
        let bytes = vstd::slice::slice_subrange(self.tar.tar_file, self.offset, self.offset + HEADER_SIZE);
        let header = match TarHeader::try_from_bytes(bytes) {
            Ok(h) => h,
            Err(_) => {
                return None;
            },
        };
        assert(header@ =~= header_at(self.tar@, self.offset as int));
        if header.is_empty() {
            return None;
        }
        let size = match header.filesize() {
            Ok(size) => size,
            Err(_) => {
                return None;
            },
        };
        if size > usize::MAX - HEADER_SIZE {
            return None;
        }
        let blocks = (size + HEADER_SIZE) / 512 + 1;
        if blocks > (usize::MAX - self.offset) / 512 {
            proof {
                assert(blocks * 512 > usize::MAX - self.offset) by (nonlinear_arith)
                    requires
                        blocks > (usize::MAX - self.offset) / 512,
                ;
            }
            return None;
        }
        proof {
            assert(blocks * 512 <= usize::MAX - self.offset) by (nonlinear_arith)
                requires
                    blocks <= (usize::MAX - self.offset) / 512,
            ;
        }
        let offset = self.offset;
        self.offset = self.offset + blocks * 512;
        Some(TarFile { tar: self.tar, offset, header })
    }
}

/// A file of an archive: where its header starts, and the header.
pub struct TarFile<'a> {
    tar: Tar<'a>,
    offset: usize,
    header: TarHeader,
}

impl<'a> TarFile<'a> {
    /// The archive the file is in.
    pub closed spec fn tar(&self) -> Tar<'a> {
        self.tar
    }

    /// Where the file's header starts.
    pub closed spec fn offset(&self) -> usize {
        self.offset
    }

    /// The file's header.
    pub closed spec fn header(&self) -> TarHeader {
        self.header
    }

    /// The header is a whole header of the archive.
    pub closed spec fn wf(&self) -> bool {
        &&& self.header.wf()
        &&& self.offset + HEADER_SIZE <= self.tar@.len()
        &&& self.header@ == header_at(self.tar@, self.offset as int)
    }

    /// Check if this header is empty.
    pub fn is_empty(&self) -> (r: bool)
        requires
            self.wf(),
        ensures
            r == forall|i: int| 0 <= i < 100 ==> self.header()@[i] == 0,
    {
        let r = self.header.is_empty();
        assert(self.header()@ == self.header@);
        r
    }

    /// The file name (see `TarHeader::filename`).
    pub fn filename(&self) -> (r: Result<&str, TarError>)
        requires
            self.wf(),
        ensures
            filename_bytes(self.header()@) is None ==> r matches Err(TarError::StrConvertError),
            filename_bytes(self.header()@) is Some && !valid_utf8(filename_bytes(self.header()@)->0)
                ==> r matches Err(TarError::Utf8Error(_)),
            filename_bytes(self.header()@) is Some && valid_utf8(filename_bytes(self.header()@)->0)
                ==> r is Ok && r->Ok_0.spec_bytes() == filename_bytes(self.header()@)->0,
    {
        self.header.filename()
    }

    /// Checks if this file is of the same name as `compare_name`
    pub fn is_file(&self, compare_name: &str) -> (r: bool)
        requires
            self.wf(),
        ensures
            r == (compare_name.spec_bytes().len() <= 100 && filename_bytes(self.header()@) is Some
                && valid_utf8(filename_bytes(self.header()@)->0) && compare_name.spec_bytes()
                == filename_bytes(self.header()@)->0),
    {
        self.header.is_file(compare_name)
    }

    /// Attempt to get the filesize.
    pub fn filesize(&self) -> (r: Result<usize, TarError>)
        requires
            self.wf(),
        ensures
            !octal_digits(size_field(self.header()@)) ==> r matches Err(TarError::NotOctal),
            octal_digits(size_field(self.header()@)) && octal_value(size_field(self.header()@))
                > usize::MAX ==> r matches Err(TarError::OutOfRange),
            octal_digits(size_field(self.header()@)) && octal_value(size_field(self.header()@))
                <= usize::MAX ==> r == Ok::<usize, TarError>(
                octal_value(size_field(self.header()@)) as usize,
            ),
    {
        self.header.filesize()
    }

    /// Get the inner file contents: the `filesize` bytes that follow the header.
    pub fn file(&self) -> (r: Result<&'a [u8], TarError>)
        requires
            self.wf(),
        ensures
            ({
                let h = self.header()@;
                let start = self.offset() + HEADER_SIZE;
                let size = octal_value(size_field(h)) as int;
                &&& !octal_digits(size_field(h)) ==> (r matches Err(TarError::NotOctal))
                &&& octal_digits(size_field(h)) && size > usize::MAX ==> (r matches Err(TarError::OutOfRange))
                &&& octal_digits(size_field(h)) && size <= usize::MAX && start + size
                    > self.tar()@.len() ==> (r matches Err(TarError::OutOfRange))
                &&& octal_digits(size_field(h)) && start + size <= self.tar()@.len() ==> r is Ok
                    && r->Ok_0@ == self.tar()@.subrange(start, start + size)
            }),
    {
        let len = self.tar.tar_file.len();
        let file_offset = self.offset + HEADER_SIZE;
        let file_size = match self.filesize() {
            Ok(size) => size,
            Err(e) => {
                return Err(e);
            },
        };
        if file_size > len - file_offset {
            return Err(TarError::OutOfRange);
        }
        Ok(vstd::slice::slice_subrange(self.tar.tar_file, file_offset, file_offset + file_size))
    }
}

proof fn lemma_first_nul(s: Seq<u8>, n: int)
    requires
        0 <= n < s.len(),
        s[n] == 0,
        forall|j: int| 0 <= j < n ==> s[j] != 0,
    ensures
        first_nul(s) == Some(n),
{
    let c = choose|i: int| 0 <= i < s.len() && s[i] == 0 && forall|j: int| 0 <= j < i ==> s[j] != 0;
    assert(0 <= n < s.len() && s[n] == 0);
    if c < n {
        assert(s[c] != 0);
    }
    if c > n {
        assert(s[n] != 0);
    }
}

/// The first `n` bytes of `s`.
fn slice_prefix(s: &[u8], n: usize) -> (r: &[u8])
    requires
        n <= s@.len(),
    ensures
        r@ == s@.subrange(0, n as int),
{
    vstd::slice::slice_subrange(s, 0, n)
}

/// Whether two byte strings are equal.
fn bytes_equal(a: &[u8], b: &[u8]) -> (r: bool)
    ensures
        r == (a@ == b@),
{
    if a.len() != b.len() {
        return false;
    }
    let mut i: usize = 0;
    while i < a.len()
        invariant
            i <= a@.len() == b@.len(),
            forall|j: int| 0 <= j < i ==> a@[j] == b@[j],
        decreases a@.len() - i,
    {
        if a[i] != b[i] {
            return false;
        }
        i = i + 1;
    }
    assert(a@ =~= b@);
    true
}

} // verus!
