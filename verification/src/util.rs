use vstd::prelude::*;

use vstd::arithmetic::power2::{pow2, lemma_pow2_unfold, lemma_pow2_strictly_increases, lemma2_to64};
use vstd::bits::{lemma_usize_low_bits_mask_is_mod, lemma_u64_low_bits_mask_is_mod, low_bits_mask};

verus! {

/// Bytes in a KiB.
pub const KIB: usize = 1024;

/// Bytes in a MiB.
pub const MIB: usize = 1048576;

/// Bytes in a GiB.
pub const GIB: usize = 1073741824;

/// Bytes in a 4 KiB page.
pub const PAGE_4K: usize = 4096;

/// Bytes in a 2 MiB page.
pub const PAGE_2M: usize = 2097152;

/// Bytes in a 1 GiB page.
pub const PAGE_1G: usize = 1073741824;

/// `n` is a power of two.
pub open spec fn is_pow2(n: int) -> bool
    decreases n,
{
    if n <= 0 {
        false
    } else if n == 1 {
        true
    } else {
        n % 2 == 0 && is_pow2(n / 2)
    }
}

/// The exponent of a power of two.
/// A power of two is positive.
pub proof fn lemma_pow2_positive(n: int)
    requires
        is_pow2(n),
    ensures
        n > 0,
{
}

pub proof fn lemma_pow2_exponent(n: int) -> (k: nat)
    requires
        is_pow2(n),
    ensures
        pow2(k) == n,
    decreases n,
{
    if n == 1 {
        assert(pow2(0) == 1) by {
            lemma2_to64();
        }
        0
    } else {
        let k = lemma_pow2_exponent(n / 2);
        lemma_pow2_unfold(k + 1);
        k + 1
    }
}

/// For a power of two `n`, masking with `n - 1` is taking the remainder modulo `n`.
pub proof fn lemma_mask_is_mod(x: usize, n: usize)
    requires
        is_pow2(n as int),
    ensures
        x & ((n - 1) as usize) == x % n,
{
    let k = lemma_pow2_exponent(n as int);
    lemma2_to64();
    if k >= usize::BITS {
        if k > usize::BITS {
            lemma_pow2_strictly_increases(usize::BITS as nat, k);
        }
        assert(false);
    }
    lemma_usize_low_bits_mask_is_mod(x, k);
    assert(low_bits_mask(k) == n - 1);
}

/// For a power of two `n`, masking with `n - 1` is taking the remainder modulo `n`.
pub proof fn lemma_mask_is_mod_u64(x: u64, n: u64)
    requires
        is_pow2(n as int),
    ensures
        x & ((n - 1) as u64) == x % n,
{
    let k = lemma_pow2_exponent(n as int);
    lemma2_to64();
    if k >= 64 {
        if k > 64 {
            lemma_pow2_strictly_increases(64, k);
        }
        assert(false);
    }
    lemma_u64_low_bits_mask_is_mod(x, k);
    assert(low_bits_mask(k) == n - 1);
}

/// The sizes of the three page kinds are powers of two.
pub proof fn lemma_page_size_pow2()
    ensures
        is_pow2(4096),
        is_pow2(2097152),
        is_pow2(1073741824),
{
    reveal_with_fuel(is_pow2, 32);
}

/// Whether `n` is a power of two.
pub fn is_power_of_two(n: usize) -> (r: bool)
    ensures
        r == is_pow2(n as int),
{
    if n == 0 {
        return false;
    }
    let mut m = n;
    while m > 1 && m % 2 == 0
        invariant
            m > 0,
            is_pow2(n as int) == is_pow2(m as int),
        decreases m,
    {
        m = m / 2;
    }
    m == 1
}

/// The value `addr` takes once pushed up to the next multiple of `alignment`.
pub open spec fn spec_align_up(addr: int, alignment: int) -> int {
    if addr % alignment == 0 {
        addr
    } else {
        addr + (alignment - addr % alignment)
    }
}

/// Align `addr` to `alignment`
///
/// Pushes `addr` up until it reaches an address that satisfies `alignment`.
pub fn align_to(addr: u64, alignment: usize) -> (r: u64)
    requires
        alignment > 0,
        alignment <= u64::MAX,
        spec_align_up(addr as int, alignment as int) <= u64::MAX,
    ensures
        r == spec_align_up(addr as int, alignment as int),
{
    let a = alignment as u64;
    let rmd = addr % a;
    if rmd != 0 {
        (a - rmd) + addr
    } else {
        addr
    }
}

/// Align `addr` range to `alignment`
///
/// Pushes `addr_start` up until it reaches an address that satisfies `alignment`.
/// Then pushes `addr_end` down until it reaches an address that satisfies `alignment`.
pub fn align_range_to(addr_start: u64, addr_end: u64, alignment: usize) -> (r: (u64, u64))
    requires
        alignment > 0,
        alignment <= u64::MAX,
        spec_align_up(addr_start as int, alignment as int) <= u64::MAX,
    ensures
        r.0 == spec_align_up(addr_start as int, alignment as int),
        r.1 == addr_end - addr_end % (alignment as u64),
{
    let start = align_to(addr_start, alignment);
    let a = alignment as u64;
    let rmd = addr_end % a;
    assert(rmd <= addr_end) by (nonlinear_arith)
        requires rmd == addr_end % a, a > 0;
    (start, addr_end - rmd)
}

/// Check the alignment of `addr` and `alignment`
pub fn is_align_to(addr: u64, alignment: usize) -> (r: bool)
    requires
        alignment > 0,
        alignment <= u64::MAX,
    ensures
        r == (addr & ((alignment - 1) as u64) == 0),
        is_pow2(alignment as int) ==> (r <==> addr % (alignment as u64) == 0),
{
    proof {
        if is_pow2(alignment as int) {
            lemma_mask_is_mod_u64(addr, alignment as u64);
        }
    }
    (addr & (alignment as u64 - 1)) == 0
}

/// A type that represents a size in bytes, and can convert it to a human-readable string.
#[derive(Clone, Copy, Debug, Default, PartialEq, Eq, Structural, PartialOrd, Ord)]
pub struct HumanBytes(pub u64);

/// The number shown and the unit it is shown in: the largest of GiB, MiB and KiB that
/// the size reaches, else bytes.
pub open spec fn human_parts(bytes: u64) -> (u64, HumanUnit) {
    if bytes >= GIB {
        ((bytes / (GIB as u64)) as u64, HumanUnit::Gib)
    } else if bytes >= MIB {
        ((bytes / (MIB as u64)) as u64, HumanUnit::Mib)
    } else if bytes >= KIB {
        ((bytes / (KIB as u64)) as u64, HumanUnit::Kib)
    } else {
        (bytes, HumanUnit::Bytes)
    }
}

/// The units a size is shown in.
#[derive(Clone, Copy, Debug, PartialEq, Eq, Structural)]
pub enum HumanUnit {
    Bytes,
    Kib,
    Mib,
    Gib,
}

impl HumanUnit {
    /// The unit's symbol.
    pub fn symbol(&self) -> (r: &'static str)
        ensures
            *self == HumanUnit::Bytes ==> r@ == "bytes"@,
            *self == HumanUnit::Kib ==> r@ == "Kib"@,
            *self == HumanUnit::Mib ==> r@ == "Mib"@,
            *self == HumanUnit::Gib ==> r@ == "Gib"@,
    {
        match self {
            HumanUnit::Bytes => "bytes",
            HumanUnit::Kib => "Kib",
            HumanUnit::Mib => "Mib",
            HumanUnit::Gib => "Gib",
        }
    }
}

impl HumanBytes {
    /// Make a new `HumanBytes` with zero bytes.
    pub fn zero() -> (r: Self)
        ensures
            r.0 == 0,
    {
        Self(0)
    }

    /// Make a new `HumanBytes` with given `bytes`.
    pub fn new(bytes: u64) -> (r: Self)
        ensures
            r.0 == bytes,
    {
        Self(bytes)
    }

    /// The number and the unit the size is shown with.
    pub fn parts(&self) -> (r: (u64, HumanUnit))
        ensures
            r == human_parts(self.0),
    {
        if self.0 >= GIB as u64 {
            (self.0 / GIB as u64, HumanUnit::Gib)
        } else if self.0 >= MIB as u64 {
            (self.0 / MIB as u64, HumanUnit::Mib)
        } else if self.0 >= KIB as u64 {
            (self.0 / KIB as u64, HumanUnit::Kib)
        } else {
            (self.0, HumanUnit::Bytes)
        }
    }

    /// The number of spaces that pad the shown size (number, a space, the unit) out to
    /// `width` characters; none where the number has five digits or more.
    pub fn padding(&self, width: usize) -> (r: usize)
        ensures
            ({
                let (n, u) = human_parts(self.0);
                let digits: int = if n < 10 { 1 } else if n < 100 { 2 } else if n < 1000 { 3 } else if n < 10000 { 4 } else { 0 };
                let sym: int = if u == HumanUnit::Bytes { 5 } else { 3 };
                let total = digits + sym + 1;
                r == if total > width { 0 } else { width - total }
            }),
    {
        let (n, u) = self.parts();
        let digits: usize = if n < 10 {
            1
        } else if n < 100 {
            2
        } else if n < 1000 {
            3
        } else if n < 10000 {
            4
        } else {
            0
        };
        let sym: usize = match u {
            HumanUnit::Bytes => 5,
            _ => 3,
        };
        let total = digits + sym + 1;
        if total > width {
            0
        } else {
            width - total
        }
    }
}

/// Sizes given in KiB.
pub trait FromKib<Type> {
    fn from_kib(kib: u64) -> (r: HumanBytes)
        requires
            kib * 1024 <= u64::MAX,
        ensures
            r.0 == kib * 1024,
    ;
}

/// Sizes given in MiB.
pub trait FromMib<Type> {
    fn from_kib(kib: u64) -> (r: HumanBytes)
        requires
            kib * 1048576 <= u64::MAX,
        ensures
            r.0 == kib * 1048576,
    ;
}

/// Sizes given in GiB.
pub trait FromGib<Type> {
    fn from_kib(kib: u64) -> (r: HumanBytes)
        requires
            kib * 1073741824 <= u64::MAX,
        ensures
            r.0 == kib * 1073741824,
    ;
}

impl FromKib<u64> for HumanBytes {
    fn from_kib(kib: u64) -> (r: HumanBytes) {
        HumanBytes(kib * 1024)
    }
}

impl FromMib<u64> for HumanBytes {
    fn from_kib(kib: u64) -> (r: HumanBytes) {
        HumanBytes(kib * 1048576)
    }
}

impl FromGib<u64> for HumanBytes {
    fn from_kib(kib: u64) -> (r: HumanBytes) {
        HumanBytes(kib * 1073741824)
    }
}

} // verus!
