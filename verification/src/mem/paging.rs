use vstd::prelude::*;

use crate::mem::addr::{PhysAddr, VirtAddr};
use crate::mem::page::PhysPage;
use crate::mem::virt2phys::PhysPtrTranslationError;

pub mod mapping;

pub use mapping::Virt2PhysMapping;



verus! {

/// Bit `n` of `v` is set.
pub open spec fn bit_set(v: u64, n: u64) -> bool {
    (v >> n) & 1 == 1
}

/// `v` with bit `n` set to `flag`.
pub open spec fn with_bit(v: u64, n: u64, flag: bool) -> u64 {
    if flag {
        v | (1u64 << n)
    } else {
        v & !(1u64 << n)
    }
}

/// Options for mapping a page.
///
/// Bits: 0 overwrite an existing mapping; 1 raise the permissions of the tables above;
/// 2 do not wait for the lock; 3 do not flush the TLB; 4 lower the permissions of the
/// tables above; 5 only change permissions; 6 force the permissions of the page itself.
#[derive(Clone, Copy, PartialEq, Eq, Structural, Debug)]
pub struct VmOptions(pub u64);

/// Permissions for mapping a page.
///
/// Bits: 0 execute, 1 read, 2 write, 3 user.
#[derive(Clone, Copy, PartialEq, Eq, Structural, Debug)]
pub struct VmPermissions(pub u8);

impl VmOptions {
    /// No Options
    pub fn none() -> (r: Self)
        ensures
            r.0 == 0,
    {
        Self(0)
    }

    fn get(&self, n: u64) -> (r: bool)
        requires
            n < 64,
        ensures
            r == bit_set(self.0, n),
    {
        (self.0 >> n) & 1 == 1
    }

    fn set(self, n: u64, flag: bool) -> (r: Self)
        requires
            n < 64,
        ensures
            r.0 == with_bit(self.0, n, flag),
    {
        if flag {
            Self(self.0 | (1u64 << n))
        } else {
            Self(self.0 & !(1u64 << n))
        }
    }

    /// If there is already a mapped page here, override it
    pub fn is_overwrite_set(&self) -> (r: bool)
        ensures
            r == bit_set(self.0, 0),
    {
        self.get(0)
    }

    /// Raise the permissions of the tables above the page where the page needs more.
    pub fn is_increase_perm_set(&self) -> (r: bool)
        ensures
            r == bit_set(self.0, 1),
    {
        self.get(1)
    }

    /// Try to lock if possible, but fail if the lock is already taken.
    pub fn is_dont_wait_for_lock_set(&self) -> (r: bool)
        ensures
            r == bit_set(self.0, 2),
    {
        self.get(2)
    }

    /// Don't flush 'Tlb' cache when mapping this page
    pub fn is_no_tlb_flush_set(&self) -> (r: bool)
        ensures
            r == bit_set(self.0, 3),
    {
        self.get(3)
    }

    /// Reduce permissions to new permissions (only on tables, not page entries).
    pub fn is_reduce_perm_from_tables_set(&self) -> (r: bool)
        ensures
            r == bit_set(self.0, 4),
    {
        self.get(4)
    }

    /// Just change permissions, dont change page mapping
    pub fn is_only_commit_permissions_set(&self) -> (r: bool)
        ensures
            r == bit_set(self.0, 5),
    {
        self.get(5)
    }

    /// Force set permissions, regardless if they are higher or lower for the bottom most table only
    pub fn is_force_permissions_on_page_set(&self) -> (r: bool)
        ensures
            r == bit_set(self.0, 6),
    {
        self.get(6)
    }

    pub fn set_overwrite_flag(self, flag: bool) -> (r: Self)
        ensures
            r.0 == with_bit(self.0, 0, flag),
    {
        self.set(0, flag)
    }

    pub fn set_increase_perm_flag(self, flag: bool) -> (r: Self)
        ensures
            r.0 == with_bit(self.0, 1, flag),
    {
        self.set(1, flag)
    }

    pub fn set_dont_wait_for_lock_flag(self, flag: bool) -> (r: Self)
        ensures
            r.0 == with_bit(self.0, 2, flag),
    {
        self.set(2, flag)
    }

    pub fn set_no_tlb_flush_flag(self, flag: bool) -> (r: Self)
        ensures
            r.0 == with_bit(self.0, 3, flag),
    {
        self.set(3, flag)
    }

    pub fn set_reduce_perm_from_tables_flag(self, flag: bool) -> (r: Self)
        ensures
            r.0 == with_bit(self.0, 4, flag),
    {
        self.set(4, flag)
    }

    pub fn set_only_commit_permissions_flag(self, flag: bool) -> (r: Self)
        ensures
            r.0 == with_bit(self.0, 5, flag),
    {
        self.set(5, flag)
    }

    pub fn set_force_permissions_on_page_flag(self, flag: bool) -> (r: Self)
        ensures
            r.0 == with_bit(self.0, 6, flag),
    {
        self.set(6, flag)
    }
}

/// Bit `n` of a permission byte is set.
pub open spec fn perm_bit(v: u8, n: u8) -> bool {
    (v >> n) & 1 == 1
}

/// The order of permissions: where `a` holds a right (execute, read, write, user, tested in
/// this order) that `b` lacks, `a` is below `b`; equal bits are equal; otherwise `a` is
/// above `b`.
pub open spec fn perm_order(a: u8, b: u8) -> PermOrder {
    if perm_bit(a, 0) && !perm_bit(b, 0) {
        PermOrder::Less
    } else if perm_bit(a, 1) && !perm_bit(b, 1) {
        PermOrder::Less
    } else if perm_bit(a, 2) && !perm_bit(b, 2) {
        PermOrder::Less
    } else if perm_bit(a, 3) && !perm_bit(b, 3) {
        PermOrder::Less
    } else if a == b {
        PermOrder::Equal
    } else {
        PermOrder::Greater
    }
}

/// The outcome of comparing two sets of permissions.
#[derive(Clone, Copy, PartialEq, Eq, Structural, Debug)]
pub enum PermOrder {
    Less,
    Equal,
    Greater,
}

impl VmPermissions {
    /// No permissions
    pub fn none() -> (r: Self)
        ensures
            r.0 == 0,
    {
        Self(0)
    }

    fn get(&self, n: u8) -> (r: bool)
        requires
            n < 8,
        ensures
            r == perm_bit(self.0, n),
    {
        (self.0 >> n) & 1 == 1
    }

    fn set(self, n: u8, flag: bool) -> (r: Self)
        requires
            n < 8,
        ensures
            perm_bit(r.0, n) == flag,
            forall|m: u8| m < 8 && m != n ==> perm_bit(r.0, m) == perm_bit(self.0, m),
    {
        let mask: u8 = 1u8 << n;
        let v = self.0;
        let out = if flag {
            v | mask
        } else {
            v & !mask
        };
        assert(perm_bit(out, n) == flag) by (bit_vector)
            requires
                n < 8,
                mask == 1u8 << n,
                out == (if flag {
                    v | mask
                } else {
                    v & !mask
                }),
        ;
        assert forall|m: u8| m < 8 && m != n implies perm_bit(out, m) == perm_bit(v, m) by {
            assert(perm_bit(out, m) == perm_bit(v, m)) by (bit_vector)
                requires
                    n < 8,
                    m < 8,
                    m != n,
                    mask == 1u8 << n,
                    out == (if flag {
                        v | mask
                    } else {
                        v & !mask
                    }),
            ;
        }
        Self(out)
    }

    /// Make execute is possible
    pub fn is_exec_set(&self) -> (r: bool)
        ensures
            r == perm_bit(self.0, 0),
    {
        self.get(0)
    }

    /// Make reading possible
    pub fn is_read_set(&self) -> (r: bool)
        ensures
            r == perm_bit(self.0, 1),
    {
        self.get(1)
    }

    /// Make writing possible
    pub fn is_write_set(&self) -> (r: bool)
        ensures
            r == perm_bit(self.0, 2),
    {
        self.get(2)
    }

    /// Make userspace accessable
    pub fn is_user_set(&self) -> (r: bool)
        ensures
            r == perm_bit(self.0, 3),
    {
        self.get(3)
    }

    pub fn set_exec_flag(self, flag: bool) -> (r: Self)
        ensures
            perm_bit(r.0, 0) == flag,
            forall|m: u8| 0 < m < 8 ==> perm_bit(r.0, m) == perm_bit(self.0, m),
    {
        self.set(0, flag)
    }

    pub fn set_read_flag(self, flag: bool) -> (r: Self)
        ensures
            perm_bit(r.0, 1) == flag,
            forall|m: u8| m < 8 && m != 1 ==> perm_bit(r.0, m) == perm_bit(self.0, m),
    {
        self.set(1, flag)
    }

    pub fn set_write_flag(self, flag: bool) -> (r: Self)
        ensures
            perm_bit(r.0, 2) == flag,
            forall|m: u8| m < 8 && m != 2 ==> perm_bit(r.0, m) == perm_bit(self.0, m),
    {
        self.set(2, flag)
    }

    pub fn set_user_flag(self, flag: bool) -> (r: Self)
        ensures
            perm_bit(r.0, 3) == flag,
            forall|m: u8| m < 8 && m != 3 ==> perm_bit(r.0, m) == perm_bit(self.0, m),
    {
        self.set(3, flag)
    }

    /// The permissions of both together.
    pub fn union(self, rhs: Self) -> (r: Self)
        ensures
            r.0 == self.0 | rhs.0,
    {
        Self(self.0 | rhs.0)
    }

    /// Compare two sets of permissions (see `perm_order`).
    pub fn compare(&self, other: &Self) -> (r: PermOrder)
        ensures
            r == perm_order(self.0, other.0),
    {
        if self.is_exec_set() && !other.is_exec_set() {
            return PermOrder::Less;
        }
        if self.is_read_set() && !other.is_read_set() {
            return PermOrder::Less;
        }
        if self.is_write_set() && !other.is_write_set() {
            return PermOrder::Less;
        }
        if self.is_user_set() && !other.is_user_set() {
            return PermOrder::Less;
        }
        if self.0 == other.0 {
            return PermOrder::Equal;
        }
        PermOrder::Greater
    }
}

/// Why loading a page table failed.
#[derive(Clone, Copy, Debug)]
pub enum PageTableLoadingError {
    PhysTranslationErr(PhysPtrTranslationError),
    AlreadyLoaded,
    Empty,
}

/// Why mapping a page failed.
#[derive(Clone, Copy, Debug)]
pub enum PageCorrelationError {
    PhysTranslationErr(PhysPtrTranslationError),
    /// This page was already mapped, and the 'OVERRIDE' flag was not set
    PageAlreadyMapped,
    /// The above table didn't have the required flags, and the 'REC_PERM' flag was not set
    ExistingPermissionsTooStrict { table_perms: VmPermissions, requested_perms: VmPermissions },
    /// The above table didn't have the required flags, and the 'REC_PERM' flag was not set
    ExistingPermissionsPermissive { table_perms: VmPermissions, requested_perms: VmPermissions },
    /// The table was already locked, and the 'NO_WAIT_FOR_LOCK' flag was set
    AlreadyLocked,
}

/// The outcome of checking the permissions of an existing entry against requested ones.
pub open spec fn perm_check(
    present: bool,
    prev_perm: VmPermissions,
    new_perm: VmPermissions,
    options: VmOptions,
) -> Option<PageCorrelationError> {
    if !present {
        None
    } else if perm_order(prev_perm.0, new_perm.0) == PermOrder::Less && !bit_set(options.0, 1) {
        Some(
            PageCorrelationError::ExistingPermissionsTooStrict {
                table_perms: prev_perm,
                requested_perms: new_perm,
            },
        )
    } else if perm_order(prev_perm.0, new_perm.0) == PermOrder::Greater && !bit_set(options.0, 4)
        && bit_set(options.0, 0) {
        Some(
            PageCorrelationError::ExistingPermissionsPermissive {
                table_perms: prev_perm,
                requested_perms: new_perm,
            },
        )
    } else {
        None
    }
}

/// Check the permissions of an existing entry before it is reused for a new mapping: an
/// entry that is not present needs no check; one whose permissions are below those
/// requested fails unless raising them is allowed; one above them fails where the mapping
/// overwrites and lowering the tables is not allowed.
pub fn check_perms(
    present: bool,
    prev_perm: VmPermissions,
    new_perm: VmPermissions,
    options: VmOptions,
) -> (r: Option<PageCorrelationError>)
    ensures
        r == perm_check(present, prev_perm, new_perm, options),
{
    if !present {
        return None;
    }
    let ord = prev_perm.compare(&new_perm);
    if ord == PermOrder::Less && !options.is_increase_perm_set() {
        return Some(
            PageCorrelationError::ExistingPermissionsTooStrict {
                table_perms: prev_perm,
                requested_perms: new_perm,
            },
        );
    }
    if ord == PermOrder::Greater && !options.is_reduce_perm_from_tables_set()
        && options.is_overwrite_set() {
        return Some(
            PageCorrelationError::ExistingPermissionsPermissive {
                table_perms: prev_perm,
                requested_perms: new_perm,
            },
        );
    }
    None
}

/// The index into the table of each level (4 down to 1) that maps `addr`: bits 39-47,
/// 30-38, 21-29 and 12-20.
pub open spec fn table_indexes(addr: u64) -> (u64, u64, u64, u64) {
    ((addr >> 39) & 511, (addr >> 30) & 511, (addr >> 21) & 511, (addr >> 12) & 511)
}

/// Returns the indexes into the page tables that would give this virtual address.
pub fn table_indexes_for(vaddr: VirtAddr) -> (r: (usize, usize, usize, usize))
    ensures
        r.0 == table_indexes(vaddr@ as u64).0,
        r.1 == table_indexes(vaddr@ as u64).1,
        r.2 == table_indexes(vaddr@ as u64).2,
        r.3 == table_indexes(vaddr@ as u64).3,
        r.0 < 512 && r.1 < 512 && r.2 < 512 && r.3 < 512,
{
    let a = vaddr.addr() as u64;
    let l4 = (a >> 39u64) & 511;
    let l3 = (a >> 30u64) & 511;
    let l2 = (a >> 21u64) & 511;
    let l1 = (a >> 12u64) & 511;
    assert(l4 < 512 && l3 < 512 && l2 < 512 && l1 < 512) by (bit_vector)
        requires
            l4 == (a >> 39u64) & 511,
            l3 == (a >> 30u64) & 511,
            l2 == (a >> 21u64) & 511,
            l1 == (a >> 12u64) & 511,
    ;
    (l4 as usize, l3 as usize, l2 as usize, l1 as usize)
}

/// A page table entry, by the fields that mapping reads: present (which also stands for
/// read access), writable, user accessible, execution disabled, and the physical address
/// it points to.
#[derive(Clone, Copy, PartialEq, Eq, Structural, Debug)]
pub struct PageEntry {
    pub present: bool,
    pub read_write: bool,
    pub user_access: bool,
    pub execute_disable: bool,
    pub address: u64,
}

/// The permissions an entry grants.
pub open spec fn perms_of(e: PageEntry) -> u8 {
    ((if !e.execute_disable { 1int } else { 0int }) + (if e.present { 2int } else { 0int }) + (
    if e.read_write { 4int } else { 0int }) + (if e.user_access { 8int } else { 0int })) as u8
}

/// The entry with the permissions of `p` added to its own.
pub open spec fn with_added(e: PageEntry, p: VmPermissions) -> PageEntry {
    PageEntry {
        present: perm_bit(p.0, 1) || e.present,
        read_write: perm_bit(p.0, 2) || e.read_write,
        user_access: perm_bit(p.0, 3) || e.user_access,
        execute_disable: !(perm_bit(p.0, 0) || !e.execute_disable),
        ..e
    }
}

/// The entry with exactly the permissions of `p`.
pub open spec fn with_only(e: PageEntry, p: VmPermissions) -> PageEntry {
    PageEntry {
        present: perm_bit(p.0, 1),
        read_write: perm_bit(p.0, 2),
        user_access: perm_bit(p.0, 3),
        execute_disable: !perm_bit(p.0, 0),
        ..e
    }
}

proof fn lemma_flag_bits(x: bool, p: bool, w: bool, u: bool)
    ensures
        ({
            let v = ((if x { 1int } else { 0int }) + (if p { 2int } else { 0int }) + (if w {
                4int
            } else {
                0int
            }) + (if u { 8int } else { 0int })) as u8;
            &&& perm_bit(v, 0) == x
            &&& perm_bit(v, 1) == p
            &&& perm_bit(v, 2) == w
            &&& perm_bit(v, 3) == u
        }),
{
    let v = ((if x { 1int } else { 0int }) + (if p { 2int } else { 0int }) + (if w {
        4int
    } else {
        0int
    }) + (if u { 8int } else { 0int })) as u8;
    let a: u8 = if x { 1 } else { 0 };
    let b: u8 = if p { 2 } else { 0 };
    let c: u8 = if w { 4 } else { 0 };
    let d: u8 = if u { 8 } else { 0 };
    assert(v == a + b + c + d);
    assert(((a + b + c + d) as u8 >> 0u8) & 1 == 1 <==> x) by (bit_vector)
        requires
            a == (if x { 1u8 } else { 0u8 }),
            b == (if p { 2u8 } else { 0u8 }),
            c == (if w { 4u8 } else { 0u8 }),
            d == (if u { 8u8 } else { 0u8 }),
    ;
    assert(((a + b + c + d) as u8 >> 1u8) & 1 == 1 <==> p) by (bit_vector)
        requires
            a == (if x { 1u8 } else { 0u8 }),
            b == (if p { 2u8 } else { 0u8 }),
            c == (if w { 4u8 } else { 0u8 }),
            d == (if u { 8u8 } else { 0u8 }),
    ;
    assert(((a + b + c + d) as u8 >> 2u8) & 1 == 1 <==> w) by (bit_vector)
        requires
            a == (if x { 1u8 } else { 0u8 }),
            b == (if p { 2u8 } else { 0u8 }),
            c == (if w { 4u8 } else { 0u8 }),
            d == (if u { 8u8 } else { 0u8 }),
    ;
    assert(((a + b + c + d) as u8 >> 3u8) & 1 == 1 <==> u) by (bit_vector)
        requires
            a == (if x { 1u8 } else { 0u8 }),
            b == (if p { 2u8 } else { 0u8 }),
            c == (if w { 4u8 } else { 0u8 }),
            d == (if u { 8u8 } else { 0u8 }),
    ;
}

/// The permissions an entry grants, read back bit by bit: execute while execution is not
/// disabled, read while present, write, and user access.
pub proof fn lemma_perms_of_bits(e: PageEntry)
    ensures
        perm_bit(perms_of(e), 0) == !e.execute_disable,
        perm_bit(perms_of(e), 1) == e.present,
        perm_bit(perms_of(e), 2) == e.read_write,
        perm_bit(perms_of(e), 3) == e.user_access,
{
    lemma_flag_bits(!e.execute_disable, e.present, e.read_write, e.user_access);
}

/// Adding permissions grants every right asked for and keeps every right the entry had,
/// and grants nothing else: each of the four rights afterwards is the right asked for or
/// the right held before. The entry's address stays.
pub proof fn lemma_added_is_union(e: PageEntry, p: VmPermissions)
    ensures
        forall|n: u8|
            n < 4 ==> #[trigger] perm_bit(perms_of(with_added(e, p)), n) == (perm_bit(p.0, n)
                || perm_bit(perms_of(e), n)),
        with_added(e, p).address == e.address,
{
    lemma_perms_of_bits(e);
    lemma_perms_of_bits(with_added(e, p));
    assert forall|n: u8| n < 4 implies #[trigger] perm_bit(perms_of(with_added(e, p)), n) == (
    perm_bit(p.0, n) || perm_bit(perms_of(e), n)) by {
        if n == 0 {
        } else if n == 1 {
        } else if n == 2 {
        } else {
            assert(n == 3);
        }
    }
}

/// Setting permissions leaves the entry with exactly the rights asked for, and its address.
pub proof fn lemma_only_is_exact(e: PageEntry, p: VmPermissions)
    ensures
        forall|n: u8| n < 4 ==> #[trigger] perm_bit(perms_of(with_only(e, p)), n) == perm_bit(p.0, n),
        with_only(e, p).address == e.address,
{
    lemma_perms_of_bits(with_only(e, p));
    assert forall|n: u8| n < 4 implies #[trigger] perm_bit(perms_of(with_only(e, p)), n) == perm_bit(
        p.0,
        n,
    ) by {
        if n == 0 {
        } else if n == 1 {
        } else if n == 2 {
        } else {
            assert(n == 3);
        }
    }
}

/// A table entry whose permissions can be read and changed.
pub trait PagePermissions {
    fn reduce_permissions_to(&mut self, permissions: VmPermissions);

    fn add_permissions_from(&mut self, permissions: VmPermissions);

    fn get_permissions(&self) -> VmPermissions;
}

impl PagePermissions for PageEntry {
    /// Give the entry exactly the permissions of `permissions`.
    fn reduce_permissions_to(&mut self, permissions: VmPermissions)
        ensures
            *final(self) == with_only(*old(self), permissions),
    {
        self.present = permissions.is_read_set();
        self.read_write = permissions.is_write_set();
        self.user_access = permissions.is_user_set();
        self.execute_disable = !permissions.is_exec_set();
    }

    /// Add the permissions of `permissions` to those of the entry.
    fn add_permissions_from(&mut self, permissions: VmPermissions)
        ensures
            *final(self) == with_added(*old(self), permissions),
    {
        let read = permissions.is_read_set();
        let write = permissions.is_write_set();
        let user = permissions.is_user_set();
        let exec = permissions.is_exec_set();
        self.present = read || self.present;
        self.read_write = write || self.read_write;
        self.user_access = user || self.user_access;
        self.execute_disable = !(exec || !self.execute_disable);
    }

    /// The permissions the entry grants.
    fn get_permissions(&self) -> (r: VmPermissions)
        ensures
            r.0 == perms_of(*self),
    {
        let x: u8 = if !self.execute_disable {
            1
        } else {
            0
        };
        let p: u8 = if self.present {
            2
        } else {
            0
        };
        let w: u8 = if self.read_write {
            4
        } else {
            0
        };
        let u: u8 = if self.user_access {
            8
        } else {
            0
        };
        VmPermissions(x + p + w + u)
    }
}

/// What preparing an entry of a table above the page gives: the entry the mapping
/// leaves, or the reason it fails.
pub open spec fn prepared_entry(e: PageEntry, p: VmPermissions, o: VmOptions) -> Result<
    PageEntry,
    PageCorrelationError,
> {
    let prev = perms_of(e);
    let present_after = p.0 != 0;
    if !e.present {
        Ok(PageEntry { present: present_after, ..with_added(e, p) })
    } else {
        let e1 = if bit_set(o.0, 1) { with_added(e, p) } else { e };
        if perm_order(prev, p.0) == PermOrder::Less && !bit_set(o.0, 1) {
            Err(
                PageCorrelationError::ExistingPermissionsTooStrict {
                    table_perms: VmPermissions(perms_of(e)),
                    requested_perms: p,
                },
            )
        } else if perm_order(prev, p.0) == PermOrder::Greater && !bit_set(o.0, 4) && !bit_set(
            o.0,
            0,
        ) {
            Err(
                PageCorrelationError::ExistingPermissionsPermissive {
                    table_perms: VmPermissions(perms_of(e1)),
                    requested_perms: p,
                },
            )
        } else {
            let e2 = if perm_order(prev, p.0) == PermOrder::Less && bit_set(o.0, 4) && bit_set(
                o.0,
                0,
            ) {
                with_only(e1, p)
            } else {
                e1
            };
            Ok(PageEntry { present: present_after, ..e2 })
        }
    }
}

/// The entry a table above the page keeps when preparing it failed: an existing entry has
/// already taken the added permissions where raising them was asked for.
pub open spec fn prepare_failed_entry(e: PageEntry, p: VmPermissions, o: VmOptions) -> PageEntry {
    if e.present && bit_set(o.0, 1) {
        with_added(e, p)
    } else {
        e
    }
}

/// Prepare the entry of a table above the page being mapped: a new entry takes the
/// requested permissions; an existing one is checked against them and raised or lowered
/// as the options allow. The entry is present where any permission is requested.
pub fn prepare_table_entry(
    entry: &mut PageEntry,
    permissions: VmPermissions,
    options: VmOptions,
) -> (r: Result<(), PageCorrelationError>)
    ensures
        match prepared_entry(*old(entry), permissions, options) {
            Ok(e) => r is Ok && *final(entry) == e,
            Err(err) => r == Err::<(), PageCorrelationError>(err) && *final(entry)
                == prepare_failed_entry(*old(entry), permissions, options),
        },
{
    let prev_permissions = entry.get_permissions();
    if !entry.present {
        entry.add_permissions_from(permissions);
    } else {
        let ord = prev_permissions.compare(&permissions);
        if ord == PermOrder::Less && !options.is_increase_perm_set() {
            return Err(
                PageCorrelationError::ExistingPermissionsTooStrict {
                    table_perms: entry.get_permissions(),
                    requested_perms: permissions,
                },
            );
        } else if options.is_increase_perm_set() {
            entry.add_permissions_from(permissions);
        }
        if ord == PermOrder::Greater && !options.is_reduce_perm_from_tables_set()
            && !options.is_overwrite_set() {
            return Err(
                PageCorrelationError::ExistingPermissionsPermissive {
                    table_perms: entry.get_permissions(),
                    requested_perms: permissions,
                },
            );
        } else if ord == PermOrder::Less && options.is_reduce_perm_from_tables_set()
            && options.is_overwrite_set() {
            entry.reduce_permissions_to(permissions);
        }
    }
    entry.present = permissions.0 != 0;
    Ok(())
}

/// What mapping the page entry gives: the entry afterwards and the address it pointed to
/// before (if it was present), or the reason it fails.
pub open spec fn correlated_entry(
    e: PageEntry,
    address: u64,
    p: VmPermissions,
    o: VmOptions,
) -> Result<(PageEntry, Option<u64>), PageCorrelationError> {
    let prev = perms_of(e);
    if e.present && !bit_set(o.0, 0) {
        Err(PageCorrelationError::PageAlreadyMapped)
    } else if !e.present {
        let z = PageEntry {
            present: false,
            read_write: false,
            user_access: false,
            execute_disable: false,
            address: 0,
        };
        let e1 = with_added(z, p);
        Ok((if bit_set(o.0, 5) { e1 } else { PageEntry { address, ..e1 } }, None))
    } else {
        let e1 = if bit_set(o.0, 1) { with_added(e, p) } else { e };
        if perm_order(prev, p.0) == PermOrder::Less && !bit_set(o.0, 1) {
            Err(
                PageCorrelationError::ExistingPermissionsTooStrict {
                    table_perms: VmPermissions(perms_of(e)),
                    requested_perms: p,
                },
            )
        } else if perm_order(prev, p.0) == PermOrder::Greater && !bit_set(o.0, 0) && !bit_set(
            o.0,
            6,
        ) {
            Err(
                PageCorrelationError::ExistingPermissionsPermissive {
                    table_perms: VmPermissions(perms_of(e1)),
                    requested_perms: p,
                },
            )
        } else {
            let e2 = if perm_order(prev, p.0) == PermOrder::Less && bit_set(o.0, 6) {
                with_only(e1, p)
            } else {
                e1
            };
            Ok((if bit_set(o.0, 5) { e2 } else { PageEntry { address, ..e2 } }, Some(e.address)))
        }
    }
}

/// Mapping a page where none was mapped grants every right asked for: the new page entry
/// holds each of them, and so does a new table entry prepared above it.
pub proof fn lemma_new_mapping_grants(
    e: PageEntry,
    address: u64,
    p: VmPermissions,
    o: VmOptions,
)
    requires
        !e.present,
    ensures
        correlated_entry(e, address, p, o) is Ok,
        prepared_entry(e, p, o) is Ok,
        forall|n: u8|
            n < 4 && #[trigger] perm_bit(p.0, n) ==> perm_bit(
                perms_of(correlated_entry(e, address, p, o)->Ok_0.0),
                n,
            ) && perm_bit(perms_of(prepared_entry(e, p, o)->Ok_0), n),
{
    let z = PageEntry {
        present: false,
        read_write: false,
        user_access: false,
        execute_disable: false,
        address: 0,
    };
    let m = correlated_entry(e, address, p, o)->Ok_0.0;
    let t = prepared_entry(e, p, o)->Ok_0;
    lemma_added_is_union(z, p);
    lemma_added_is_union(e, p);
    lemma_perms_of_bits(m);
    lemma_perms_of_bits(t);
    lemma_perms_of_bits(with_added(z, p));
    lemma_perms_of_bits(with_added(e, p));
    let v = p.0;
    assert(perm_bit(v, 1) ==> v != 0) by (bit_vector);
}

/// Map the page entry to `address` with `permissions`: a present entry is only replaced
/// where the options allow overwriting, and its permissions are checked as for the tables
/// above; with `only_commit_permissions` the address stays. The result is the address the
/// entry pointed to before, if it was present.
pub fn correlate_entry(
    entry: &mut PageEntry,
    address: u64,
    permissions: VmPermissions,
    options: VmOptions,
) -> (r: Result<Option<u64>, PageCorrelationError>)
    ensures
        match correlated_entry(*old(entry), address, permissions, options) {
            Ok((e, prev)) => r == Ok::<Option<u64>, PageCorrelationError>(prev) && *final(entry)
                == e,
            Err(err) => r == Err::<Option<u64>, PageCorrelationError>(err),
        },
{
    let prev_permissions = entry.get_permissions();
    if entry.present && !options.is_overwrite_set() {
        return Err(PageCorrelationError::PageAlreadyMapped);
    }
    let mut prev_entry = Some(entry.address);
    if !entry.present {
        *entry = PageEntry {
            present: false,
            read_write: false,
            user_access: false,
            execute_disable: false,
            address: 0,
        };
        prev_entry = None;
        entry.add_permissions_from(permissions);
    } else {
        let ord = prev_permissions.compare(&permissions);
        if ord == PermOrder::Less && !options.is_increase_perm_set() {
            return Err(
                PageCorrelationError::ExistingPermissionsTooStrict {
                    table_perms: entry.get_permissions(),
                    requested_perms: permissions,
                },
            );
        } else if options.is_increase_perm_set() {
            entry.add_permissions_from(permissions);
        }
        if ord == PermOrder::Greater && !options.is_overwrite_set()
            && !options.is_force_permissions_on_page_set() {
            return Err(
                PageCorrelationError::ExistingPermissionsPermissive {
                    table_perms: entry.get_permissions(),
                    requested_perms: permissions,
                },
            );
        } else if ord == PermOrder::Less && options.is_force_permissions_on_page_set() {
            entry.reduce_permissions_to(permissions);
        }
    }
    if !options.is_only_commit_permissions_set() {
        entry.address = address;
    }
    Ok(prev_entry)
}

/// The physical address of `virt`, from what the loaded page tables answered for its page
/// (`loaded`), falling back to the bootloader's translation (`bootloader`) while the loaded
/// tables are not set up. A page found in the loaded tables gives the page's address plus
/// the offset of `virt` in its page; other errors of the loaded tables are passed on.
pub fn resolve_translation(
    virt: VirtAddr,
    loaded: Result<PhysPage, PhysPtrTranslationError>,
    bootloader: Option<u64>,
) -> (r: Result<PhysAddr, PhysPtrTranslationError>)
    requires
        loaded matches Ok(p) ==> p@ * 4096 + 4096 <= usize::MAX + 1,
    ensures
        loaded matches Ok(p) ==> r matches Ok(a) && a@ == p@ * 4096 + virt@ % 4096,
        loaded matches Err(PhysPtrTranslationError::PageEntriesNotSetup) ==> match bootloader {
            Some(b) => r matches Ok(a) && a@ == (#[verifier::truncate] (b as usize)),
            None => r matches Err(PhysPtrTranslationError::VirtNotFound(v)) && v == virt,
        },
        loaded matches Err(PhysPtrTranslationError::VirtNotFound(v)) ==> r matches Err(
            PhysPtrTranslationError::VirtNotFound(w),
        ) && w == v,
{
    match loaded {
        Ok(page) => {
            proof {
                crate::util::lemma_page_size_pow2();
                crate::mem::page::lemma_page_sizes();
            }
            let offset = virt.chop_bottom(4096);
            Ok(page.addr().extend_by(offset))
        },
        Err(PhysPtrTranslationError::PageEntriesNotSetup) => match bootloader {
            Some(b) => Ok(PhysAddr::new(#[verifier::truncate] (b as usize))),
            None => Err(PhysPtrTranslationError::VirtNotFound(virt)),
        },
        Err(e) => Err(e),
    }
}

} // verus!
