use vstd::prelude::*;

use crate::mem::MemoryError;

verus! {

/// The kind of a stretch of physical memory. Later variants take precedence over
/// earlier ones when two regions overlap.
#[derive(Debug, Clone, Copy, PartialEq, Eq, Structural, PartialOrd, Ord)]
pub enum PhysMemoryKind {
    Empty,
    Free,
    Reserved,
    Special,
    Bootloader,
    Kernel,
    PageTables,
    Broken,
}

/// Precedence of a kind: a region of higher precedence wins where regions overlap.
pub open spec fn kind_rank(k: PhysMemoryKind) -> nat {
    match k {
        PhysMemoryKind::Empty => 0,
        PhysMemoryKind::Free => 1,
        PhysMemoryKind::Reserved => 2,
        PhysMemoryKind::Special => 3,
        PhysMemoryKind::Bootloader => 4,
        PhysMemoryKind::Kernel => 5,
        PhysMemoryKind::PageTables => 6,
        PhysMemoryKind::Broken => 7,
    }
}

/// The kind of higher precedence of the two.
pub open spec fn max_kind(a: PhysMemoryKind, b: PhysMemoryKind) -> PhysMemoryKind {
    if kind_rank(a) >= kind_rank(b) { a } else { b }
}

/// Precedence follows the order in which the kinds are declared: each kind takes
/// precedence over every kind declared before it, from `Empty` (lowest) to `Broken`.
pub proof fn lemma_kind_rank_follows_declaration()
    ensures
        kind_rank(PhysMemoryKind::Empty) < kind_rank(PhysMemoryKind::Free),
        kind_rank(PhysMemoryKind::Free) < kind_rank(PhysMemoryKind::Reserved),
        kind_rank(PhysMemoryKind::Reserved) < kind_rank(PhysMemoryKind::Special),
        kind_rank(PhysMemoryKind::Special) < kind_rank(PhysMemoryKind::Bootloader),
        kind_rank(PhysMemoryKind::Bootloader) < kind_rank(PhysMemoryKind::Kernel),
        kind_rank(PhysMemoryKind::Kernel) < kind_rank(PhysMemoryKind::PageTables),
        kind_rank(PhysMemoryKind::PageTables) < kind_rank(PhysMemoryKind::Broken),
{
}

/// Where regions overlap the winner is one of the two kinds, and the choice does not
/// depend on which was laid first; `Broken` wins over every kind and every kind wins over
/// `Empty`; two different kinds never tie.
pub proof fn lemma_max_kind_laws(a: PhysMemoryKind, b: PhysMemoryKind)
    ensures
        max_kind(a, b) == a || max_kind(a, b) == b,
        max_kind(a, b) == max_kind(b, a),
        max_kind(a, PhysMemoryKind::Broken) == PhysMemoryKind::Broken,
        max_kind(a, PhysMemoryKind::Empty) == a,
        a != b ==> kind_rank(a) != kind_rank(b),
{
}

impl PhysMemoryKind {
    /// The precedence of this kind (`Empty` lowest, `Broken` highest).
    pub fn precedence(&self) -> (r: u8)
        ensures
            r == kind_rank(*self),
    {
        match self {
            PhysMemoryKind::Empty => 0,
            PhysMemoryKind::Free => 1,
            PhysMemoryKind::Reserved => 2,
            PhysMemoryKind::Special => 3,
            PhysMemoryKind::Bootloader => 4,
            PhysMemoryKind::Kernel => 5,
            PhysMemoryKind::PageTables => 6,
            PhysMemoryKind::Broken => 7,
        }
    }

    /// The kind of higher precedence among `self` and `other`.
    pub fn higher(self, other: PhysMemoryKind) -> (r: PhysMemoryKind)
        ensures
            r == max_kind(self, other),
    {
        if self.precedence() >= other.precedence() {
            self
        } else {
            other
        }
    }
}

/// Something that describes a region `[start, end)` of physical memory of a given kind.
pub trait MemoryDesc {
    spec fn desc_kind(&self) -> PhysMemoryKind;

    spec fn desc_start(&self) -> u64;

    spec fn desc_end(&self) -> u64;

    fn memory_kind(&self) -> (r: PhysMemoryKind)
        ensures
            r == self.desc_kind(),
    ;

    fn memory_start(&self) -> (r: u64)
        ensures
            r == self.desc_start(),
    ;

    fn memory_end(&self) -> (r: u64)
        ensures
            r == self.desc_end(),
    ;
}

/// A point of the memory map: from `address` on (up to the next border) memory is of `kind`.
#[derive(Clone, Copy, Debug, PartialEq, Eq, Structural)]
pub struct PhysMemoryBorder {
    pub kind: PhysMemoryKind,
    pub address: u64,
}

/// A region `[start, end)` of physical memory of one kind.
#[derive(Clone, Copy, Debug, PartialEq, Eq, Structural)]
pub struct PhysMemoryEntry {
    pub kind: PhysMemoryKind,
    pub start: u64,
    pub end: u64,
}

impl MemoryDesc for PhysMemoryEntry {
    open spec fn desc_kind(&self) -> PhysMemoryKind {
        self.kind
    }

    open spec fn desc_start(&self) -> u64 {
        self.start
    }

    open spec fn desc_end(&self) -> u64 {
        self.end
    }

    fn memory_kind(&self) -> (r: PhysMemoryKind) {
        self.kind
    }

    fn memory_start(&self) -> (r: u64) {
        self.start
    }

    fn memory_end(&self) -> (r: u64) {
        self.end
    }
}

impl PhysMemoryEntry {
    /// An entry of kind `Empty` covering nothing.
    pub fn empty() -> (r: Self)
        ensures
            r.kind == PhysMemoryKind::Empty,
            r.start == 0,
            r.end == 0,
    {
        Self { kind: PhysMemoryKind::Empty, start: 0, end: 0 }
    }

    /// The number of bytes the entry covers.
    pub fn len(&self) -> (r: u64)
        requires
            self.start <= self.end,
        ensures
            r == self.end - self.start,
    {
        self.end - self.start
    }
}

/// The border that fills the unused part of the map.
pub open spec fn empty_border() -> PhysMemoryBorder {
    PhysMemoryBorder { kind: PhysMemoryKind::Empty, address: 0 }
}

/// The kind of memory at address `a` described by a list of borders: that of the last
/// border at or below `a`, or `Empty` when there is no such border.
pub open spec fn kind_at(s: Seq<PhysMemoryBorder>, a: int) -> PhysMemoryKind
    decreases s.len(),
{
    if s.len() == 0 {
        PhysMemoryKind::Empty
    } else if s.last().address <= a {
        s.last().kind
    } else {
        kind_at(s.drop_last(), a)
    }
}

/// The kind of the last border, `Empty` for an empty list.
pub open spec fn last_kind(s: Seq<PhysMemoryBorder>) -> PhysMemoryKind {
    if s.len() == 0 {
        PhysMemoryKind::Empty
    } else {
        s.last().kind
    }
}

/// Borders strictly increase in address.
pub open spec fn sorted(s: Seq<PhysMemoryBorder>) -> bool {
    forall|i: int, j: int| 0 <= i < j < s.len() ==> s[i].address < s[j].address
}

/// Borders strictly increase in address, neighbours differ in kind, and the first
/// border is not of kind `Empty`.
pub open spec fn well_ordered(s: Seq<PhysMemoryBorder>) -> bool {
    &&& forall|i: int, j: int| 0 <= i < j < s.len() ==> s[i].address < s[j].address
    &&& forall|i: int, j: int| #![trigger s[i], s[j]] 0 <= i && j == i + 1 && j < s.len() ==> s[i].kind != s[j].kind
    &&& s.len() > 0 ==> s[0].kind != PhysMemoryKind::Empty
}

/// The canonical description of a memory layout: well ordered, and the last border
/// goes back to `Empty`, so that every region is finite.
pub open spec fn canonical(s: Seq<PhysMemoryBorder>) -> bool {
    &&& well_ordered(s)
    &&& last_kind(s) == PhysMemoryKind::Empty
}

/// The kind of memory at `a` once a region `[start, end)` of `kind` is laid over the
/// layout `s`: inside the region the kind of higher precedence wins.
pub open spec fn region_kind_at(
    s: Seq<PhysMemoryBorder>,
    kind: PhysMemoryKind,
    start: int,
    end: int,
    a: int,
) -> PhysMemoryKind {
    if start <= a < end {
        max_kind(kind_at(s, a), kind)
    } else {
        kind_at(s, a)
    }
}

/// Where no border lies in `[c, len)` at or below `a`, and border `c - 1` does, the kind at
/// `a` is the kind of border `c - 1`.
pub proof fn lemma_kind_at_index(s: Seq<PhysMemoryBorder>, a: int, c: int)
    requires
        0 <= c <= s.len(),
        c == 0 || s[c - 1].address <= a,
        forall|j: int| c <= j < s.len() ==> s[j].address > a,
    ensures
        kind_at(s, a) == (if c == 0 { PhysMemoryKind::Empty } else { s[c - 1].kind }),
    decreases s.len(),
{
    if s.len() == 0 {
    } else if c == s.len() {
    } else {
        assert(s.last().address > a);
        let t = s.drop_last();
        assert forall|j: int| c <= j < t.len() implies t[j].address > a by {
            assert(t[j] == s[j]);
        }
        if c > 0 {
            assert(t[c - 1] == s[c - 1]);
        }
        lemma_kind_at_index(t, a, c);
    }
}

/// Beyond its last border, a list describes the kind of its last border.
pub proof fn lemma_kind_at_above(s: Seq<PhysMemoryBorder>, a: int)
    requires
        forall|j: int| 0 <= j < s.len() ==> s[j].address <= a,
    ensures
        kind_at(s, a) == last_kind(s),
{
    lemma_kind_at_index(s, a, s.len() as int);
}

/// Below the last border of a well ordered list, dropping that border changes nothing.
pub proof fn lemma_kind_at_drop_last(s: Seq<PhysMemoryBorder>, a: int)
    requires
        s.len() > 0,
        a < s.last().address,
    ensures
        kind_at(s, a) == kind_at(s.drop_last(), a),
{
}

/// Two well ordered lists that describe the same layout are the same list: the
/// description of a layout is unique.
pub proof fn lemma_well_ordered_unique(t1: Seq<PhysMemoryBorder>, t2: Seq<PhysMemoryBorder>)
    requires
        well_ordered(t1),
        well_ordered(t2),
        forall|a: int| kind_at(t1, a) == kind_at(t2, a),
    ensures
        t1 == t2,
    decreases t1.len() + t2.len(),
{
    if t1.len() == 0 && t2.len() == 0 {
        assert(t1 =~= t2);
    } else if t1.len() == 0 {
        lemma_first_border_visible(t2);
        assert(kind_at(t1, t2[0].address as int) == PhysMemoryKind::Empty);
    } else if t2.len() == 0 {
        lemma_first_border_visible(t1);
        assert(kind_at(t2, t1[0].address as int) == PhysMemoryKind::Empty);
    } else {
        let l1 = t1.last().address as int;
        let l2 = t2.last().address as int;
        if l1 < l2 {
            lemma_last_border_changes(t2);
            lemma_kind_at_above(t1, l2);
            lemma_kind_at_above(t1, l2 - 1);
            assert(kind_at(t2, l2) == kind_at(t1, l2));
            assert(kind_at(t2, l2 - 1) == kind_at(t1, l2 - 1));
            assert(false);
        } else if l2 < l1 {
            lemma_last_border_changes(t1);
            lemma_kind_at_above(t2, l1);
            lemma_kind_at_above(t2, l1 - 1);
            assert(kind_at(t1, l1) == kind_at(t2, l1));
            assert(kind_at(t1, l1 - 1) == kind_at(t2, l1 - 1));
            assert(false);
        } else {
            let l = l1;
            assert(kind_at(t1, l) == t1.last().kind);
            assert(kind_at(t2, l) == t2.last().kind);
            let d1 = t1.drop_last();
            let d2 = t2.drop_last();
            lemma_drop_last_well_ordered(t1);
            lemma_drop_last_well_ordered(t2);
            assert forall|a: int| kind_at(d1, a) == kind_at(d2, a) by {
                if a < l {
                    lemma_kind_at_drop_last(t1, a);
                    lemma_kind_at_drop_last(t2, a);
                } else {
                    lemma_below_last(t1);
                    lemma_below_last(t2);
                    lemma_kind_at_above(d1, a);
                    lemma_kind_at_above(d2, a);
                    lemma_kind_at_above(d1, l - 1);
                    lemma_kind_at_above(d2, l - 1);
                    lemma_kind_at_drop_last(t1, l - 1);
                    lemma_kind_at_drop_last(t2, l - 1);
                    assert(kind_at(t1, l - 1) == kind_at(t2, l - 1));
                }
            }
            lemma_well_ordered_unique(d1, d2);
            assert(t1 =~= d1.push(t1.last()));
            assert(t2 =~= d2.push(t2.last()));
        }
    }
}

proof fn lemma_below_last(t: Seq<PhysMemoryBorder>)
    requires
        well_ordered(t),
        t.len() > 0,
    ensures
        forall|j: int| 0 <= j < t.drop_last().len() ==> t.drop_last()[j].address <= t.last().address - 1,
{
    assert forall|j: int| 0 <= j < t.drop_last().len() implies t.drop_last()[j].address <= t.last().address - 1 by {
        assert(t.drop_last()[j] == t[j]);
        assert(t[j].address < t[t.len() - 1].address);
    }
}

proof fn lemma_drop_last_well_ordered(t: Seq<PhysMemoryBorder>)
    requires
        well_ordered(t),
        t.len() > 0,
    ensures
        well_ordered(t.drop_last()),
{
    let d = t.drop_last();
    assert forall|i: int, j: int| 0 <= i < j < d.len() implies d[i].address < d[j].address by {
        assert(d[i] == t[i] && d[j] == t[j]);
    }
    assert forall|i: int, j: int| #![trigger d[i], d[j]] 0 <= i && j == i + 1 && j < d.len() implies d[i].kind != d[j].kind by {
        assert(d[i] == t[i] && d[j] == t[j]);
    }
    if d.len() > 0 {
        assert(d[0] == t[0]);
    }
}

/// At the first border of a well ordered list the layout leaves `Empty`.
proof fn lemma_first_border_visible(t: Seq<PhysMemoryBorder>)
    requires
        well_ordered(t),
        t.len() > 0,
    ensures
        kind_at(t, t[0].address as int) == t[0].kind,
        t[0].kind != PhysMemoryKind::Empty,
{
    assert forall|j: int| 1 <= j < t.len() implies #[trigger] t[j].address > t[0].address by {}
    lemma_kind_at_index(t, t[0].address as int, 1);
}

/// The kind changes at the last border of a well ordered list.
proof fn lemma_last_border_changes(t: Seq<PhysMemoryBorder>)
    requires
        well_ordered(t),
        t.len() > 0,
    ensures
        kind_at(t, t.last().address as int) == t.last().kind,
        kind_at(t, t.last().address - 1) != t.last().kind,
{
    let l = t.last().address as int;
    lemma_below_last(t);
    lemma_kind_at_drop_last(t, l - 1);
    lemma_kind_at_above(t.drop_last(), l - 1);
    if t.len() > 1 {
        assert(t.drop_last().last() == t[t.len() - 2]);
        assert(t[t.len() - 2].kind != t[t.len() - 1].kind);
    }
}


/// The layout `out`, built from left to right, agrees with the layout of `s` after the
/// region is laid over it everywhere up to the point `x`, and says nothing beyond `x`.
pub open spec fn built_upto(
    out: Seq<PhysMemoryBorder>,
    s: Seq<PhysMemoryBorder>,
    kind: PhysMemoryKind,
    start: int,
    end: int,
    x: int,
) -> bool {
    &&& well_ordered(out)
    &&& forall|j: int| 0 <= j < out.len() ==> #[trigger] out[j].address <= x
    &&& forall|a: int| a < x ==> kind_at(out, a) == region_kind_at(s, kind, start, end, a)
    &&& last_kind(out) == region_kind_at(s, kind, start, end, x)
}

/// Appends `b` unless the layout already has its kind at the end.
pub open spec fn merged_push(out: Seq<PhysMemoryBorder>, b: PhysMemoryBorder) -> Seq<
    PhysMemoryBorder,
> {
    if b.kind != last_kind(out) {
        out.push(b)
    } else {
        out
    }
}

proof fn lemma_step(
    out: Seq<PhysMemoryBorder>,
    s: Seq<PhysMemoryBorder>,
    kind: PhysMemoryKind,
    start: int,
    end: int,
    x: int,
    p: u64,
)
    requires
        built_upto(out, s, kind, start, end, x),
        x < p,
        forall|a: int| x <= a < p ==> region_kind_at(s, kind, start, end, a)
            == region_kind_at(s, kind, start, end, x),
    ensures
        built_upto(
            merged_push(
                out,
                PhysMemoryBorder { kind: region_kind_at(s, kind, start, end, p as int), address: p },
            ),
            s,
            kind,
            start,
            end,
            p as int,
        ),
{
    let gp = region_kind_at(s, kind, start, end, p as int);
    let b = PhysMemoryBorder { kind: gp, address: p };
    let out2 = merged_push(out, b);
    assert forall|a: int| a < p implies kind_at(out2, a) == region_kind_at(s, kind, start, end, a) by {
        if gp != last_kind(out) {
            assert(out2.drop_last() =~= out);
        }
        if a >= x {
            lemma_kind_at_above(out, a);
        }
    }
    if gp != last_kind(out) {
        assert forall|i: int, j: int| 0 <= i < j < out2.len() implies out2[i].address < out2[j].address by {
            if j == out.len() {
                assert(out[i].address <= x);
            } else {
                assert(out2[i] == out[i] && out2[j] == out[j]);
            }
        }
        assert forall|i: int, j: int| #![trigger out2[i], out2[j]] 0 <= i && j == i + 1 && j < out2.len() implies out2[i].kind != out2[j].kind by {
            if j == out.len() {
                assert(out2[i] == out.last());
            } else {
                assert(out2[i] == out[i] && out2[j] == out[j]);
            }
        }
        if out.len() > 0 {
            assert(out2[0] == out[0]);
        }
        assert forall|j: int| 0 <= j < out2.len() implies #[trigger] out2[j].address <= p by {
            if j < out.len() {
                assert(out2[j] == out[j]);
            }
        }
    } else {
        assert forall|j: int| 0 <= j < out2.len() implies #[trigger] out2[j].address <= p by {
            assert(out[j].address <= x);
        }
    }
}

/// Between two consecutive points of interest (borders of `s`, the start and the end of
/// the region) the new layout keeps one kind.
proof fn lemma_constant(
    s: Seq<PhysMemoryBorder>,
    kind: PhysMemoryKind,
    start: int,
    end: int,
    x: int,
    p: int,
    i: int,
)
    requires
        sorted(s),
        0 <= i <= s.len(),
        i == 0 || s[i - 1].address <= x,
        i == s.len() || s[i].address >= p,
        x < p,
        start <= x || start >= p,
        end <= x || end >= p,
    ensures
        forall|a: int| x <= a < p ==> region_kind_at(s, kind, start, end, a)
            == region_kind_at(s, kind, start, end, x),
{
    assert forall|a: int| x <= a < p implies region_kind_at(s, kind, start, end, a)
        == region_kind_at(s, kind, start, end, x) by {
        assert forall|j: int| i <= j < s.len() implies s[j].address > a by {
            if j > i {
                assert(s[i].address < s[j].address);
            }
        }
        assert forall|j: int| i <= j < s.len() implies s[j].address > x by {
            if j > i {
                assert(s[i].address < s[j].address);
            }
        }
        lemma_kind_at_index(s, a, i);
        lemma_kind_at_index(s, x, i);
    }
}

/// In a well ordered list, border `i` and all later ones lie above the border before `i`.
proof fn lemma_index_of(s: Seq<PhysMemoryBorder>, x: int, i: int)
    requires
        sorted(s),
        0 <= i <= s.len(),
        i == 0 || s[i - 1].address <= x,
        i == s.len() || s[i].address > x,
    ensures
        kind_at(s, x) == (if i == 0 { PhysMemoryKind::Empty } else { s[i - 1].kind }),
{
    assert forall|j: int| i <= j < s.len() implies s[j].address > x by {
        if j > i {
            assert(s[i].address < s[j].address);
        }
    }
    lemma_kind_at_index(s, x, i);
}

fn push_merged(out: &mut Vec<PhysMemoryBorder>, b: PhysMemoryBorder)
    ensures
        final(out)@ == merged_push(old(out)@, b),
{
    let last = if out.len() == 0 {
        PhysMemoryKind::Empty
    } else {
        out[out.len() - 1].kind
    };
    if b.kind != last {
        out.push(b);
    }
}

/// A map of physical memory: a sorted list of at most `N` borders, each starting a stretch
/// of memory of one kind that lasts up to the next border.
#[derive(Clone, Debug)]
pub struct PhysMemoryMap<const N: usize> {
    borders: Vec<PhysMemoryBorder>,
    len: usize,
}

impl<const N: usize> PhysMemoryMap<N> {
    /// The storage holds `N` slots, of which those past the used part are empty.
    pub closed spec fn wf(&self) -> bool {
        &&& self.borders@.len() == N
        &&& self.len <= N
        &&& forall|j: int| self.len <= j < N ==> self.borders@[j] == empty_border()
    }

    /// The borders in use, in order.
    pub closed spec fn layout(&self) -> Seq<PhysMemoryBorder> {
        self.borders@.subrange(0, self.len as int)
    }

    /// A well-formed map uses at most `N` borders.
    pub proof fn lemma_layout_fits(&self)
        requires
            self.wf(),
        ensures
            self.layout().len() <= N,
    {
    }

    /// An empty map: all memory is of kind `Empty`.
    pub fn new() -> (r: Self)
        ensures
            r.wf(),
            r.layout() == Seq::<PhysMemoryBorder>::empty(),
    {
        let mut borders: Vec<PhysMemoryBorder> = Vec::new();
        let mut i: usize = 0;
        while i < N
            invariant
                i <= N,
                borders@.len() == i,
                forall|j: int| 0 <= j < i ==> borders@[j] == empty_border(),
            decreases N - i,
        {
            borders.push(PhysMemoryBorder { kind: PhysMemoryKind::Empty, address: 0 });
            i = i + 1;
        }
        let r = Self { borders, len: 0 };
        assert(r.layout() =~= Seq::<PhysMemoryBorder>::empty());
        r
    }

    /// The number of borders in use.
    pub fn len(&self) -> (r: usize)
        requires
            self.wf(),
        ensures
            r == self.layout().len(),
    {
        self.len
    }

    /// All `N` slots: the borders in use, then empty borders.
    pub fn borders(&self) -> (r: &[PhysMemoryBorder])
        requires
            self.wf(),
        ensures
            r@.len() == N,
            r@.subrange(0, self.layout().len() as int) == self.layout(),
            forall|j: int| self.layout().len() <= j < N ==> r@[j] == empty_border(),
    {
        self.borders.as_slice()
    }

    /// Whether the borders in use strictly increase in address.
    pub fn is_sorted(&self) -> (r: bool)
        requires
            self.wf(),
        ensures
            r == sorted(self.layout()),
    {
        let n = self.len;
        let ghost s = self.layout();
        if n == 0 {
            return true;
        }
        let mut i: usize = 1;
        while i < n
            invariant
                1 <= i <= n,
                n == self.len,
                s == self.layout(),
                self.wf(),
                forall|a: int, b: int| 0 <= a < b < i ==> s[a].address < s[b].address,
            decreases n - i,
        {
            assert(self.borders[i as int - 1] == s[i - 1]);
            assert(self.borders@[i as int] == s[i as int]);
            if self.borders[i - 1].address >= self.borders[i].address {
                return false;
            }
            i = i + 1;
        }
        true
    }

    /// Lay the region described by `region` over the map: inside `[start, end)` the kind of
    /// higher precedence wins. The map may be any list of borders in address order; the
    /// result is written in its normal form, where neighbouring borders differ in kind.
    ///
    /// A region whose start is not below its end is refused; a region of kind `Empty`
    /// changes nothing. A map whose borders are out of address order (only `insert_raw`
    /// makes one) is refused with `EntrySizeIsNegative` and left as it is. Where the new layout needs more than `N` borders the map is left
    /// as it was and `ArrayTooSmall` is returned; two free slots are always enough.
    pub fn add_region<R: MemoryDesc>(&mut self, region: R) -> (r: Result<(), MemoryError>)
        requires
            old(self).wf(),
        ensures
            final(self).wf(),
            sorted(old(self).layout()) ==> sorted(final(self).layout()),
            final(self).layout().len() <= N,
            canonical(old(self).layout()) ==> canonical(final(self).layout()),
            region.desc_start() >= region.desc_end() ==> r == Err::<(), MemoryError>(MemoryError::InvalidSize)
                && final(self).layout() == old(self).layout(),
            region.desc_start() < region.desc_end() && region.desc_kind() == PhysMemoryKind::Empty
                ==> r == Ok::<(), MemoryError>(()) && final(self).layout() == old(self).layout(),
            region.desc_start() < region.desc_end() && region.desc_kind() != PhysMemoryKind::Empty
                && !sorted(old(self).layout()) ==> r == Err::<(), MemoryError>(
                MemoryError::EntrySizeIsNegative,
            ) && final(self).layout() == old(self).layout(),
            region.desc_start() < region.desc_end() && region.desc_kind() != PhysMemoryKind::Empty
                && sorted(old(self).layout()) && old(self).layout().len() + 2 <= N ==> r is Ok,
            region.desc_start() < region.desc_end() && region.desc_kind() != PhysMemoryKind::Empty
                && sorted(old(self).layout()) ==> match r {
                Ok(()) => well_ordered(final(self).layout()) && forall|a: int|
                    kind_at(final(self).layout(), a) == region_kind_at(
                        old(self).layout(),
                        region.desc_kind(),
                        region.desc_start() as int,
                        region.desc_end() as int,
                        a,
                    ),
                Err(e) => e == MemoryError::ArrayTooSmall
                    && final(self).layout() == old(self).layout()
                    && forall|t: Seq<PhysMemoryBorder>|
                    well_ordered(t) && (forall|a: int|
                        kind_at(t, a) == region_kind_at(
                            old(self).layout(),
                            region.desc_kind(),
                            region.desc_start() as int,
                            region.desc_end() as int,
                            a,
                        )) ==> t.len() > N,
            },
    {
        let kind = region.memory_kind();
        let start = region.memory_start();
        let end = region.memory_end();

        if start >= end {
            return Err(MemoryError::InvalidSize);
        }
        if kind == PhysMemoryKind::Empty {
            return Ok(());
        }
        if !self.is_sorted() {
            return Err(MemoryError::EntrySizeIsNegative);
        }

        let ghost s = self.layout();
        let ghost st = start as int;
        let ghost en = end as int;
        let n = self.len;
        let mut out: Vec<PhysMemoryBorder> = Vec::new();
        let mut i: usize = 0;
        let mut cur = PhysMemoryKind::Empty;
        let ghost mut x: int = -1;

        proof {
            assert forall|a: int| a < x implies kind_at(out@, a) == region_kind_at(s, kind, st, en, a) by {
                lemma_index_of(s, a, 0);
            }
            lemma_index_of(s, x, 0);
        }

        // borders below the region
        while i < n && self.borders[i].address < start
            invariant
                self.wf(),
                n == self.len,
                s == self.layout(),
                sorted(s),
                0 <= i <= n,
                st == start,
                en == end,
                st < en,
                built_upto(out@, s, kind, st, en, x),
                i == 0 || s[i - 1].address <= x,
                i == n || s[i as int].address > x,
                x < st,
                cur == kind_at(s, x),
                out@.len() <= i,
            decreases n - i,
        {
            let b = self.borders[i];
            assert(b == s[i as int]);
            proof {
                lemma_constant(s, kind, st, en, x, b.address as int, i as int);
                lemma_step(out@, s, kind, st, en, x, b.address);
                if i + 1 < n {
                    assert(s[i as int].address < s[i + 1].address);
                }
                lemma_index_of(s, b.address as int, i + 1);
            }
            push_merged(&mut out, PhysMemoryBorder { kind: b.kind, address: b.address });
            cur = b.kind;
            i = i + 1;
            proof {
                x = b.address as int;
            }
        }

        // the start of the region
        proof {
            lemma_constant(s, kind, st, en, x, st, i as int);
            lemma_step(out@, s, kind, st, en, x, start);
            lemma_index_of(s, x, i as int);
        }
        if i < n && self.borders[i].address == start {
            cur = self.borders[i].kind;
            i = i + 1;
        }
        proof {
            if i < n {
                if i > 0 {
                    assert(s[i - 1].address < s[i as int].address);
                }
            }
            lemma_index_of(s, st, i as int);
        }
        push_merged(&mut out, PhysMemoryBorder { kind: cur.higher(kind), address: start });
        proof {
            x = st;
        }

        // borders inside the region
        while i < n && self.borders[i].address < end
            invariant
                self.wf(),
                n == self.len,
                s == self.layout(),
                sorted(s),
                0 <= i <= n,
                st == start,
                en == end,
                st < en,
                built_upto(out@, s, kind, st, en, x),
                i == 0 || s[i - 1].address <= x,
                i == n || s[i as int].address > x,
                st <= x < en,
                cur == kind_at(s, x),
                out@.len() <= i + 1,
            decreases n - i,
        {
            let b = self.borders[i];
            assert(b == s[i as int]);
            proof {
                lemma_constant(s, kind, st, en, x, b.address as int, i as int);
                lemma_step(out@, s, kind, st, en, x, b.address);
                if i + 1 < n {
                    assert(s[i as int].address < s[i + 1].address);
                }
                lemma_index_of(s, b.address as int, i + 1);
            }
            push_merged(&mut out, PhysMemoryBorder { kind: b.kind.higher(kind), address: b.address });
            cur = b.kind;
            i = i + 1;
            proof {
                x = b.address as int;
            }
        }

        // the end of the region
        proof {
            lemma_constant(s, kind, st, en, x, en, i as int);
            lemma_step(out@, s, kind, st, en, x, end);
            lemma_index_of(s, x, i as int);
        }
        if i < n && self.borders[i].address == end {
            cur = self.borders[i].kind;
            i = i + 1;
        }
        proof {
            if i < n {
                if i > 0 {
                    assert(s[i - 1].address < s[i as int].address);
                }
            }
            lemma_index_of(s, en, i as int);
        }
        push_merged(&mut out, PhysMemoryBorder { kind: cur, address: end });
        proof {
            x = en;
        }

        // borders above the region
        while i < n
            invariant
                self.wf(),
                n == self.len,
                s == self.layout(),
                sorted(s),
                0 <= i <= n,
                st == start,
                en == end,
                st < en,
                built_upto(out@, s, kind, st, en, x),
                i == 0 || s[i - 1].address <= x,
                i == n || s[i as int].address > x,
                en <= x,
                cur == kind_at(s, x),
                out@.len() <= i + 2,
            decreases n - i,
        {
            let b = self.borders[i];
            assert(b == s[i as int]);
            proof {
                lemma_constant(s, kind, st, en, x, b.address as int, i as int);
                lemma_step(out@, s, kind, st, en, x, b.address);
                if i + 1 < n {
                    assert(s[i as int].address < s[i + 1].address);
                }
                lemma_index_of(s, b.address as int, i + 1);
            }
            push_merged(&mut out, PhysMemoryBorder { kind: b.kind, address: b.address });
            cur = b.kind;
            i = i + 1;
            proof {
                x = b.address as int;
            }
        }

        proof {
            // beyond the last point nothing changes any more
            assert forall|a: int| kind_at(out@, a) == region_kind_at(s, kind, st, en, a) by {
                if a >= x {
                    lemma_kind_at_above(out@, a);
                    lemma_index_of(s, a, n as int);
                    lemma_index_of(s, x, n as int);
                }
            }
            lemma_index_of(s, x, n as int);
            if n > 0 {
                assert(s.last() == s[n - 1]);
            }
        }

        if out.len() > N {
            proof {
                assert forall|t: Seq<PhysMemoryBorder>|
                    well_ordered(t) && (forall|a: int|
                        kind_at(t, a) == region_kind_at(s, kind, st, en, a)) implies t.len()
                    > N by {
                    lemma_well_ordered_unique(t, out@);
                }
            }
            return Err(MemoryError::ArrayTooSmall);
        }

        let mut borders: Vec<PhysMemoryBorder> = Vec::new();
        let mut j: usize = 0;
        while j < N
            invariant
                j <= N,
                out@.len() <= N,
                borders@.len() == j,
                forall|k: int| 0 <= k < j && k < out@.len() ==> borders@[k] == out@[k],
                forall|k: int| out@.len() <= k < j ==> borders@[k] == empty_border(),
            decreases N - j,
        {
            if j < out.len() {
                borders.push(out[j]);
            } else {
                borders.push(PhysMemoryBorder { kind: PhysMemoryKind::Empty, address: 0 });
            }
            j = j + 1;
        }
        *self = Self { borders, len: out.len() };
        assert(self.layout() =~= out@);
        Ok(())
    }

    /// Insert `border` at position `index` of the borders in use.
    pub fn insert_raw(&mut self, index: usize, border: PhysMemoryBorder) -> (r: Result<
        (),
        MemoryError,
    >)
        requires
            old(self).wf(),
        ensures
            final(self).wf(),
            old(self).layout().len() == N ==> r == Err::<(), MemoryError>(
                MemoryError::ArrayTooSmall,
            ) && final(self).layout() == old(self).layout(),
            old(self).layout().len() < N && index > old(self).layout().len() ==> r == Err::<
                (),
                MemoryError,
            >(MemoryError::InvalidSize) && final(self).layout() == old(self).layout(),
            old(self).layout().len() < N && index <= old(self).layout().len() ==> r == Ok::<
                (),
                MemoryError,
            >(()) && final(self).layout() == old(self).layout().insert(index as int, border),
    {
        if self.len == self.borders.len() {
            return Err(MemoryError::ArrayTooSmall);
        }
        if index > self.len {
            return Err(MemoryError::InvalidSize);
        }
        let ghost before = self.borders@;
        self.borders.insert(index, border);
        let _ = self.borders.pop();
        self.len = self.len + 1;
        assert(self.layout() =~= before.subrange(0, self.len - 1).insert(index as int, border));
        assert forall|j: int| self.len <= j < N implies self.borders@[j] == empty_border() by {
            assert(self.borders@[j] == before[j - 1]);
        }
        Ok(())
    }

    /// Remove the border at position `index` of the borders in use.
    pub fn remove_raw(&mut self, index: usize) -> (r: Result<(), MemoryError>)
        requires
            old(self).wf(),
        ensures
            final(self).wf(),
            index >= old(self).layout().len() ==> r == Err::<(), MemoryError>(
                MemoryError::InvalidSize,
            ) && final(self).layout() == old(self).layout(),
            index < old(self).layout().len() ==> r == Ok::<(), MemoryError>(())
                && final(self).layout() == old(self).layout().remove(index as int),
    {
        if index >= self.len {
            return Err(MemoryError::InvalidSize);
        }
        let ghost before = self.borders@;
        let _ = self.borders.remove(index);
        self.borders.push(PhysMemoryBorder { kind: PhysMemoryKind::Empty, address: 0 });
        self.len = self.len - 1;
        assert(self.layout() =~= before.subrange(0, self.len + 1).remove(index as int));
        assert forall|j: int| self.len <= j < N implies self.borders@[j] == empty_border() by {
            if j < N - 1 {
                assert(self.borders@[j] == before[j + 1]);
            }
        }
        Ok(())
    }
}

} // verus!
