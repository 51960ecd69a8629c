use vstd::prelude::*;

use crate::util::is_pow2;

verus! {

/// Bytes of the header kept in front of each block of the region.
pub const NODE_HEADER: usize = 40;

/// Alignment of the headers.
pub const NODE_ALIGN: usize = 8;

/// How an allocation was asked for: its size and alignment in bytes.
#[derive(Clone, Copy, Debug, PartialEq, Eq, Structural)]
pub struct AllocLayout {
    pub size: usize,
    pub align: usize,
}

/// Whether a block is free, or in use for an allocation of the given layout.
#[derive(Clone, Copy, Debug, PartialEq, Eq, Structural)]
pub enum BuddyState {
    Free,
    Used { layout: AllocLayout },
}

/// A block of the region: where its header lies, its state, and the bytes after the header.
#[derive(Clone, Copy, Debug, PartialEq, Eq, Structural)]
pub struct BuddyNode {
    pub addr: usize,
    pub state: BuddyState,
    pub size: usize,
}

/// The bytes to add to `addr` to reach a multiple of `align`.
pub open spec fn align_cost(addr: int, align: int) -> int {
    if addr % align == 0 {
        0
    } else {
        align - addr % align
    }
}

/// The first byte after the header of a block.
pub open spec fn payload(n: BuddyNode) -> int {
    n.addr + NODE_HEADER
}

/// The first byte after a block.
pub open spec fn node_end(n: BuddyNode) -> int {
    n.addr + NODE_HEADER + n.size
}

/// A block can take an allocation of `l`: it is free, and after the padding that aligns the
/// allocation there is room for it.
pub open spec fn fits(n: BuddyNode, l: AllocLayout) -> bool {
    &&& n.state is Free
    &&& n.size >= align_cost(payload(n), l.align as int) + l.size
}

/// The blocks follow one another from `start` to `end`, each header aligned and each block
/// holding at least one byte.
pub open spec fn tiles(ns: Seq<BuddyNode>, start: int, end: int) -> bool {
    &&& ns.len() > 0
    &&& ns[0].addr == start
    &&& forall|i: int, j: int|
        #![trigger ns[i], ns[j]]
        0 <= i && j == i + 1 && j < ns.len() ==> node_end(ns[i]) == ns[j].addr
    &&& node_end(ns.last()) == end
    &&& forall|k: int| 0 <= k < ns.len() ==> (#[trigger] ns[k]).size > 0 && ns[k].addr % 8 == 0
}

/// No two neighbouring blocks are both free.
pub open spec fn no_free_pairs(ns: Seq<BuddyNode>) -> bool {
    forall|i: int, j: int|
        #![trigger ns[i], ns[j]]
        0 <= i && j == i + 1 && j < ns.len() ==> !(ns[i].state is Free && ns[j].state is Free)
}

/// The first block at or after `i` that can take `l`, or the number of blocks where none can.
pub open spec fn first_fit_from(ns: Seq<BuddyNode>, l: AllocLayout, i: int) -> int
    decreases ns.len() - i,
{
    if i < 0 || i >= ns.len() {
        ns.len() as int
    } else if fits(ns[i], l) {
        i
    } else {
        first_fit_from(ns, l, i + 1)
    }
}

/// The bytes an allocation of `l` takes in block `n`: the padding that aligns it, then
/// the allocation.
pub open spec fn type_size(n: BuddyNode, l: AllocLayout) -> int {
    align_cost(payload(n), l.align as int) + l.size
}

/// The blocks after block `k` took `ts` bytes, becoming `st`: where enough room is left
/// after them for an aligned header and more, the rest becomes a new free block.
pub open spec fn split_nodes(ns: Seq<BuddyNode>, k: int, ts: int, st: BuddyState) -> Seq<BuddyNode> {
    let n = ns[k];
    let rest = n.size - ts;
    let nc = align_cost(payload(n) + ts, NODE_ALIGN as int);
    if rest > nc + 2 * NODE_HEADER {
        let a2 = payload(n) + ts + nc;
        ns.update(k, BuddyNode { addr: n.addr, state: st, size: (a2 - payload(n)) as usize }).insert(
            k + 1,
            BuddyNode {
                addr: a2 as usize,
                state: BuddyState::Free,
                size: (node_end(n) - a2 - NODE_HEADER) as usize,
            },
        )
    } else {
        ns.update(k, BuddyNode { state: st, ..n })
    }
}

/// The blocks after block `k` took an allocation of `l`: it is marked in use for `l`.
pub open spec fn alloc_nodes(ns: Seq<BuddyNode>, k: int, l: AllocLayout) -> Seq<BuddyNode> {
    split_nodes(ns, k, type_size(ns[k], l), BuddyState::Used { layout: l })
}

/// The first block whose bytes after the header hold `ptr`, or the number of blocks.
pub open spec fn holder_from(ns: Seq<BuddyNode>, ptr: int, i: int) -> int
    decreases ns.len() - i,
{
    if i < 0 || i >= ns.len() {
        ns.len() as int
    } else if payload(ns[i]) <= ptr < node_end(ns[i]) {
        i
    } else {
        holder_from(ns, ptr, i + 1)
    }
}

/// The blocks after block `k` was freed: it is marked free and joined with a free
/// neighbour on the left, then with a free neighbour on the right.
pub open spec fn freed_nodes(ns: Seq<BuddyNode>, k: int) -> Seq<BuddyNode> {
    let f = ns.update(k, BuddyNode { state: BuddyState::Free, ..ns[k] });
    let left = k > 0 && f[k - 1].state is Free;
    let g = if left {
        merged(f, k - 1)
    } else {
        f
    };
    let j = if left {
        k - 1
    } else {
        k
    };
    if j + 1 < g.len() && g[j + 1].state is Free {
        merged(g, j)
    } else {
        g
    }
}

/// The allocator of a region of bytes `[region_start, region_end)`: the blocks it has cut
/// the region into, in address order, made when first needed.
#[derive(Debug)]
pub struct BuddyAllocator {
    nodes: Vec<BuddyNode>,
    region_start: usize,
    region_end: usize,
}

impl BuddyAllocator {
    /// Where the first header lies: the start of the region, aligned for headers.
    pub open spec fn first_addr(start: int) -> int {
        start + align_cost(start, NODE_ALIGN as int)
    }

    /// The single free block a region starts as.
    pub open spec fn fresh_head(start: int, end: int) -> BuddyNode {
        let a = Self::first_addr(start);
        BuddyNode { addr: a as usize, state: BuddyState::Free, size: (end - a - NODE_HEADER) as usize }
    }

    pub closed spec fn start(&self) -> int {
        self.region_start as int
    }

    pub closed spec fn end(&self) -> int {
        self.region_end as int
    }

    /// The blocks of the region: those made so far, or the single free block it starts as.
    pub closed spec fn blocks(&self) -> Seq<BuddyNode> {
        if self.nodes@.len() == 0 {
            seq![Self::fresh_head(self.region_start as int, self.region_end as int)]
        } else {
            self.nodes@
        }
    }

    /// The region can hold its first header and at least one byte after it, and the blocks
    /// cut it up in order with no two free neighbours.
    pub closed spec fn wf(&self) -> bool {
        &&& Self::first_addr(self.region_start as int) + NODE_HEADER < self.region_end
        &&& tiles(self.blocks(), Self::first_addr(self.region_start as int), self.region_end as int)
        &&& no_free_pairs(self.blocks())
    }

    /// An allocator for the `len` bytes from `ptr`.
    pub fn new(ptr: usize, len: usize) -> (r: Self)
        requires
            ptr + len <= usize::MAX,
        ensures
            r.start() == ptr,
            r.end() == ptr + len,
            r.blocks() == seq![Self::fresh_head(ptr as int, ptr + len)],
            Self::first_addr(ptr as int) + NODE_HEADER < ptr + len ==> r.wf(),
    {
        Self { nodes: Vec::new(), region_start: ptr, region_end: ptr + len }
    }

    /// Whether an allocator over the `len` bytes from `ptr` has room for its first header
    /// and at least one byte after it.
    pub fn is_usable(ptr: usize, len: usize) -> (r: bool)
        requires
            ptr + len <= usize::MAX,
        ensures
            r == (Self::first_addr(ptr as int) + NODE_HEADER < ptr + len),
    {
        let offset = if ptr % NODE_ALIGN == 0 {
            0
        } else {
            NODE_ALIGN - ptr % NODE_ALIGN
        };
        offset + NODE_HEADER < len
    }

    /// Whether an allocation of `layout` finds a block that can take it.
    pub fn has_fit(&mut self, layout: AllocLayout) -> (r: bool)
        requires
            old(self).wf(),
            is_pow2(layout.align as int),
        ensures
            final(self).wf(),
            final(self).blocks() == old(self).blocks(),
            final(self).start() == old(self).start(),
            final(self).end() == old(self).end(),
            r == (first_fit_from(old(self).blocks(), layout, 0) < old(self).blocks().len()),
    {
        self.head();
        let ghost ns = self.nodes@;
        let mut k: usize = 0;
        while k < self.nodes.len()
            invariant
                self.wf(),
                self.nodes@ == ns,
                ns == old(self).blocks(),
                self.start() == old(self).start(),
                self.end() == old(self).end(),
                ns.len() > 0,
                is_pow2(layout.align as int),
                0 <= k <= ns.len(),
                first_fit_from(ns, layout, 0) == first_fit_from(ns, layout, k as int),
            decreases ns.len() - k,
        {
            proof {
                lemma_block_in_region(ns, Self::first_addr(self.region_start as int), self.region_end as int, k as int);
            }
            if Self::block_fits(self.nodes[k], layout) {
                return true;
            }
            k = k + 1;
        }
        false
    }

    /// Whether `ptr` lies in a block that was allocated for `layout`.
    pub fn holds_allocation(&mut self, ptr: usize, layout: AllocLayout) -> (r: bool)
        requires
            old(self).wf(),
        ensures
            final(self).wf(),
            final(self).blocks() == old(self).blocks(),
            final(self).start() == old(self).start(),
            final(self).end() == old(self).end(),
            r == (holder_from(old(self).blocks(), ptr as int, 0) < old(self).blocks().len()
                && old(self).blocks()[holder_from(old(self).blocks(), ptr as int, 0)].state
                == (BuddyState::Used { layout })),
    {
        self.head();
        let ghost ns = self.nodes@;
        let mut k: usize = 0;
        while k < self.nodes.len()
            invariant
                self.wf(),
                self.nodes@ == ns,
                ns == old(self).blocks(),
                self.start() == old(self).start(),
                self.end() == old(self).end(),
                ns.len() > 0,
                0 <= k <= ns.len(),
                holder_from(ns, ptr as int, 0) == holder_from(ns, ptr as int, k as int),
            decreases ns.len() - k,
        {
            let node = self.nodes[k];
            proof {
                lemma_block_in_region(ns, Self::first_addr(self.region_start as int), self.region_end as int, k as int);
            }
            if node.addr + NODE_HEADER <= ptr && ptr < node.addr + NODE_HEADER + node.size {
                assert(holder_from(ns, ptr as int, k as int) == k);
                return match node.state {
                    BuddyState::Used { layout: held } => held == layout,
                    BuddyState::Free => false,
                };
            }
            k = k + 1;
        }
        false
    }

    /// Make the first block where none was made yet.
    fn head(&mut self)
        requires
            old(self).wf(),
        ensures
            final(self).wf(),
            final(self).nodes@.len() > 0,
            final(self).blocks() == old(self).blocks(),
            final(self).start() == old(self).start(),
            final(self).end() == old(self).end(),
    {
        if self.nodes.len() == 0 {
            let start = self.region_start;
            let offset = if start % NODE_ALIGN == 0 {
                0
            } else {
                NODE_ALIGN - start % NODE_ALIGN
            };
            let addr = start + offset;
            self.nodes.push(
                BuddyNode {
                    addr,
                    state: BuddyState::Free,
                    size: (self.region_end - addr) - NODE_HEADER,
                },
            );
            assert(self.nodes@ =~= old(self).blocks());
        }
    }

    /// Find the first block that can take an allocation of `layout`, give it to the
    /// allocation (cutting off the rest as a new free block where it is large enough), and
    /// return the aligned address of the allocation. An empty allocation gets the start of
    /// the region.
    pub fn alloc_block(&mut self, layout: AllocLayout) -> (r: usize)
        requires
            old(self).wf(),
            is_pow2(layout.align as int),
            layout.size > 0 ==> first_fit_from(old(self).blocks(), layout, 0) < old(
                self,
            ).blocks().len(),
        ensures
            final(self).wf(),
            final(self).start() == old(self).start(),
            final(self).end() == old(self).end(),
            layout.size == 0 ==> r == old(self).start() && final(self).blocks() == old(
                self,
            ).blocks(),
            layout.size > 0 ==> {
                let ns = old(self).blocks();
                let k = first_fit_from(ns, layout, 0);
                &&& r == payload(ns[k]) + align_cost(payload(ns[k]), layout.align as int)
                &&& final(self).blocks() == alloc_nodes(ns, k, layout)
            },
    {
        if layout.size == 0 {
            return self.region_start;
        }
        self.head();
        let ghost ns = self.nodes@;
        let mut k: usize = 0;
        while k < self.nodes.len()
            invariant
                self.wf(),
                self.nodes@ == ns,
                ns == old(self).blocks(),
                self.start() == old(self).start(),
                self.end() == old(self).end(),
                ns.len() > 0,
                is_pow2(layout.align as int),
                layout.size > 0,
                0 <= k <= ns.len(),
                first_fit_from(ns, layout, 0) == first_fit_from(ns, layout, k as int),
                first_fit_from(ns, layout, 0) < ns.len(),
            decreases ns.len() - k,
        {
            proof {
                lemma_block_in_region(ns, Self::first_addr(self.region_start as int), self.region_end as int, k as int);
            }
            if Self::block_fits(self.nodes[k], layout) {
                return self.take_block(k, layout);
            }
            k = k + 1;
        }
        proof {
            assert(false);
        }
        self.region_start
    }

    /// Block `n` can take an allocation of `layout`.
    fn block_fits(n: BuddyNode, layout: AllocLayout) -> (r: bool)
        requires
            is_pow2(layout.align as int),
            node_end(n) <= usize::MAX,
        ensures
            r == fits(n, layout),
    {
        proof {
            crate::util::lemma_pow2_positive(layout.align as int);
        }
        let post = n.addr + NODE_HEADER;
        let cost = if post % layout.align == 0 {
            0
        } else {
            layout.align - post % layout.align
        };
        matches!(n.state, BuddyState::Free) && n.size >= cost && n.size - cost >= layout.size
    }

    /// Give block `k`, which can take it, to an allocation of `layout`, and return the
    /// allocation's aligned address.
    fn take_block(&mut self, k: usize, layout: AllocLayout) -> (r: usize)
        requires
            old(self).wf(),
            old(self).nodes@.len() > 0,
            k < old(self).nodes@.len(),
            is_pow2(layout.align as int),
            layout.size > 0,
            fits(old(self).nodes@[k as int], layout),
        ensures
            final(self).wf(),
            final(self).start() == old(self).start(),
            final(self).end() == old(self).end(),
            final(self).nodes@.len() > 0,
            final(self).nodes@ == alloc_nodes(old(self).nodes@, k as int, layout),
            r == payload(old(self).nodes@[k as int]) + align_cost(
                payload(old(self).nodes@[k as int]),
                layout.align as int,
            ),
    {
        proof {
            crate::util::lemma_pow2_positive(layout.align as int);
        }
        let ghost ns = self.nodes@;
        let n_len = self.nodes.len();
        let node = self.nodes[k];
        proof {
            lemma_block_in_region(ns, Self::first_addr(self.region_start as int), self.region_end as int, k as int);
        }
        let post = node.addr + NODE_HEADER;
        let cost = if post % layout.align == 0 {
            0
        } else {
            layout.align - post % layout.align
        };
        let type_size = cost + layout.size;
        let rest = node.size - type_size;
        let after = post + type_size;
        let next_cost = if after % NODE_ALIGN == 0 {
            0
        } else {
            NODE_ALIGN - after % NODE_ALIGN
        };
        if rest > next_cost + 2 * NODE_HEADER {
            let a2 = after + next_cost;
            let end = post + node.size;
            self.nodes.set(
                k,
                BuddyNode { addr: node.addr, state: BuddyState::Used { layout }, size: a2 - post },
            );
            assert(k + 1 <= n_len);
            self.nodes.insert(
                k + 1,
                BuddyNode { addr: a2, state: BuddyState::Free, size: (end - a2) - NODE_HEADER },
            );
        } else {
            self.nodes.set(k, BuddyNode { state: BuddyState::Used { layout }, ..node });
        }
        proof {
            assert(self.nodes@ =~= alloc_nodes(ns, k as int, layout));
            lemma_split_keeps_wf(
                ns,
                k as int,
                type_size as int,
                BuddyState::Used { layout },
                Self::first_addr(self.region_start as int),
                self.region_end as int,
            );
        }
        post + cost
    }

    /// Free the allocation at `ptr`, made for `layout`: the block that holds it becomes
    /// free and is joined with a free neighbour on either side.
    pub fn dealloc_block(&mut self, ptr: usize, layout: AllocLayout)
        requires
            old(self).wf(),
            layout.size > 0,
            holder_from(old(self).blocks(), ptr as int, 0) < old(self).blocks().len(),
            old(self).blocks()[holder_from(old(self).blocks(), ptr as int, 0)].state
                == (BuddyState::Used { layout }),
        ensures
            final(self).wf(),
            final(self).start() == old(self).start(),
            final(self).end() == old(self).end(),
            final(self).blocks() == freed_nodes(
                old(self).blocks(),
                holder_from(old(self).blocks(), ptr as int, 0),
            ),
    {
        self.head();
        let ghost ns = self.nodes@;
        let mut k: usize = 0;
        while k < self.nodes.len()
            invariant
                self.wf(),
                self.nodes@ == ns,
                ns == old(self).blocks(),
                self.start() == old(self).start(),
                self.end() == old(self).end(),
                ns.len() > 0,
                0 <= k <= ns.len(),
                holder_from(ns, ptr as int, 0) == holder_from(ns, ptr as int, k as int),
                holder_from(ns, ptr as int, 0) < ns.len(),
                ns[holder_from(ns, ptr as int, 0)].state == (BuddyState::Used { layout }),
            decreases ns.len() - k,
        {
            let node = self.nodes[k];
            proof {
                lemma_block_in_region(ns, Self::first_addr(self.region_start as int), self.region_end as int, k as int);
            }
            if node.addr + NODE_HEADER <= ptr && ptr < node.addr + NODE_HEADER + node.size {
                assert(holder_from(ns, ptr as int, k as int) == k);
                self.free_at(k);
                return;
            }
            k = k + 1;
        }
        proof {
            assert(false);
        }
    }

    /// Mark block `k` free and join it with its free neighbours.
    fn free_at(&mut self, k: usize)
        requires
            old(self).wf(),
            old(self).nodes@.len() > 0,
            k < old(self).nodes@.len(),
            !(old(self).nodes@[k as int].state is Free),
        ensures
            final(self).wf(),
            final(self).start() == old(self).start(),
            final(self).end() == old(self).end(),
            final(self).nodes@ == freed_nodes(old(self).nodes@, k as int),
    {
        let ghost ns = self.nodes@;
        proof {
            lemma_free_keeps_wf(ns, k as int, Self::first_addr(self.region_start as int), self.region_end as int);
        }
        let n_len = self.nodes.len();
        let node = self.nodes[k];
        self.nodes.set(k, BuddyNode { state: BuddyState::Free, ..node });
        let mut j = k;
        if k > 0 && matches!(self.nodes[k - 1].state, BuddyState::Free) {
            let prev = self.nodes[k - 1];
            proof {
                lemma_block_in_region(ns, Self::first_addr(self.region_start as int), self.region_end as int, k as int);
            }
            self.nodes.set(k - 1, BuddyNode { size: prev.size + NODE_HEADER + node.size, ..prev });
            self.nodes.remove(k);
            j = k - 1;
        }
        assert(j < n_len);
        if j + 1 < self.nodes.len() && matches!(self.nodes[j + 1].state, BuddyState::Free) {
            let cur = self.nodes[j];
            let next = self.nodes[j + 1];
            proof {
                let g = self.nodes@;
                assert(node_end(g[j as int]) == g[j + 1].addr);
                lemma_block_in_region(
                    freed_nodes(ns, k as int),
                    Self::first_addr(self.region_start as int),
                    self.region_end as int,
                    j as int,
                );
                lemma_block_in_region(g, Self::first_addr(self.region_start as int), self.region_end as int, j + 1);
            }
            self.nodes.set(j, BuddyNode { size: cur.size + NODE_HEADER + next.size, ..cur });
            self.nodes.remove(j + 1);
        }
        proof {
            assert(self.nodes@ =~= freed_nodes(ns, k as int));
        }
    }
}

/// A block lies inside the region.
proof fn lemma_block_in_region(ns: Seq<BuddyNode>, start: int, end: int, k: int)
    requires
        tiles(ns, start, end),
        0 <= k < ns.len(),
    ensures
        start <= ns[k].addr,
        node_end(ns[k]) <= end,
    decreases ns.len() - k,
{
    if k + 1 < ns.len() {
        lemma_block_in_region(ns, start, end, k + 1);
    }
    if k > 0 {
        lemma_block_start(ns, start, end, k);
    }
}

proof fn lemma_block_start(ns: Seq<BuddyNode>, start: int, end: int, k: int)
    requires
        tiles(ns, start, end),
        0 <= k < ns.len(),
    ensures
        start <= ns[k].addr,
    decreases k,
{
    if k > 0 {
        lemma_block_start(ns, start, end, k - 1);
    }
}

/// Blocks never overlap: each block ends at or before the start of every later one.
pub proof fn lemma_tiles_ordered(ns: Seq<BuddyNode>, start: int, end: int, j: int, k: int)
    requires
        tiles(ns, start, end),
        0 <= j < k < ns.len(),
    ensures
        node_end(ns[j]) <= ns[k].addr,
    decreases k - j,
{
    if j + 1 < k {
        lemma_tiles_ordered(ns, start, end, j + 1, k);
    }
}

/// Giving part of a free block away keeps the blocks cutting up the region, with no two
/// free neighbours.
proof fn lemma_split_keeps_wf(
    ns: Seq<BuddyNode>,
    k: int,
    ts: int,
    st: BuddyState,
    start: int,
    end: int,
)
    requires
        tiles(ns, start, end),
        no_free_pairs(ns),
        0 <= k < ns.len(),
        ns[k].state is Free,
        !(st is Free),
        0 < ts <= ns[k].size,
        end <= usize::MAX,
    ensures
        tiles(split_nodes(ns, k, ts, st), start, end),
        no_free_pairs(split_nodes(ns, k, ts, st)),
{
    let r = split_nodes(ns, k, ts, st);
    let n = ns[k];
    let nc = align_cost(payload(n) + ts, NODE_ALIGN as int);
    lemma_block_in_region(ns, start, end, k);
    if n.size - ts > nc + 2 * NODE_HEADER {
        let a2 = payload(n) + ts + nc;
        assert(a2 % 8 == 0);
        assert(r.len() == ns.len() + 1);
        assert forall|j: int, j1: int|
            #![trigger r[j], r[j1]]
            0 <= j && j1 == j + 1 && j1 < r.len() implies node_end(r[j]) == r[j1].addr by {
            if j < k {
                assert(r[j] == ns[j]);
                if j + 1 < k {
                    assert(r[j + 1] == ns[j + 1]);
                }
            } else if j == k {
            } else if j == k + 1 {
                assert(r[j + 1] == ns[k + 1]);
            } else {
                assert(r[j] == ns[j - 1]);
                assert(r[j + 1] == ns[j]);
            }
        }
        assert forall|j: int| 0 <= j < r.len() implies (#[trigger] r[j]).size > 0 && r[j].addr % 8
            == 0 by {
            if j < k {
                assert(r[j] == ns[j]);
            } else if j > k + 1 {
                assert(r[j] == ns[j - 1]);
            }
        }
        assert forall|j: int, j1: int|
            #![trigger r[j], r[j1]]
            0 <= j && j1 == j + 1 && j1 < r.len() implies !(r[j].state is Free && r[j1].state is Free) by {
            if j < k {
                assert(r[j] == ns[j]);
                if j + 1 < k {
                    assert(r[j + 1] == ns[j + 1]);
                }
            } else if j == k + 1 {
                assert(r[j + 1] == ns[k + 1]);
            } else if j > k + 1 {
                assert(r[j] == ns[j - 1]);
                assert(r[j + 1] == ns[j]);
            }
        }
        if k == ns.len() - 1 {
            assert(r.last() == r[k + 1]);
        } else {
            assert(r.last() == ns.last());
        }
    } else {
        assert forall|j: int, j1: int|
            #![trigger r[j], r[j1]]
            0 <= j && j1 == j + 1 && j1 < r.len() implies node_end(r[j]) == r[j1].addr && !(
            r[j].state is Free && r[j1].state is Free) by {
            if j != k {
                assert(r[j] == ns[j]);
            }
            if j + 1 != k {
                assert(r[j + 1] == ns[j + 1]);
            }
        }
    }
}

/// Two neighbouring blocks joined into one.
pub open spec fn merged(s: Seq<BuddyNode>, i: int) -> Seq<BuddyNode> {
    s.update(i, BuddyNode { size: (s[i].size + NODE_HEADER + s[i + 1].size) as usize, ..s[i] }).remove(
        i + 1,
    )
}

/// Joining two neighbouring blocks keeps the blocks cutting up the region.
proof fn lemma_merge_tiles(s: Seq<BuddyNode>, i: int, start: int, end: int)
    requires
        tiles(s, start, end),
        0 <= i < s.len() - 1,
        end <= usize::MAX,
    ensures
        tiles(merged(s, i), start, end),
        merged(s, i).len() == s.len() - 1,
        forall|x: int| 0 <= x < i ==> #[trigger] merged(s, i)[x] == s[x],
        forall|x: int| i < x < s.len() - 1 ==> #[trigger] merged(s, i)[x] == s[x + 1],
        merged(s, i)[i].addr == s[i].addr,
        merged(s, i)[i].state == s[i].state,
{
    let m = merged(s, i);
    lemma_block_in_region(s, start, end, i + 1);
    assert(node_end(s[i]) == s[i + 1].addr);
    assert forall|a: int, b: int|
        #![trigger m[a], m[b]]
        0 <= a && b == a + 1 && b < m.len() implies node_end(m[a]) == m[b].addr by {
        if a < i {
            assert(node_end(s[a]) == s[a + 1].addr);
        } else if a == i {
            assert(m[b] == s[i + 2]);
            assert(node_end(s[i + 1]) == s[i + 2].addr);
        } else {
            assert(m[a] == s[a + 1]);
            assert(m[b] == s[a + 2]);
            assert(node_end(s[a + 1]) == s[a + 2].addr);
        }
    }
    assert forall|a: int| 0 <= a < m.len() implies (#[trigger] m[a]).size > 0 && m[a].addr % 8 == 0 by {
        if a > i {
            assert(m[a] == s[a + 1]);
        }
    }
    if i + 1 == s.len() - 1 {
        assert(m.last() == m[i]);
    } else {
        assert(m.last() == s.last());
    }
}

/// Marking a block free keeps the blocks cutting up the region.
proof fn lemma_mark_free_tiles(ns: Seq<BuddyNode>, k: int, start: int, end: int)
    requires
        tiles(ns, start, end),
        0 <= k < ns.len(),
    ensures
        tiles(ns.update(k, BuddyNode { state: BuddyState::Free, ..ns[k] }), start, end),
{
    let f = ns.update(k, BuddyNode { state: BuddyState::Free, ..ns[k] });
    assert forall|i: int, i1: int|
        #![trigger f[i], f[i1]]
        0 <= i && i1 == i + 1 && i1 < f.len() implies node_end(f[i]) == f[i1].addr by {
        assert(node_end(ns[i]) == ns[i1].addr);
    }
    assert forall|i: int| 0 <= i < f.len() implies (#[trigger] f[i]).size > 0 && f[i].addr % 8 == 0 by {
        assert(ns[i].size > 0);
    }
}

/// Freeing a block in use keeps the blocks cutting up the region, with no two free
/// neighbours.
proof fn lemma_free_keeps_wf(ns: Seq<BuddyNode>, k: int, start: int, end: int)
    requires
        tiles(ns, start, end),
        no_free_pairs(ns),
        0 <= k < ns.len(),
        !(ns[k].state is Free),
        end <= usize::MAX,
    ensures
        tiles(freed_nodes(ns, k), start, end),
        no_free_pairs(freed_nodes(ns, k)),
        tiles(ns.update(k, BuddyNode { state: BuddyState::Free, ..ns[k] }), start, end),
{
    let f = ns.update(k, BuddyNode { state: BuddyState::Free, ..ns[k] });
    lemma_mark_free_tiles(ns, k, start, end);
    let left = k > 0 && f[k - 1].state is Free;
    let g = if left {
        merged(f, k - 1)
    } else {
        f
    };
    let j = if left {
        k - 1
    } else {
        k
    };
    if left {
        lemma_merge_tiles(f, k - 1, start, end);
    }
    assert(g.len() == ns.len() - (if left { 1int } else { 0int }));
    assert(g[j].state is Free);
    assert forall|x: int| 0 <= x < j ==> #[trigger] g[x] == ns[x] by {}
    assert forall|x: int| j < x < g.len() ==> #[trigger] g[x] == ns[x + (k - j)] by {}
    let r = freed_nodes(ns, k);
    if j + 1 < g.len() && g[j + 1].state is Free {
        lemma_merge_tiles(g, j, start, end);
        assert(r == merged(g, j));
    } else {
        assert(r == g);
    }
    assert forall|a: int, b: int|
        #![trigger r[a], r[b]]
        0 <= a && b == a + 1 && b < r.len() implies !(r[a].state is Free && r[b].state is Free) by {
        if b < j {
            assert(r[a] == ns[a] && r[b] == ns[b]);
        } else if b == j {
            assert(r[a] == ns[a]);
            if left {
                assert(a == k - 2);
                assert(!(ns[k - 2].state is Free && ns[k - 1].state is Free));
            }
        } else if a == j {
            if j + 1 < g.len() && g[j + 1].state is Free {
                assert(r[b] == g[j + 2]);
                assert(g[j + 2] == ns[k + 2]);
                assert(g[j + 1] == ns[k + 1]);
                assert(!(ns[k + 1].state is Free && ns[k + 2].state is Free));
            } else {
                assert(r[b] == g[j + 1]);
            }
        } else {
            if j + 1 < g.len() && g[j + 1].state is Free {
                assert(r[a] == g[a + 1] && r[b] == g[b + 1]);
                assert(r[a] == ns[a + 1 + (k - j)] && r[b] == ns[b + 1 + (k - j)]);
            } else {
                assert(r[a] == ns[a + (k - j)] && r[b] == ns[b + (k - j)]);
            }
        }
    }
}

/// Freeing the block an allocation was just given to gives back the blocks as they were
/// before the allocation.
pub proof fn lemma_dealloc_undoes_alloc(ns: Seq<BuddyNode>, l: AllocLayout, start: int, end: int)
    requires
        tiles(ns, start, end),
        no_free_pairs(ns),
        end <= usize::MAX,
        l.size > 0,
        is_pow2(l.align as int),
        first_fit_from(ns, l, 0) < ns.len(),
    ensures
        ({
            let k = first_fit_from(ns, l, 0);
            let ret = payload(ns[k]) + align_cost(payload(ns[k]), l.align as int);
            let after = alloc_nodes(ns, k, l);
            &&& holder_from(after, ret, 0) == k
            &&& after[k].state == (BuddyState::Used { layout: l })
            &&& freed_nodes(after, k) == ns
        }),
{
    let k = first_fit_from(ns, l, 0);
    lemma_first_fit(ns, l, 0);
    let n = ns[k];
    let ret = payload(n) + align_cost(payload(n), l.align as int);
    let after = alloc_nodes(ns, k, l);
    crate::util::lemma_pow2_positive(l.align as int);
    lemma_split_keeps_wf(ns, k, type_size(n, l), BuddyState::Used { layout: l }, start, end);
    assert(payload(after[k]) <= ret < node_end(after[k]));
    lemma_holder_skips(after, ret, start, end, k);
    let f = after.update(k, BuddyNode { state: BuddyState::Free, ..after[k] });
    if k > 0 {
        assert(!(ns[k - 1].state is Free && ns[k].state is Free));
        assert(f[k - 1] == ns[k - 1]);
    }
    let ts = type_size(n, l);
    let nc = align_cost(payload(n) + ts, NODE_ALIGN as int);
    if n.size - ts > nc + 2 * NODE_HEADER {
        assert(freed_nodes(after, k) =~= ns);
    } else {
        if k + 1 < ns.len() {
            assert(!(ns[k].state is Free && ns[k + 1].state is Free));
        }
        assert(freed_nodes(after, k) =~= ns);
    }
}

/// An allocation is placed at an address that is a multiple of its alignment, inside the
/// block that now is in use for it.
pub proof fn lemma_alloc_placement(ns: Seq<BuddyNode>, l: AllocLayout, start: int, end: int)
    requires
        tiles(ns, start, end),
        no_free_pairs(ns),
        end <= usize::MAX,
        l.size > 0,
        is_pow2(l.align as int),
        first_fit_from(ns, l, 0) < ns.len(),
    ensures
        ({
            let k = first_fit_from(ns, l, 0);
            let ret = payload(ns[k]) + align_cost(payload(ns[k]), l.align as int);
            let after = alloc_nodes(ns, k, l);
            &&& ret % (l.align as int) == 0
            &&& payload(after[k]) <= ret
            &&& ret + l.size <= node_end(after[k])
            &&& after[k].state == (BuddyState::Used { layout: l })
        }),
{
    let k = first_fit_from(ns, l, 0);
    lemma_first_fit(ns, l, 0);
    crate::util::lemma_pow2_positive(l.align as int);
    let a = l.align as int;
    let p = payload(ns[k]);
    vstd::arithmetic::div_mod::lemma_fundamental_div_mod(p, a);
    if p % a != 0 {
        let q = p / a + 1;
        assert(p + (a - p % a) == q * a) by (nonlinear_arith)
            requires
                p == a * (p / a) + p % a,
                q == p / a + 1,
        ;
        vstd::arithmetic::div_mod::lemma_fundamental_div_mod_converse(q * a, a, q, 0);
    }
}

/// The first block that can take an allocation does, and none before it can.
proof fn lemma_first_fit(ns: Seq<BuddyNode>, l: AllocLayout, i: int)
    requires
        0 <= i,
        first_fit_from(ns, l, i) < ns.len(),
    ensures
        i <= first_fit_from(ns, l, i),
        fits(ns[first_fit_from(ns, l, i)], l),
        forall|j: int| i <= j < first_fit_from(ns, l, i) ==> !fits(#[trigger] ns[j], l),
    decreases ns.len() - i,
{
    if i < ns.len() && !fits(ns[i], l) {
        lemma_first_fit(ns, l, i + 1);
    }
}

/// A pointer inside block `k` is found in block `k`: no block before it holds it.
proof fn lemma_holder_skips(ns: Seq<BuddyNode>, ptr: int, start: int, end: int, k: int)
    requires
        tiles(ns, start, end),
        0 <= k < ns.len(),
        payload(ns[k]) <= ptr < node_end(ns[k]),
    ensures
        holder_from(ns, ptr, 0) == k,
{
    assert forall|j: int| 0 <= j < k implies !(payload(#[trigger] ns[j]) <= ptr < node_end(ns[j])) by {
        lemma_tiles_ordered(ns, start, end, j, k);
    }
    lemma_holder_from(ns, ptr, 0, k);
}

proof fn lemma_holder_from(ns: Seq<BuddyNode>, ptr: int, i: int, k: int)
    requires
        0 <= i <= k < ns.len(),
        payload(ns[k]) <= ptr < node_end(ns[k]),
        forall|j: int| i <= j < k ==> !(payload(#[trigger] ns[j]) <= ptr < node_end(ns[j])),
    ensures
        holder_from(ns, ptr, i) == k,
    decreases k - i,
{
    if i < k {
        lemma_holder_from(ns, ptr, i + 1, k);
    }
}

} // verus!
