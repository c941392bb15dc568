//! User address spaces: virtual addresses, page permissions and the pages of a task.
use vstd::prelude::*;
use std::collections::HashMap;
use crate::config::PAGE_SIZE;

verus! {

broadcast use vstd::std_specs::hash::group_hash_axioms;

/// Number of bytes of the SV39 virtual address space (`1 << 39`).
pub const VA_LIMIT: u64 = 0x80_0000_0000;

/// Number of pages of the SV39 virtual address space (`1 << 27`): page numbers are below it.
pub const VPN_LIMIT: usize = 0x800_0000;

/// The page number that an address lies in.
pub open spec fn floor_page(addr: int) -> int {
    addr / (PAGE_SIZE as int)
}

/// The number of the first page at or above an address.
pub open spec fn ceil_page(addr: int) -> int {
    (addr + PAGE_SIZE - 1) / (PAGE_SIZE as int)
}

/// The address that the SV39 hardware sees for `v`: its low 39 bits.
pub open spec fn sv39(v: int) -> int {
    v % (VA_LIMIT as int)
}

/// A virtual address of the SV39 address space.
#[derive(Clone, Copy, Debug)]
pub struct VirtAddr(pub usize);

impl VirtAddr {
    /// Keeps the low 39 bits of `v`, as the hardware does.
    pub fn from_usize(v: usize) -> (r: VirtAddr)
        ensures
            r.0 == sv39(v as int),
    {
        let low: u64 = (v as u64) % VA_LIMIT;
        VirtAddr(low as usize)
    }

    /// The page that holds this address.
    pub fn floor(&self) -> (r: usize)
        ensures
            r == floor_page(self.0 as int),
    {
        self.0 / PAGE_SIZE
    }

    /// The first page at or above this address.
    pub fn ceil(&self) -> (r: usize)
        ensures
            r == ceil_page(self.0 as int),
    {
        if self.0 == 0 {
            0
        } else {
            (self.0 - 1) / PAGE_SIZE + 1
        }
    }

    /// The offset of this address in its page.
    pub fn page_offset(&self) -> (r: usize)
        ensures
            r == self.0 % PAGE_SIZE,
    {
        self.0 % PAGE_SIZE
    }

    /// Whether this address starts a page.
    pub fn aligned(&self) -> (r: bool)
        ensures
            r == (self.0 % PAGE_SIZE == 0),
    {
        self.page_offset() == 0
    }
}

/// Access rights of a user mapping, as `mmap` and `sbrk` ask for them.
#[derive(Clone, Copy, Debug)]
pub struct MapPermission {
    pub readable: bool,
    pub writable: bool,
    pub executable: bool,
    pub user: bool,
}

impl MapPermission {
    /// Only the user bit.
    pub fn user_only() -> (r: MapPermission)
        ensures
            r == (MapPermission { readable: false, writable: false, executable: false, user: true }),
    {
        MapPermission { readable: false, writable: false, executable: false, user: true }
    }
}

/// The flags of a page-table entry.
#[derive(Clone, Copy, Debug)]
pub struct PTEFlags {
    pub valid: bool,
    pub readable: bool,
    pub writable: bool,
    pub executable: bool,
    pub user: bool,
}

/// The flags that a page mapped with permission `perm` gets.
pub open spec fn flags_of(perm: MapPermission) -> PTEFlags {
    PTEFlags {
        valid: true,
        readable: perm.readable,
        writable: perm.writable,
        executable: perm.executable,
        user: perm.user,
    }
}

impl PTEFlags {
    /// The entry flags for a mapping with the given permission.
    pub fn from_permission(perm: MapPermission) -> (r: PTEFlags)
        ensures
            r == flags_of(perm),
    {
        PTEFlags {
            valid: true,
            readable: perm.readable,
            writable: perm.writable,
            executable: perm.executable,
            user: perm.user,
        }
    }
}

/// A mapped page: its entry flags and the bytes of its frame.
pub struct PageFrame {
    pub flags: PTEFlags,
    pub data: Vec<u8>,
}

/// What a mapped page holds: its flags and its bytes.
pub type PageView = (PTEFlags, Seq<u8>);

/// A fresh frame: all bytes zero.
pub open spec fn zero_page() -> Seq<u8> {
    Seq::new(PAGE_SIZE as nat, |i: int| 0u8)
}

/// The pages `lo <= vpn < hi` are all unmapped in `m`.
pub open spec fn range_free(m: Map<usize, PageView>, lo: int, hi: int) -> bool {
    forall|vpn: usize| lo <= vpn < hi ==> !#[trigger] m.contains_key(vpn)
}

/// The pages `lo <= vpn < hi` are all mapped in `m`.
pub open spec fn range_full(m: Map<usize, PageView>, lo: int, hi: int) -> bool {
    forall|vpn: usize| lo <= vpn < hi ==> #[trigger] m.contains_key(vpn)
}

/// `m` with the pages `lo <= vpn < hi` mapped to fresh zeroed frames with `flags`.
pub open spec fn with_range(m: Map<usize, PageView>, lo: int, hi: int, flags: PTEFlags) -> Map<
    usize,
    PageView,
> {
    Map::new(
        |vpn: usize| m.contains_key(vpn) || lo <= vpn < hi,
        |vpn: usize|
            if lo <= vpn < hi {
                (flags, zero_page())
            } else {
                m[vpn]
            },
    )
}

/// `m` with the pages `lo <= vpn < hi` unmapped.
pub open spec fn without_range(m: Map<usize, PageView>, lo: int, hi: int) -> Map<usize, PageView> {
    Map::new(|vpn: usize| m.contains_key(vpn) && !(lo <= vpn < hi), |vpn: usize| m[vpn])
}

/// The byte at user address `addr` in `m`, which must map that address's page.
pub open spec fn byte_at(m: Map<usize, PageView>, addr: int) -> u8 {
    m[floor_page(addr) as usize].1[addr % (PAGE_SIZE as int)]
}

/// `new` is `old` with `bytes` stored from address `va` on; nothing else changed.
pub open spec fn bytes_stored(
    old: Map<usize, PageView>,
    new: Map<usize, PageView>,
    va: int,
    bytes: Seq<u8>,
) -> bool {
    &&& new.dom() == old.dom()
    &&& forall|vpn: usize| #[trigger]
        new.contains_key(vpn) ==> new[vpn].0 == old[vpn].0 && new[vpn].1.len() == old[vpn].1.len()
    &&& forall|vpn: usize, off: int|
        #![trigger new[vpn].1[off]]
        new.contains_key(vpn) && 0 <= off < PAGE_SIZE ==> new[vpn].1[off] == {
            let addr = vpn * PAGE_SIZE + off;
            if va <= addr < va + bytes.len() {
                bytes[addr - va]
            } else {
                old[vpn].1[off]
            }
        }
}

/// The pages of one user address space.
pub struct MemorySet {
    pages: HashMap<usize, PageFrame>,
    token: usize,
}

impl MemorySet {
    /// Page number to flags and bytes.
    pub closed spec fn view(&self) -> Map<usize, PageView> {
        self.pages@.map_values(|p: PageFrame| (p.flags, p.data@))
    }

    /// The token (the `satp` value) that names this address space.
    pub closed spec fn spec_token(&self) -> usize {
        self.token
    }

    /// Every mapped page holds a whole frame.
    pub open spec fn wf(&self) -> bool {
        forall|vpn: usize| #[trigger]
            self@.contains_key(vpn) ==> vpn < VPN_LIMIT && self@[vpn].1.len() == PAGE_SIZE
    }

    /// An address space with no page, named by `token`.
    pub fn new_bare(token: usize) -> (r: MemorySet)
        ensures
            r.wf(),
            r@ == Map::<usize, PageView>::empty(),
            r.spec_token() == token,
    {
        let r = MemorySet { pages: HashMap::new(), token };
        assert(r@ =~= Map::<usize, PageView>::empty());
        r
    }

    /// The flags of the entry that maps page `vpn`, if any.
    pub fn translate(&self, vpn: usize) -> (r: Option<PTEFlags>)
        ensures
            r == (if self@.contains_key(vpn) {
                Some(self@[vpn].0)
            } else {
                None::<PTEFlags>
            }),
    {
        match self.pages.get(&vpn) {
            Some(p) => Some(p.flags),
            None => None,
        }
    }

    /// The byte at user address `addr`, whose page must be mapped.
    pub fn read_byte(&self, addr: usize) -> (r: u8)
        requires
            self.wf(),
            self@.contains_key(addr / PAGE_SIZE),
        ensures
            r == byte_at(self@, addr as int),
    {
        let vpn = addr / PAGE_SIZE;
        let page = self.pages.get(&vpn).unwrap();
        page.data[addr % PAGE_SIZE]
    }

    /// Stores `b` at user address `addr`, whose page must be mapped.
    pub fn write_byte(&mut self, addr: usize, b: u8)
        requires
            old(self).wf(),
            old(self)@.contains_key(addr / PAGE_SIZE),
        ensures
            final(self).wf(),
            final(self).spec_token() == old(self).spec_token(),
            final(self)@ == old(self)@.insert(
                (addr / PAGE_SIZE) as usize,
                (
                    old(self)@[addr / PAGE_SIZE].0,
                    old(self)@[addr / PAGE_SIZE].1.update((addr % PAGE_SIZE) as int, b),
                ),
            ),
    {
        let vpn = addr / PAGE_SIZE;
        let mut page = self.pages.remove(&vpn).unwrap();
        page.data.set(addr % PAGE_SIZE, b);
        self.pages.insert(vpn, page);
        assert(self@ =~= old(self)@.insert(
            vpn,
            (old(self)@[vpn].0, old(self)@[vpn].1.update((addr % PAGE_SIZE) as int, b)),
        ));
    }

    /// Maps page `vpn`, which must be unmapped, to a fresh zeroed frame with `flags`.
    pub fn map_page(&mut self, vpn: usize, flags: PTEFlags)
        requires
            old(self).wf(),
            vpn < VPN_LIMIT,
            !old(self)@.contains_key(vpn),
        ensures
            final(self).wf(),
            final(self).spec_token() == old(self).spec_token(),
            final(self)@ == old(self)@.insert(vpn, (flags, zero_page())),
    {
        let mut data: Vec<u8> = Vec::new();
        let mut i: usize = 0;
        while i < PAGE_SIZE
            invariant
                i <= PAGE_SIZE,
                data@ == Seq::new(i as nat, |j: int| 0u8),
            decreases PAGE_SIZE - i,
        {
            data.push(0u8);
            i = i + 1;
            assert(data@ =~= Seq::new(i as nat, |j: int| 0u8));
        }
        self.pages.insert(vpn, PageFrame { flags, data });
        assert(self@ =~= old(self)@.insert(vpn, (flags, zero_page())));
    }

    /// Unmaps page `vpn` if it is mapped.
    pub fn unmap_page(&mut self, vpn: usize)
        requires
            old(self).wf(),
        ensures
            final(self).wf(),
            final(self).spec_token() == old(self).spec_token(),
            final(self)@ == old(self)@.remove(vpn),
    {
        let _ = self.pages.remove(&vpn);
        assert(self@ =~= old(self)@.remove(vpn));
    }

    /// Whether no page `lo <= vpn < hi` is mapped.
    pub fn range_unmapped(&self, lo: usize, hi: usize) -> (r: bool)
        ensures
            r == range_free(self@, lo as int, hi as int),
    {
        let mut vpn = lo;
        while vpn < hi
            invariant
                lo <= vpn,
                lo <= hi ==> vpn <= hi,
                lo > hi ==> vpn == lo,
                range_free(self@, lo as int, vpn as int),
            decreases hi - vpn,
        {
            if self.pages.contains_key(&vpn) {
                assert(self@.contains_key(vpn));
                return false;
            }
            vpn = vpn + 1;
        }
        true
    }

    /// Whether every page `lo <= vpn < hi` is mapped.
    pub fn range_mapped(&self, lo: usize, hi: usize) -> (r: bool)
        ensures
            r == range_full(self@, lo as int, hi as int),
    {
        let mut vpn = lo;
        while vpn < hi
            invariant
                lo <= vpn,
                lo <= hi ==> vpn <= hi,
                lo > hi ==> vpn == lo,
                range_full(self@, lo as int, vpn as int),
            decreases hi - vpn,
        {
            if !self.pages.contains_key(&vpn) {
                assert(!self@.contains_key(vpn));
                return false;
            }
            vpn = vpn + 1;
        }
        true
    }

    /// Maps the pages `lo <= vpn < hi`, all unmapped, to fresh zeroed frames with `flags`.
    pub fn map_range(&mut self, lo: usize, hi: usize, flags: PTEFlags)
        requires
            old(self).wf(),
            lo < hi ==> hi <= VPN_LIMIT,
            range_free(old(self)@, lo as int, hi as int),
        ensures
            final(self).wf(),
            final(self).spec_token() == old(self).spec_token(),
            final(self)@ == with_range(old(self)@, lo as int, hi as int, flags),
    {
        let mut vpn = lo;
        assert(self@ =~= with_range(old(self)@, lo as int, lo as int, flags));
        while vpn < hi
            invariant
                lo <= vpn,
                lo <= hi ==> vpn <= hi,
                lo > hi ==> vpn == lo,
                lo < hi ==> hi <= VPN_LIMIT,
                self.wf(),
                self.spec_token() == old(self).spec_token(),
                range_free(old(self)@, lo as int, hi as int),
                self@ == with_range(old(self)@, lo as int, vpn as int, flags),
            decreases hi - vpn,
        {
            self.map_page(vpn, flags);
            assert(self@ =~= with_range(old(self)@, lo as int, vpn + 1, flags));
            vpn = vpn + 1;
        }
        assert(self@ =~= with_range(old(self)@, lo as int, hi as int, flags));
    }

    /// Unmaps the pages `lo <= vpn < hi` that are mapped.
    pub fn unmap_range(&mut self, lo: usize, hi: usize)
        requires
            old(self).wf(),
        ensures
            final(self).wf(),
            final(self).spec_token() == old(self).spec_token(),
            final(self)@ == without_range(old(self)@, lo as int, hi as int),
    {
        let mut vpn = lo;
        assert(self@ =~= without_range(old(self)@, lo as int, lo as int));
        while vpn < hi
            invariant
                lo <= vpn,
                lo <= hi ==> vpn <= hi,
                lo > hi ==> vpn == lo,
                self.wf(),
                self.spec_token() == old(self).spec_token(),
                self@ == without_range(old(self)@, lo as int, vpn as int),
            decreases hi - vpn,
        {
            self.unmap_page(vpn);
            assert(self@ =~= without_range(old(self)@, lo as int, vpn + 1));
            vpn = vpn + 1;
        }
        assert(self@ =~= without_range(old(self)@, lo as int, hi as int));
    }

    /// Maps the pages from `start_va` up to `end_va` with `perm`, unless one of them is
    /// already mapped or the range is reversed: then -1 and nothing changes.
    pub fn safe_insert_framed_area(
        &mut self,
        start_va: VirtAddr,
        end_va: VirtAddr,
        perm: MapPermission,
    ) -> (r: isize)
        requires
            old(self).wf(),
            ceil_page(end_va.0 as int) <= VPN_LIMIT,
        ensures
            final(self).wf(),
            final(self).spec_token() == old(self).spec_token(),
            ({
                let lo = floor_page(start_va.0 as int);
                let hi = ceil_page(end_va.0 as int);
                if lo <= hi && range_free(old(self)@, lo, hi) {
                    r == 0 && final(self)@ == with_range(old(self)@, lo, hi, flags_of(perm))
                } else {
                    r == -1 && *final(self) == *old(self)
                }
            }),
    {
        let lo = start_va.floor();
        let hi = end_va.ceil();
        if lo > hi {
            return -1;
        }
        if !self.range_unmapped(lo, hi) {
            return -1;
        }
        self.map_range(lo, hi, PTEFlags::from_permission(perm));
        0
    }

    /// Unmaps the pages from `start_va` up to `end_va`, unless one of them is not mapped:
    /// then -1 and nothing changes.
    pub fn remove_framed_area(&mut self, start_va: VirtAddr, end_va: VirtAddr) -> (r: isize)
        requires
            old(self).wf(),
        ensures
            final(self).wf(),
            final(self).spec_token() == old(self).spec_token(),
            ({
                let lo = floor_page(start_va.0 as int);
                let hi = ceil_page(end_va.0 as int);
                if range_full(old(self)@, lo, hi) {
                    r == 0 && final(self)@ == without_range(old(self)@, lo, hi)
                } else {
                    r == -1 && *final(self) == *old(self)
                }
            }),
    {
        let lo = start_va.floor();
        let hi = end_va.ceil();
        if !self.range_mapped(lo, hi) {
            return -1;
        }
        self.unmap_range(lo, hi);
        0
    }

    /// The token that names this address space.
    pub fn token(&self) -> (r: usize)
        ensures
            r == self.spec_token(),
    {
        self.token
    }
}

} // verus!
