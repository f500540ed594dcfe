//! Memory regions of the target process and the static-address resolver:
//! decide whether an address can be rendered as `file+offset`, coalescing an
//! anonymous region that directly follows a named mapping into that name.
use vstd::prelude::*;

verus! {

/// What backs a mapped region, as the OS map table reports it.  An
/// anonymous region shows up as `MappedFile` with an empty name.
#[derive(Debug, Clone)]
pub enum MapPath {
    MappedFile(String),
    Stack,
    ThreadStack(usize),
    Vdso,
    Heap,
    Vvar,
    Vsyscall,
}

/// One contiguous interval of the target's address space with uniform
/// permissions, `[base, ceiling)`.
#[derive(Debug, Clone)]
pub struct Region {
    pub base: usize,
    pub ceiling: usize,
    pub readable: bool,
    pub writable: bool,
    pub executable: bool,
    pub pathname: MapPath,
}

/// The one bit of region metadata every candidate carries around.
#[derive(Debug, Copy, Clone, PartialEq, Eq, Structural)]
pub struct AddressInfo {
    pub writable: bool,
}

/// An address rendered relative to the start of a file-backed extent.
#[derive(Debug, Clone)]
pub struct StaticLocation {
    pub map_path: String,
    pub offset: usize,
    pub base: usize,
}

/// Spec-level equality of two backing paths.
pub open spec fn path_eq(a: MapPath, b: MapPath) -> bool {
    match (a, b) {
        (MapPath::MappedFile(x), MapPath::MappedFile(y)) => x@ == y@,
        (MapPath::Stack, MapPath::Stack) => true,
        (MapPath::ThreadStack(x), MapPath::ThreadStack(y)) => x == y,
        (MapPath::Vdso, MapPath::Vdso) => true,
        (MapPath::Heap, MapPath::Heap) => true,
        (MapPath::Vvar, MapPath::Vvar) => true,
        (MapPath::Vsyscall, MapPath::Vsyscall) => true,
        _ => false,
    }
}

/// A path that names an actual mapped file.
pub open spec fn is_named(p: MapPath) -> bool {
    match p {
        MapPath::MappedFile(s) => s@.len() > 0,
        _ => false,
    }
}

/// A region reported with an empty file name: an anonymous mapping.
pub open spec fn is_anonymous(p: MapPath) -> bool {
    match p {
        MapPath::MappedFile(s) => s@.len() == 0,
        _ => false,
    }
}

impl Region {
    /// Whether `addr` falls inside the half-open interval of this region.
    pub open spec fn spec_holds_addr(self, addr: usize) -> bool {
        self.base <= addr < self.ceiling
    }

    /// The (inclusive-ceiling) containment test the scan engine uses when it
    /// restricts a value-box query to the regions around its address window.
    pub fn contains(&self, addr: usize) -> (r: bool)
        ensures
            r == (self.base <= addr <= self.ceiling),
    {
        self.base <= addr && addr <= self.ceiling
    }
}

/// The first region of the snapshot that holds `a`, if any.
pub open spec fn first_region_index(ms: Seq<Region>, a: usize) -> Option<int>
    decreases ms.len(),
{
    if ms.len() == 0 {
        None
    } else if ms[0].spec_holds_addr(a) {
        Some(0)
    } else {
        match first_region_index(ms.skip(1), a) {
            Some(i) => Some(i + 1),
            None => None,
        }
    }
}

/// Where the static extent of the region at index `k` starts: at `k` itself
/// when it is named, at the directly adjacent predecessor when `k` is
/// anonymous and that predecessor is named (a `.bss`-style tail), nowhere
/// otherwise.
pub open spec fn extent_anchor(ms: Seq<Region>, k: int) -> Option<int>
    recommends
        0 <= k < ms.len(),
{
    if is_named(ms[k].pathname) {
        Some(k)
    } else if is_anonymous(ms[k].pathname) && k > 0 && ms[k - 1].ceiling == ms[k].base
        && is_named(ms[k - 1].pathname) && ms[k - 1].base <= ms[k - 1].ceiling {
        Some(k - 1)
    } else {
        None
    }
}

/// The earliest index reachable from `j` by walking backward over regions
/// that touch (`ceiling == base`), share the anchor's pathname, and are
/// well formed.
pub open spec fn extent_first(ms: Seq<Region>, j: int) -> int
    recommends
        0 <= j < ms.len(),
    decreases j,
{
    if j > 0 && ms[j - 1].base <= ms[j - 1].ceiling && ms[j - 1].ceiling == ms[j].base && path_eq(
        ms[j - 1].pathname,
        ms[j].pathname,
    ) {
        extent_first(ms, j - 1)
    } else {
        j
    }
}

/// The whole resolver, as one spec-level function over the snapshot: the
/// name of the extent, the extent's base, and the offset of `a` inside it.
pub open spec fn static_location_spec(ms: Seq<Region>, a: usize) -> Option<(Seq<char>, int, int)> {
    match first_region_index(ms, a) {
        Some(k) => match extent_anchor(ms, k) {
            Some(s) => {
                let f = extent_first(ms, s);
                match ms[f].pathname {
                    MapPath::MappedFile(name) => Some((name@, ms[f].base as int, a - ms[f].base)),
                    _ => None,
                }
            },
            None => None,
        },
        None => None,
    }
}

proof fn lemma_first_region_index_props(ms: Seq<Region>, a: usize)
    ensures
        match first_region_index(ms, a) {
            Some(k) => 0 <= k < ms.len() && ms[k].spec_holds_addr(a) && forall|i: int|
                0 <= i < k ==> !(#[trigger] ms[i]).spec_holds_addr(a),
            None => forall|i: int| 0 <= i < ms.len() ==> !(#[trigger] ms[i]).spec_holds_addr(a),
        },
    decreases ms.len(),
{
    if ms.len() > 0 && !ms[0].spec_holds_addr(a) {
        lemma_first_region_index_props(ms.skip(1), a);
        match first_region_index(ms.skip(1), a) {
            Some(i) => {
                assert(ms.skip(1)[i] == ms[i + 1]);
                assert forall|j: int| 0 <= j < i + 1 implies !(#[trigger] ms[j]).spec_holds_addr(
                    a,
                ) by {
                    if j > 0 {
                        assert(!ms.skip(1)[j - 1].spec_holds_addr(a));
                        assert(ms.skip(1)[j - 1] == ms[j]);
                    }
                }
            },
            None => {
                assert forall|j: int| 0 <= j < ms.len() implies !(
                #[trigger] ms[j]).spec_holds_addr(a) by {
                    if j > 0 {
                        assert(!ms.skip(1)[j - 1].spec_holds_addr(a));
                        assert(ms.skip(1)[j - 1] == ms[j]);
                    }
                }
            },
        }
    }
}

/// The anchor's pathname reaches `extent_first` unchanged, and bases only
/// decrease along the walk.
proof fn lemma_extent_first_props(ms: Seq<Region>, j: int)
    requires
        0 <= j < ms.len(),
    ensures
        ({
            let f = extent_first(ms, j);
            &&& 0 <= f <= j
            &&& path_eq(ms[f].pathname, ms[j].pathname)
            &&& ms[f].base <= ms[j].base
        }),
    decreases j,
{
    if j > 0 && ms[j - 1].base <= ms[j - 1].ceiling && ms[j - 1].ceiling == ms[j].base && path_eq(
        ms[j - 1].pathname,
        ms[j].pathname,
    ) {
        lemma_extent_first_props(ms, j - 1);
    }
}

/// Resolve `address` against a region snapshot: the pure logic behind the
/// resolver, shared by the live entry point and by its callers.
pub fn static_location_in(maps: &Vec<(AddressInfo, Region)>, address: usize) -> (r: Option<
    StaticLocation,
>)
    ensures
        ({
            let ms = maps@.map_values(|p: (AddressInfo, Region)| p.1);
            match r {
                Some(sl) => static_location_spec(ms, address) == Some(
                    (sl.map_path@, sl.base as int, sl.offset as int),
                ),
                None => static_location_spec(ms, address) is None,
            }
        }),
{
    let ghost ms = maps@.map_values(|p: (AddressInfo, Region)| p.1);
    proof {
        lemma_first_region_index_props(ms, address);
        assert(forall|i: int| 0 <= i < ms.len() ==> ms[i] == (#[trigger] maps@[i]).1);
    }
    // locate the first region that holds the address
    let n = maps.len();
    let mut k: usize = 0;
    loop
        invariant
            0 <= k <= n,
            n == maps.len(),
            ms == maps@.map_values(|p: (AddressInfo, Region)| p.1),
            forall|i: int| 0 <= i < k ==> !(#[trigger] ms[i]).spec_holds_addr(address),
        ensures
            0 <= k < n,
            n == maps.len(),
            ms == maps@.map_values(|p: (AddressInfo, Region)| p.1),
            ms[k as int].spec_holds_addr(address),
            forall|i: int| 0 <= i < k ==> !(#[trigger] ms[i]).spec_holds_addr(address),
        decreases n - k,
    {
        if k == n {
            proof {
                lemma_first_region_index_props(ms, address);
                if first_region_index(ms, address) is Some {
                    let kk = first_region_index(ms, address)->Some_0;
                    assert(ms[kk].spec_holds_addr(address));
                }
            }
            return None;
        }
        let reg = &maps[k].1;
        if reg.base <= address && address < reg.ceiling {
            proof {
                assert(ms[k as int] == maps@[k as int].1);
            }
            break ;
        }
        proof {
            assert(ms[k as int] == maps@[k as int].1);
        }
        k = k + 1;
    }
    proof {
        if first_region_index(ms, address) is None {
            assert(!ms[k as int].spec_holds_addr(address));
        } else {
            let kk = first_region_index(ms, address)->Some_0;
            if kk < k {
                assert(!ms[kk].spec_holds_addr(address));
            }
            if kk > k {
                assert(!ms[k as int].spec_holds_addr(address));
            }
        }
        assert(first_region_index(ms, address) == Some(k as int));
    }
    // decide where the static extent is anchored
    let anchored: usize = match &maps[k].1.pathname {
        MapPath::MappedFile(name) => {
            if name.as_str().unicode_len() > 0 {
                k
            } else if k > 0 && maps[k - 1].1.ceiling == maps[k].1.base && maps[k - 1].1.base
                <= maps[k - 1].1.ceiling && (match &maps[k - 1].1.pathname {
                MapPath::MappedFile(prev) => prev.as_str().unicode_len() > 0,
                _ => false,
            }) {
                k - 1
            } else {
                return None;
            }
        },
        _ => {
            return None;
        },
    };
    proof {
        assert(extent_anchor(ms, k as int) == Some(anchored as int));
    }
    // walk backward over touching regions with the same backing path
    let mut j: usize = anchored;
    loop
        invariant
            0 <= j <= anchored < n,
            n == maps.len(),
            ms == maps@.map_values(|p: (AddressInfo, Region)| p.1),
            extent_first(ms, anchored as int) == extent_first(ms, j as int),
        ensures
            0 <= j <= anchored < n,
            n == maps.len(),
            ms == maps@.map_values(|p: (AddressInfo, Region)| p.1),
            extent_first(ms, anchored as int) == j as int,
        decreases j,
    {
        if j == 0 {
            break ;
        }
        let prev = &maps[j - 1].1;
        let curr = &maps[j].1;
        let touching = prev.base <= prev.ceiling && prev.ceiling == curr.base;
        let same = if touching {
            path_matches(&prev.pathname, &curr.pathname)
        } else {
            false
        };
        if !(touching && same) {
            proof {
                assert(extent_first(ms, j as int) == j as int);
            }
            break ;
        }
        j = j - 1;
    }
    let first = &maps[j].1;
    match &first.pathname {
        MapPath::MappedFile(name) => {
            proof {
                lemma_extent_first_props(ms, anchored as int);
                assert(is_named(ms[anchored as int].pathname));
                assert(ms[j as int].base <= ms[anchored as int].base);
                assert(ms[anchored as int].base <= address);
            }
            Some(
                StaticLocation {
                    map_path: name.clone(),
                    base: first.base,
                    offset: address - first.base,
                },
            )
        },
        _ => {
            proof {
                lemma_extent_first_props(ms, anchored as int);
            }
            None
        },
    }
}

/// Whether two backing paths are the same, matching `path_eq`.
pub fn path_matches(a: &MapPath, b: &MapPath) -> (r: bool)
    ensures
        r == path_eq(*a, *b),
{
    match (a, b) {
        (MapPath::MappedFile(x), MapPath::MappedFile(y)) => *x == *y,
        (MapPath::Stack, MapPath::Stack) => true,
        (MapPath::ThreadStack(x), MapPath::ThreadStack(y)) => *x == *y,
        (MapPath::Vdso, MapPath::Vdso) => true,
        (MapPath::Heap, MapPath::Heap) => true,
        (MapPath::Vvar, MapPath::Vvar) => true,
        (MapPath::Vsyscall, MapPath::Vsyscall) => true,
        _ => false,
    }
}

} // verus!
