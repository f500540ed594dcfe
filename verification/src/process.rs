//! The scan and filter engine: value predicates over candidates, the pure
//! per-region scanner, and the session that owns a candidate set and drives
//! remote reads and writes through it.
use crate::error::{BetrayalError, BetrayalResult};
use crate::memory::ReadFromBytes;
use crate::region::{AddressInfo, Region, StaticLocation};
use crate::remote::{fetch_mappings, read_memory, write_memory};
use crate::results::{lookup, AddressValue, CurrentQueryResults, Writer};
use vstd::prelude::*;
use vstd::string::*;

verus! {

/// A value/address predicate a scan or a refinement applies to each
/// candidate.  `ChangedBy` compares against the previous candidate set.
#[derive(Debug, PartialEq, Eq)]
pub enum Filter<T: ReadFromBytes> {
    IsEqual(T),
    InRange((T, T)),
    Any,
    ChangedBy(T),
    InAddressRanges(Vec<(usize, usize)>),
    IsInValueBox(usize, usize, Vec<T>),
}

/// The exact meaning of each filter against one candidate, given the
/// previous candidate set (empty during an initial scan, so `ChangedBy`
/// holds of nothing there).
pub open spec fn filter_matches_spec<T: ReadFromBytes>(
    f: Filter<T>,
    result: AddressValue<T>,
    prev: Seq<AddressValue<T>>,
) -> bool {
    match f {
        Filter::IsEqual(v) => v.as_int() == result.2.as_int(),
        Filter::InRange(range) => range.0.as_int() <= result.2.as_int() <= range.1.as_int(),
        Filter::Any => true,
        Filter::ChangedBy(diff) => match lookup(prev, result.1) {
            Some(p) => result.2.wrap_add_spec(diff).as_int() == p.2.as_int(),
            None => false,
        },
        Filter::InAddressRanges(ranges) => exists|i: int|
            0 <= i < ranges@.len() && (#[trigger] ranges@[i]).0 <= result.1 < ranges@[i].1,
        Filter::IsInValueBox(base, ceiling, values) => base <= result.1 <= ceiling && exists|i: int|
            0 <= i < values@.len() && (#[trigger] values@[i]).as_int() == result.2.as_int(),
    }
}

impl<T: ReadFromBytes> Filter<T> {
    /// Evaluate this filter on one candidate, against `current_results` as
    /// the previous candidate set.
    pub fn matches(&self, result: &AddressValue<T>, current_results: &CurrentQueryResults<T>) -> (r:
        bool)
        ensures
            r == filter_matches_spec(*self, *result, current_results@),
    {
        match self {
            Filter::IsEqual(v) => v.value_eq(&result.2),
            Filter::InRange(range) => range.0.value_le(&result.2) && result.2.value_le(&range.1),
            Filter::Any => true,
            Filter::ChangedBy(diff) => match current_results.get(result.1) {
                Some(p) => result.2.value_add(diff).value_eq(&p.2),
                None => false,
            },
            Filter::InAddressRanges(ranges) => {
                let n = ranges.len();
                let mut i: usize = 0;
                let mut found = false;
                while i < n
                    invariant
                        0 <= i <= n,
                        n == ranges@.len(),
                        found == exists|j: int|
                            0 <= j < i && (#[trigger] ranges@[j]).0 <= result.1 < ranges@[j].1,
                    decreases n - i,
                {
                    let (lo, hi) = ranges[i];
                    if lo <= result.1 && result.1 < hi {
                        found = true;
                    }
                    i = i + 1;
                }
                found
            },
            Filter::IsInValueBox(base, ceiling, values) => {
                if *base <= result.1 && result.1 <= *ceiling {
                    let n = values.len();
                    let mut i: usize = 0;
                    let mut found = false;
                    while i < n
                        invariant
                            0 <= i <= n,
                            n == values@.len(),
                            found == exists|j: int|
                                0 <= j < i && (#[trigger] values@[j]).as_int()
                                    == result.2.as_int(),
                        decreases n - i,
                    {
                        if values[i].value_eq(&result.2) {
                            found = true;
                        }
                        i = i + 1;
                    }
                    found
                } else {
                    false
                }
            },
        }
    }
}

/// The candidates of one region's bytes that pass the filter, in address
/// order, considering the first `upto` byte offsets.
pub open spec fn scan_bytes_spec<T: ReadFromBytes>(
    info: AddressInfo,
    base: usize,
    bytes: Seq<u8>,
    f: Filter<T>,
    prev: Seq<AddressValue<T>>,
    upto: int,
) -> Seq<AddressValue<T>>
    decreases upto,
{
    if upto <= 0 {
        Seq::empty()
    } else {
        let av = (
            info,
            ((base + upto - 1) as usize),
            T::decode_spec(bytes.subrange(upto - 1, upto - 1 + T::byte_size())),
        );
        if filter_matches_spec(f, av, prev) {
            scan_bytes_spec(info, base, bytes, f, prev, upto - 1).push(av)
        } else {
            scan_bytes_spec(info, base, bytes, f, prev, upto - 1)
        }
    }
}

/// How many byte offsets of a span of `len` bytes can hold a value of the
/// kind: every offset that leaves room for one whole value.
pub open spec fn window_count<T: ReadFromBytes>(len: int) -> int {
    if len >= T::byte_size() {
        len - T::byte_size() + 1
    } else {
        0
    }
}

/// Scan one region's bytes: decode a candidate at every byte offset, keep
/// the ones the filter accepts.  This is the whole per-region logic of an
/// initial scan, as a pure function of the bytes that were read.
pub fn scan_bytes<T: ReadFromBytes>(
    info: AddressInfo,
    base: usize,
    memory: &Vec<u8>,
    filter: &Filter<T>,
    prev: &CurrentQueryResults<T>,
) -> (r: Vec<AddressValue<T>>)
    requires
        base + memory@.len() <= usize::MAX,
    ensures
        r@ == scan_bytes_spec(
            info,
            base,
            memory@,
            *filter,
            prev@,
            window_count::<T>(memory@.len() as int),
        ),
        forall|i: int|
            0 <= i < r@.len() ==> base <= (#[trigger] r@[i]).1 && r@[i].1 < base + memory@.len()
                && r@[i].0 == info,
        forall|i: int|
            0 <= i < r@.len() ==> filter_matches_spec(*filter, #[trigger] r@[i], prev@),
{
    // the size call brings the kind's width bounds into scope
    let _size = T::size_of_value();
    let candidates = T::possible_values(memory, base);
    let n = candidates.len();
    let mut out: Vec<AddressValue<T>> = Vec::new();
    let mut i: usize = 0;
    while i < n
        invariant
            1 <= T::byte_size() <= 8,
            0 <= i <= n,
            n == candidates@.len(),
            n == window_count::<T>(memory@.len() as int),
            base + memory@.len() <= usize::MAX,
            forall|j: int|
                0 <= j < n ==> #[trigger] candidates@[j] == (
                ((base + j) as usize),
                T::decode_spec(memory@.subrange(j, j + T::byte_size())),
                ),
            out@ == scan_bytes_spec(info, base, memory@, *filter, prev@, i as int),
            forall|j: int|
                0 <= j < out@.len() ==> base <= (#[trigger] out@[j]).1 && out@[j].1 < base
                    + memory@.len() && out@[j].0 == info,
            forall|j: int|
                0 <= j < out@.len() ==> filter_matches_spec(*filter, #[trigger] out@[j], prev@),
        decreases n - i,
    {
        let (address, value) = candidates[i];
        let av = (info, address, value);
        if filter.matches(&av, prev) {
            out.push(av);
        }
        i = i + 1;
    }
    out
}

/// The permissions tag of the first region of the snapshot that holds
/// `address`, if any.
pub fn region_info_for(maps: &Vec<(AddressInfo, Region)>, address: usize) -> (r: Option<
    AddressInfo,
>)
    ensures
        match r {
            Some(info) => first_region_tagged(maps@, info, address) && region_tagged(
                maps@,
                info,
                address,
            ),
            None => forall|j: int|
                0 <= j < maps@.len() ==> !(#[trigger] maps@[j]).1.spec_holds_addr(address),
        },
{
    let n = maps.len();
    let mut i: usize = 0;
    while i < n
        invariant
            0 <= i <= n,
            n == maps@.len(),
            forall|j: int| 0 <= j < i ==> !(#[trigger] maps@[j]).1.spec_holds_addr(address),
        decreases n - i,
    {
        let m = &maps[i];
        if m.1.base <= address && address < m.1.ceiling {
            proof {
                assert(maps@[i as int].1.spec_holds_addr(address));
            }
            return Some(m.0);
        }
        i = i + 1;
    }
    None
}

/// The candidates of `s` before position `upto` that pass the filter, in
/// order: what a refinement keeps of a refreshed candidate set.
pub open spec fn retain_spec<T: ReadFromBytes>(
    f: Filter<T>,
    s: Seq<AddressValue<T>>,
    prev: Seq<AddressValue<T>>,
    upto: int,
) -> Seq<AddressValue<T>>
    decreases upto,
{
    if upto <= 0 {
        Seq::empty()
    } else if filter_matches_spec(f, s[upto - 1], prev) {
        retain_spec(f, s, prev, upto - 1).push(s[upto - 1])
    } else {
        retain_spec(f, s, prev, upto - 1)
    }
}

/// Some region of the snapshot holds `addr`, and `info` is that region's
/// permissions tag.
pub open spec fn region_tagged(
    maps: Seq<(AddressInfo, Region)>,
    info: AddressInfo,
    addr: usize,
) -> bool {
    exists|j: int|
        0 <= j < maps.len() && (#[trigger] maps[j]).1.spec_holds_addr(addr) && info == maps[j].0
}

/// `info` is the tag of the first region of the snapshot that holds
/// `addr`.
pub open spec fn first_region_tagged(
    maps: Seq<(AddressInfo, Region)>,
    info: AddressInfo,
    addr: usize,
) -> bool {
    exists|j: int|
        0 <= j < maps.len() && (#[trigger] maps[j]).1.spec_holds_addr(addr) && info == maps[j].0
            && (forall|k: int| 0 <= k < j ==> !(#[trigger] maps[k]).1.spec_holds_addr(addr))
}

/// One scanning session: a target PID, the current candidate set, and the
/// cached region snapshot the candidates were produced against.
#[derive(Debug)]
pub struct ProcessQuery<T: ReadFromBytes> {
    pub pid: i32,
    pub results: CurrentQueryResults<T>,
    pub mappings: Vec<(AddressInfo, Region)>,
}

impl<T: ReadFromBytes> ProcessQuery<T> {
    /// The candidate set is address-sorted with unique keys.
    pub open spec fn wf(&self) -> bool {
        self.results.wf()
    }

    /// Every candidate's address falls inside some region of the cached
    /// snapshot, and its tag is that region's tag.
    pub open spec fn candidates_in_regions(&self) -> bool {
        forall|i: int|
            0 <= i < self.results@.len() ==> region_tagged(
                self.mappings@,
                (#[trigger] self.results@[i]).0,
                self.results@[i].1,
            )
    }

    pub fn new(pid: i32) -> (r: Self)
        ensures
            r.pid == pid,
            r.results@.len() == 0,
            r.mappings@.len() == 0,
            r.wf(),
    {
        ProcessQuery { pid, results: CurrentQueryResults::new(), mappings: Vec::new() }
    }

    /// Snapshot the whole map table of `pid`, unreadable regions included.
    pub fn mappings_all_with_unreadable(pid: i32) -> (r: BetrayalResult<
        Vec<(AddressInfo, Region)>,
    >)
        ensures
            r is Err ==> r->Err_0 is BadPid,
            r matches Ok(maps) ==> forall|j: int|
                0 <= j < maps@.len() ==> (#[trigger] maps@[j]).0.writable == maps@[j].1.writable,
    {
        fetch_mappings(pid)
    }

    /// Snapshot the map table of `pid`.
    pub fn mappings_all(pid: i32) -> (r: BetrayalResult<Vec<(AddressInfo, Region)>>)
        ensures
            r is Err ==> r->Err_0 is BadPid,
            r matches Ok(maps) ==> forall|j: int|
                0 <= j < maps@.len() ==> (#[trigger] maps@[j]).0.writable == maps@[j].1.writable,
    {
        Self::mappings_all_with_unreadable(pid)
    }

    /// Replace the cached snapshot with a fresh one.
    pub fn update_mappings(&mut self) -> (r: BetrayalResult<()>)
        requires
            old(self).wf(),
        ensures
            final(self).wf(),
            final(self).pid == old(self).pid,
            final(self).results == old(self).results,
            r is Err ==> r->Err_0 is BadPid && final(self).mappings == old(self).mappings,
    {
        match Self::mappings_all(self.pid) {
            Ok(m) => {
                self.mappings = m;
                Ok(())
            },
            Err(e) => Err(e),
        }
    }

    /// Whether `value`, taken as an address, falls inside the cached
    /// snapshot (compared in the width of a signed machine word, as the
    /// interactive commands hand addresses around).
    pub fn in_address_space(&self, value: i32) -> (r: BetrayalResult<bool>)
        ensures
            r matches Ok(b) && b == exists|i: int|
                0 <= i < self.mappings@.len() && ((#[trigger] self.mappings@[i]).1.base as i32)
                    <= value <= (self.mappings@[i].1.ceiling as i32),
    {
        let n = self.mappings.len();
        let mut i: usize = 0;
        let mut found = false;
        while i < n
            invariant
                0 <= i <= n,
                n == self.mappings@.len(),
                found == exists|j: int|
                    0 <= j < i && ((#[trigger] self.mappings@[j]).1.base as i32) <= value <= (
                    self.mappings@[j].1.ceiling as i32),
            decreases n - i,
        {
            let base = #[verifier::truncate] (self.mappings[i].1.base as i32);
            let ceiling = #[verifier::truncate] (self.mappings[i].1.ceiling as i32);
            if base <= value && value <= ceiling {
                found = true;
            }
            i = i + 1;
        }
        Ok(found)
    }

    /// Read the candidate at `address`: find its region in the cached
    /// snapshot (refreshing the snapshot if none is cached), read one
    /// value's worth of bytes there, and decode.  What value comes back
    /// depends on the target process.
    pub fn read_at(&mut self, pid: i32, address: usize) -> (r: BetrayalResult<AddressValue<T>>)
        requires
            old(self).wf(),
        ensures
            final(self).wf(),
            final(self).pid == old(self).pid,
            final(self).results == old(self).results,
            old(self).mappings@.len() > 0 ==> final(self).mappings == old(self).mappings,
            match r {
                Ok(av) => av.1 == address && region_tagged(final(self).mappings@, av.0, address),
                Err(e) => e is PartialRead || e is BadPid,
            },
    {
        if self.mappings.len() == 0 {
            match self.update_mappings() {
                Ok(()) => (),
                Err(e) => {
                    return Err(e);
                },
            }
        }
        Self::read_candidate(pid, &self.mappings, address)
    }

    /// Read one value at `address` against a fixed snapshot: find the
    /// region that holds the address, read one value's worth of bytes
    /// there, and decode.
    pub fn read_candidate(pid: i32, maps: &Vec<(AddressInfo, Region)>, address: usize) -> (r:
        BetrayalResult<AddressValue<T>>)
        ensures
            match r {
                Ok(av) => av.1 == address && region_tagged(maps@, av.0, address),
                Err(e) => e is PartialRead,
            },
    {
        let info = match region_info_for(maps, address) {
            Some(info) => info,
            None => {
                return Err(BetrayalError::PartialRead);
            },
        };
        let size = T::size_of_value();
        let buffer = match read_memory(pid, address, size) {
            Ok(b) => b,
            Err(_e) => {
                return Err(BetrayalError::PartialRead);
            },
        };
        match T::read_value(&buffer) {
            Some(value) => Ok((info, address, value)),
            None => Err(BetrayalError::PartialRead),
        }
    }

    /// Encode `value` and write it into the target at `address`.
    pub fn write_at(pid: i32, address: usize, value: T) -> (r: BetrayalResult<()>)
        ensures
            r is Err ==> r->Err_0 is BadWrite,
    {
        let buffer = value.write_bytes();
        write_memory(pid, address, buffer)
    }

    /// Re-read every candidate address and drop the candidates whose read
    /// now fails; survivors get the value just read.  Per-candidate read
    /// errors are swallowed: the racy OS map is expected to invalidate
    /// addresses between scans.
    pub fn update_results(&mut self) -> (r: BetrayalResult<()>)
        requires
            old(self).wf(),
        ensures
            final(self).wf(),
            final(self).pid == old(self).pid,
            r is Ok,
            forall|i: int|
                0 <= i < final(self).results@.len() ==> old(self).results.contains_addr(
                    (#[trigger] final(self).results@[i]).1,
                ),
            final(self).candidates_in_regions(),
    {
        if self.mappings.len() == 0 {
            match self.update_mappings() {
                Ok(()) => (),
                Err(_e) => {
                    self.results = CurrentQueryResults::new();
                    return Ok(());
                },
            }
        }
        let n = self.results.len();
        let mut got: Vec<AddressValue<T>> = Vec::new();
        let mut k: usize = 0;
        while k < n
            invariant
                0 <= k <= n,
                self.wf(),
                n == self.results@.len(),
                forall|p: int, q: int|
                    0 <= p < q < got@.len() ==> (#[trigger] got@[p]).1 < (#[trigger] got@[q]).1,
                got@.len() > 0 ==> k > 0 && got@.last().1 <= self.results@[k - 1].1,
                forall|j: int|
                    0 <= j < got@.len() ==> self.results.contains_addr((#[trigger] got@[j]).1),
                forall|j: int|
                    0 <= j < got@.len() ==> region_tagged(
                        self.mappings@,
                        (#[trigger] got@[j]).0,
                        got@[j].1,
                    ),
            decreases n - k,
        {
            let address = self.results.index(k).1;
            match Self::read_candidate(self.pid, &self.mappings, address) {
                Ok(av) => {
                    proof {
                        assert(av.1 == self.results@[k as int].1);
                        assert(self.results.contains_addr(av.1));
                        assert forall|j: int|
                            0 <= j < got@.len() implies (#[trigger] got@[j]).1 < av.1 by {
                            if j < got@.len() - 1 {
                                assert(got@[j].1 < got@[got@.len() - 1].1);
                            }
                            assert(self.results@[(k - 1) as int].1 < self.results@[k as int].1);
                        }
                    }
                    got.push(av);
                },
                Err(_e) => (),
            }
            k = k + 1;
        }
        self.results = CurrentQueryResults::from_sorted(got);
        proof {
            assert forall|i: int|
                0 <= i < self.results@.len() implies region_tagged(
                self.mappings@,
                (#[trigger] self.results@[i]).0,
                self.results@[i].1,
            ) by {
                assert(self.results@[i] == got@[i]);
            }
        }
        Ok(())
    }

    /// Write a value at a candidate's address, then refresh the whole set.
    /// Writing to an address that is not a current candidate fails with
    /// `BadWrite` and changes nothing.
    pub fn perform_write(&mut self, writer: Writer<T>) -> (r: BetrayalResult<()>)
        requires
            old(self).wf(),
        ensures
            final(self).wf(),
            final(self).pid == old(self).pid,
            r is Err ==> r->Err_0 is BadWrite,
            !old(self).results.contains_addr(writer.0) ==> r is Err && *final(self) == *old(self),
            r is Ok ==> old(self).results.contains_addr(writer.0)
                && final(self).candidates_in_regions() && forall|i: int|
                0 <= i < final(self).results@.len() ==> old(self).results.contains_addr(
                    (#[trigger] final(self).results@[i]).1,
                ),
    {
        let (selected_address, value) = writer;
        match self.results.get(selected_address) {
            Some(_) => (),
            None => {
                return Err(BetrayalError::BadWrite(String::from_str("no such address")));
            },
        }
        match Self::write_at(self.pid, selected_address, value) {
            Ok(()) => (),
            Err(e) => {
                return Err(e);
            },
        }
        self.update_results()
    }
}

/// The index views of the rows a scan chose.
pub open spec fn indices_of(v: Seq<usize>) -> Seq<int> {
    v.map_values(|u: usize| u as int)
}

/// Row `i` survives the base pass: it is readable and no earlier
/// readable row shares its base.
pub open spec fn base_kept(maps: Seq<(AddressInfo, Region)>, i: int) -> bool {
    maps[i].1.readable && forall|j: int|
        0 <= j < i ==> !(#[trigger] maps[j]).1.readable || maps[j].1.base != maps[i].1.base
}

/// Row `i` is scanned: it survives the base pass and no earlier
/// base-surviving row shares its ceiling.
pub open spec fn scan_kept(maps: Seq<(AddressInfo, Region)>, i: int) -> bool {
    base_kept(maps, i) && forall|j: int|
        0 <= j < i ==> !base_kept(maps, j) || (#[trigger] maps[j]).1.ceiling != maps[i].1.ceiling
}

/// The rows surviving the base pass, in order.
pub open spec fn base_choice(maps: Seq<(AddressInfo, Region)>, upto: int) -> Seq<int>
    decreases upto,
{
    if upto <= 0 {
        Seq::empty()
    } else if base_kept(maps, upto - 1) {
        base_choice(maps, upto - 1).push(upto - 1)
    } else {
        base_choice(maps, upto - 1)
    }
}

/// The base pass keeps exactly the rows `base_kept` admits.
pub proof fn lemma_base_choice_membership(maps: Seq<(AddressInfo, Region)>, upto: int)
    requires
        0 <= upto,
    ensures
        forall|x: int|
            #[trigger] base_choice(maps, upto).contains(x) <==> (0 <= x < upto && base_kept(
                maps,
                x,
            )),
    decreases upto,
{
    broadcast use vstd::seq_lib::group_seq_properties;

    if upto > 0 {
        lemma_base_choice_membership(maps, upto - 1);
        let prev = base_choice(maps, upto - 1);
        assert forall|x: int|
            #[trigger] base_choice(maps, upto).contains(x) implies (0 <= x < upto && base_kept(
            maps,
            x,
        )) by {
            if base_kept(maps, upto - 1) {
                assert(base_choice(maps, upto) == prev.push(upto - 1));
                if x != upto - 1 {
                    assert(prev.contains(x));
                }
            }
        }
        assert forall|x: int|
            0 <= x < upto && base_kept(maps, x) implies #[trigger] base_choice(
            maps,
            upto,
        ).contains(x) by {
            if x < upto - 1 {
                assert(prev.contains(x));
                let c = choose|c: int| 0 <= c < prev.len() && prev[c] == x;
                if base_kept(maps, upto - 1) {
                    assert(base_choice(maps, upto)[c] == x);
                } else {
                    assert(base_choice(maps, upto)[c] == x);
                }
            } else {
                assert(base_choice(maps, upto)[base_choice(maps, upto).len() - 1] == x);
            }
        }
    }
}

/// The rows a full scan reads, in order: the readable regions,
/// deduplicated first by base (keeping the first row for every base) and
/// then by ceiling among the base survivors, so repeated enumeration
/// rows do not double-count.
pub open spec fn scan_choice(maps: Seq<(AddressInfo, Region)>, upto: int) -> Seq<int>
    decreases upto,
{
    if upto <= 0 {
        Seq::empty()
    } else if scan_kept(maps, upto - 1) {
        scan_choice(maps, upto - 1).push(upto - 1)
    } else {
        scan_choice(maps, upto - 1)
    }
}

/// The candidate population of one whole scan, given which chosen
/// regions' reads succeeded: each such region contributes one candidate
/// per viable byte offset of its span, and a failed or malformed region
/// contributes nothing.
pub open spec fn window_sum<T: ReadFromBytes>(
    maps: Seq<(AddressInfo, Region)>,
    kept: Seq<int>,
    ok: Seq<bool>,
    upto: int,
) -> int
    decreases upto,
{
    if upto <= 0 {
        0
    } else {
        window_sum::<T>(maps, kept, ok, upto - 1) + ({
            let m = maps[kept[upto - 1]].1;
            if ok[upto - 1] && m.base <= m.ceiling {
                window_count::<T>(m.ceiling - m.base)
            } else {
                0
            }
        })
    }
}

/// The scan population only depends on the read outcomes it has seen.
proof fn lemma_window_sum_agree<T: ReadFromBytes>(
    maps: Seq<(AddressInfo, Region)>,
    kept: Seq<int>,
    ok1: Seq<bool>,
    ok2: Seq<bool>,
    upto: int,
)
    requires
        forall|k: int| 0 <= k < upto ==> ok1[k] == ok2[k],
    ensures
        window_sum::<T>(maps, kept, ok1, upto) == window_sum::<T>(maps, kept, ok2, upto),
    decreases upto,
{
    if upto > 0 {
        lemma_window_sum_agree::<T>(maps, kept, ok1, ok2, upto - 1);
    }
}

impl<T: ReadFromBytes> ProcessQuery<T> {
    /// A full scan: refresh the snapshot, choose the regions to read (the
    /// readable ones, deduplicated by base and then by ceiling so split
    /// enumeration rows do not double-count, and for a value-box filter
    /// only the regions around the box), read each whole region, and keep
    /// every decoded candidate the filter accepts.  Regions whose read
    /// fails contribute nothing: the OS map is racy.
    fn query(&mut self, filter: &Filter<T>) -> (r: BetrayalResult<Vec<AddressValue<T>>>)
        requires
            old(self).wf(),
        ensures
            final(self).wf(),
            final(self).pid == old(self).pid,
            final(self).results == old(self).results,
            match r {
                Ok(results) => forall|i: int|
                    0 <= i < results@.len() ==> filter_matches_spec(
                        *filter,
                        #[trigger] results@[i],
                        Seq::<AddressValue<T>>::empty(),
                    ) && region_tagged(final(self).mappings@, results@[i].0, results@[i].1),
                Err(e) => e is BadPid,
            },
            r matches Ok(results) ==> *filter is Any ==> exists|ok: Seq<bool>|
                ok.len() == scan_choice(
                    final(self).mappings@,
                    final(self).mappings@.len() as int,
                ).len() && results@.len() == window_sum::<T>(
                    final(self).mappings@,
                    scan_choice(final(self).mappings@, final(self).mappings@.len() as int),
                    ok,
                    ok.len() as int,
                ),
    {
        match self.update_mappings() {
            Ok(()) => (),
            Err(e) => {
                return Err(e);
            },
        }
        let total = self.mappings.len();
        let mut base_survivors: Vec<usize> = Vec::new();
        let mut deduped: Vec<usize> = Vec::new();
        let mut i: usize = 0;
        while i < total
            invariant
                0 <= i <= total,
                total == self.mappings@.len(),
                forall|c: int|
                    0 <= c < base_survivors@.len() ==> (#[trigger] base_survivors@[c]) < total,
                forall|c: int| 0 <= c < deduped@.len() ==> (#[trigger] deduped@[c]) < total,
                indices_of(base_survivors@) == base_choice(self.mappings@, i as int),
                indices_of(deduped@) == scan_choice(self.mappings@, i as int),
            decreases total - i,
        {
            let ghost pre_bs = base_survivors@;
            let ghost pre_deduped = deduped@;
            proof {
                assert(forall|k: int|
                    0 <= k < base_survivors@.len() ==> #[trigger] indices_of(base_survivors@)[k]
                        == base_survivors@[k] as int);
                assert(forall|k: int|
                    0 <= k < deduped@.len() ==> #[trigger] indices_of(deduped@)[k]
                        == deduped@[k] as int);
            }
            if self.mappings[i].1.readable {
                // the base pass tests against every earlier readable row
                let mut base_dup = false;
                let mut j: usize = 0;
                while j < i
                    invariant
                        0 <= j <= i,
                        i < total,
                        total == self.mappings@.len(),
                        base_dup == exists|k: int|
                            0 <= k < j && (#[trigger] self.mappings@[k]).1.readable
                                && self.mappings@[k].1.base == self.mappings@[i as int].1.base,
                    decreases i - j,
                {
                    if self.mappings[j].1.readable && self.mappings[j].1.base
                        == self.mappings[i].1.base {
                        base_dup = true;
                    }
                    j = j + 1;
                }
                if !base_dup {
                    proof {
                        assert(base_kept(self.mappings@, i as int));
                    }
                    // the ceiling pass tests against the base survivors
                    let mut ceiling_dup = false;
                    let mut c: usize = 0;
                    while c < base_survivors.len()
                        invariant
                            0 <= c <= base_survivors@.len(),
                            i < total,
                            total == self.mappings@.len(),
                            base_survivors@ == pre_bs,
                            forall|d: int|
                                0 <= d < base_survivors@.len() ==> (
                                #[trigger] base_survivors@[d]) < total,
                            ceiling_dup == exists|k: int|
                                0 <= k < c && (#[trigger] self.mappings@[base_survivors@[k] as int]).1.ceiling
                                    == self.mappings@[i as int].1.ceiling,
                        decreases base_survivors@.len() - c,
                    {
                        let seen = base_survivors[c];
                        if self.mappings[seen].1.ceiling == self.mappings[i].1.ceiling {
                            ceiling_dup = true;
                        }
                        c = c + 1;
                    }
                    if !ceiling_dup {
                        proof {
                            lemma_base_choice_membership(self.mappings@, i as int);
                            assert forall|k: int|
                                0 <= k < i && base_kept(self.mappings@, k) implies (
                            #[trigger] self.mappings@[k]).1.ceiling
                                != self.mappings@[i as int].1.ceiling by {
                                assert(base_choice(self.mappings@, i as int).contains(k));
                                let d = choose|d: int|
                                    0 <= d < base_choice(self.mappings@, i as int).len()
                                        && base_choice(self.mappings@, i as int)[d] == k;
                                assert(indices_of(pre_bs)[d] == pre_bs[d] as int);
                                assert(pre_bs[d] as int == k);
                            }
                            assert(scan_kept(self.mappings@, i as int));
                        }
                        deduped.push(i);
                        proof {
                            assert(indices_of(deduped@) =~= indices_of(pre_deduped).push(
                                i as int,
                            ));
                        }
                    } else {
                        proof {
                            lemma_base_choice_membership(self.mappings@, i as int);
                            let k = choose|k: int|
                                0 <= k < pre_bs.len() && (
                                #[trigger] self.mappings@[pre_bs[k] as int]).1.ceiling
                                    == self.mappings@[i as int].1.ceiling;
                            assert(indices_of(pre_bs)[k] == pre_bs[k] as int);
                            assert(base_choice(self.mappings@, i as int).contains(
                                pre_bs[k] as int,
                            ));
                            assert(base_kept(self.mappings@, pre_bs[k] as int));
                            assert(!scan_kept(self.mappings@, i as int));
                        }
                    }
                    base_survivors.push(i);
                    proof {
                        assert(indices_of(base_survivors@) =~= indices_of(pre_bs).push(i as int));
                    }
                } else {
                    proof {
                        assert(!base_kept(self.mappings@, i as int));
                        assert(!scan_kept(self.mappings@, i as int));
                    }
                }
            } else {
                proof {
                    assert(!base_kept(self.mappings@, i as int));
                    assert(!scan_kept(self.mappings@, i as int));
                }
            }
            i = i + 1;
        }
        let ghost maps = self.mappings@;
        let ghost kept = indices_of(deduped@);
        let ghost mut ok_flags: Seq<bool> = Seq::empty();
        let empty_prev = CurrentQueryResults::<T>::new();
        let mut out: Vec<AddressValue<T>> = Vec::new();
        let mut d: usize = 0;
        while d < deduped.len()
            invariant
                0 <= d <= deduped@.len(),
                maps == self.mappings@,
                kept == indices_of(deduped@),
                kept == scan_choice(maps, maps.len() as int),
                forall|c: int| 0 <= c < deduped@.len() ==> (#[trigger] deduped@[c]) < maps.len(),
                forall|c: int|
                    0 <= c < deduped@.len() ==> #[trigger] kept[c] == deduped@[c] as int,
                empty_prev@ == Seq::<AddressValue<T>>::empty(),
                ok_flags.len() == d,
                *filter is Any ==> out@.len() == window_sum::<T>(maps, kept, ok_flags, d as int),
                forall|k: int|
                    0 <= k < out@.len() ==> filter_matches_spec(
                        *filter,
                        #[trigger] out@[k],
                        Seq::<AddressValue<T>>::empty(),
                    ) && region_tagged(maps, out@[k].0, out@[k].1),
            decreases deduped@.len() - d,
        {
            let idx = deduped[d];
            let keep = match filter {
                Filter::IsInValueBox(start, end, _values) => self.mappings[idx].1.contains(*start)
                    || self.mappings[idx].1.contains(*end),
                _ => true,
            };
            let m = &self.mappings[idx];
            if keep && m.1.base <= m.1.ceiling {
                let span = m.1.ceiling - m.1.base;
                match read_memory(self.pid, m.1.base, span) {
                    Ok(bytes) => {
                        let mut chunk = scan_bytes(m.0, m.1.base, &bytes, filter, &empty_prev);
                        let ghost pre_out = out@;
                        let ghost chunk_snap = chunk@;
                        out.append(&mut chunk);
                        proof {
                            let pre_ok = ok_flags;
                            ok_flags = ok_flags.push(true);
                            if *filter is Any {
                                lemma_scan_any_count::<T>(
                                    maps[idx as int].0,
                                    maps[idx as int].1.base,
                                    bytes@,
                                    empty_prev@,
                                    window_count::<T>(bytes@.len() as int),
                                );
                                assert(chunk_snap.len() == window_count::<T>(
                                    maps[idx as int].1.ceiling - maps[idx as int].1.base,
                                ));
                                lemma_window_sum_agree::<T>(maps, kept, pre_ok, ok_flags, d as int);
                                assert(kept[d as int] == deduped@[d as int] as int);
                                assert(out@.len() == window_sum::<T>(
                                    maps,
                                    kept,
                                    ok_flags,
                                    d + 1 as int,
                                ));
                            }
                            assert forall|k: int|
                                0 <= k < out@.len() implies filter_matches_spec(
                                *filter,
                                #[trigger] out@[k],
                                Seq::<AddressValue<T>>::empty(),
                            ) && region_tagged(maps, out@[k].0, out@[k].1) by {
                                if k < pre_out.len() {
                                    assert(out@[k] == pre_out[k]);
                                } else {
                                    assert(out@[k] == chunk_snap[k - pre_out.len()]);
                                    assert(maps[idx as int].1.spec_holds_addr(out@[k].1));
                                }
                            }
                        }
                    },
                    Err(_e) => {
                        proof {
                            let pre_ok = ok_flags;
                            ok_flags = ok_flags.push(false);
                            if *filter is Any {
                                lemma_window_sum_agree::<T>(maps, kept, pre_ok, ok_flags, d as int);
                                assert(kept[d as int] == deduped@[d as int] as int);
                                assert(out@.len() == window_sum::<T>(
                                    maps,
                                    kept,
                                    ok_flags,
                                    d + 1 as int,
                                ));
                            }
                        }
                    },
                }
            } else {
                proof {
                    let pre_ok = ok_flags;
                    ok_flags = ok_flags.push(false);
                    if *filter is Any {
                        lemma_window_sum_agree::<T>(maps, kept, pre_ok, ok_flags, d as int);
                        assert(kept[d as int] == deduped@[d as int] as int);
                        assert(out@.len() == window_sum::<T>(maps, kept, ok_flags, d + 1 as int));
                    }
                }
            }
            d = d + 1;
        }
        proof {
            if *filter is Any {
                assert(out@.len() == window_sum::<T>(
                    maps,
                    scan_choice(maps, maps.len() as int),
                    ok_flags,
                    ok_flags.len() as int,
                ));
            }
        }
        Ok(out)
    }

    /// Replace the candidate set with the result of a full scan, keeping
    /// only the candidates the filter also accepts against the previous
    /// set (so `ChangedBy` holds of nothing when the previous set was
    /// empty).
    #[verifier::rlimit(100)]
    pub fn perform_new_query(&mut self, filter: Filter<T>) -> (r: BetrayalResult<()>)
        requires
            old(self).wf(),
        ensures
            final(self).wf(),
            final(self).pid == old(self).pid,
            r is Err ==> r->Err_0 is BadPid && final(self).results == old(self).results,
            r is Ok ==> final(self).candidates_in_regions() && forall|i: int|
                0 <= i < final(self).results@.len() ==> filter_matches_spec(
                    filter,
                    #[trigger] final(self).results@[i],
                    Seq::<AddressValue<T>>::empty(),
                ) && filter_matches_spec(filter, final(self).results@[i], old(self).results@),
            r is Ok ==> filter is Any ==> exists|ok: Seq<bool>|
                ok.len() == scan_choice(
                    final(self).mappings@,
                    final(self).mappings@.len() as int,
                ).len() && final(self).results@.len() <= window_sum::<T>(
                    final(self).mappings@,
                    scan_choice(final(self).mappings@, final(self).mappings@.len() as int),
                    ok,
                    ok.len() as int,
                ),
    {
        let scanned = match self.query(&filter) {
            Ok(v) => v,
            Err(e) => {
                return Err(e);
            },
        };
        let n = scanned.len();
        let mut fresh = CurrentQueryResults::<T>::new();
        let mut i: usize = 0;
        while i < n
            invariant
                0 <= i <= n,
                n == scanned@.len(),
                self.wf(),
                fresh.wf(),
                fresh@.len() <= i,
                forall|k: int|
                    0 <= k < scanned@.len() ==> filter_matches_spec(
                        filter,
                        #[trigger] scanned@[k],
                        Seq::<AddressValue<T>>::empty(),
                    ) && region_tagged(self.mappings@, scanned@[k].0, scanned@[k].1),
                forall|k: int|
                    0 <= k < fresh@.len() ==> filter_matches_spec(
                        filter,
                        #[trigger] fresh@[k],
                        Seq::<AddressValue<T>>::empty(),
                    ) && filter_matches_spec(filter, fresh@[k], self.results@) && region_tagged(
                        self.mappings@,
                        fresh@[k].0,
                        fresh@[k].1,
                    ),
            decreases n - i,
        {
            let av = scanned[i];
            if filter.matches(&av, &self.results) {
                let ghost pre_fresh = fresh@;
                fresh.insert(av);
                proof {
                    assert forall|k: int|
                        0 <= k < fresh@.len() implies filter_matches_spec(
                        filter,
                        #[trigger] fresh@[k],
                        Seq::<AddressValue<T>>::empty(),
                    ) && filter_matches_spec(filter, fresh@[k], self.results@) && region_tagged(
                        self.mappings@,
                        fresh@[k].0,
                        fresh@[k].1,
                    ) by {
                        if fresh@[k] != av {
                            let p = choose|p: int|
                                0 <= p < pre_fresh.len() && fresh@[k] == #[trigger] pre_fresh[p];
                            assert(fresh@[k] == pre_fresh[p]);
                        }
                    }
                }
            }
            i = i + 1;
        }
        self.results = fresh;
        proof {
            assert forall|k: int|
                0 <= k < self.results@.len() implies region_tagged(
                self.mappings@,
                (#[trigger] self.results@[k]).0,
                self.results@[k].1,
            ) by {
                assert(self.results@[k] == fresh@[k]);
            }
            assert forall|k: int|
                0 <= k < self.results@.len() implies filter_matches_spec(
                filter,
                #[trigger] self.results@[k],
                Seq::<AddressValue<T>>::empty(),
            ) && filter_matches_spec(filter, self.results@[k], old(self).results@) by {
                assert(self.results@[k] == fresh@[k]);
            }
            assert(self.candidates_in_regions());
            if filter is Any {
                let okw = choose|ok: Seq<bool>|
                    ok.len() == scan_choice(
                        self.mappings@,
                        self.mappings@.len() as int,
                    ).len() && scanned@.len() == window_sum::<T>(
                        self.mappings@,
                        scan_choice(self.mappings@, self.mappings@.len() as int),
                        ok,
                        ok.len() as int,
                    );
                assert(self.results@.len() <= window_sum::<T>(
                    self.mappings@,
                    scan_choice(self.mappings@, self.mappings@.len() as int),
                    okw,
                    okw.len() as int,
                ));
            }
        }
        Ok(())
    }
}

impl<T: ReadFromBytes> ProcessQuery<T> {
    /// Apply a filter to the session.  With an empty candidate set, or
    /// with the `Any` filter, this is an initial full scan; otherwise it
    /// is a refinement: re-read every candidate, then retain exactly those
    /// the filter accepts against the pre-refresh set, so the result is a
    /// subset of the prior set.
    pub fn perform_query(&mut self, filter: Filter<T>) -> (r: BetrayalResult<()>)
        requires
            old(self).wf(),
        ensures
            final(self).wf(),
            final(self).pid == old(self).pid,
            r is Err ==> r->Err_0 is BadPid,
            r is Ok ==> final(self).candidates_in_regions(),
            (old(self).results@.len() == 0 || filter is Any) ==> (r is Ok ==> forall|i: int|
                0 <= i < final(self).results@.len() ==> filter_matches_spec(
                    filter,
                    #[trigger] final(self).results@[i],
                    Seq::<AddressValue<T>>::empty(),
                ) && filter_matches_spec(filter, final(self).results@[i], old(self).results@)),
            r is Ok ==> filter is Any ==> exists|ok: Seq<bool>|
                ok.len() == scan_choice(
                    final(self).mappings@,
                    final(self).mappings@.len() as int,
                ).len() && final(self).results@.len() <= window_sum::<T>(
                    final(self).mappings@,
                    scan_choice(final(self).mappings@, final(self).mappings@.len() as int),
                    ok,
                    ok.len() as int,
                ),
            !(old(self).results@.len() == 0 || filter is Any) ==> r is Ok && (forall|i: int|
                0 <= i < final(self).results@.len() ==> filter_matches_spec(
                    filter,
                    #[trigger] final(self).results@[i],
                    old(self).results@,
                ) && old(self).results.contains_addr(final(self).results@[i].1)) && exists|mid: Seq<AddressValue<T>>|
                (forall|k: int|
                    0 <= k < mid.len() ==> old(self).results.contains_addr((#[trigger] mid[k]).1))
                    && final(self).results@ == retain_spec(
                    filter,
                    mid,
                    old(self).results@,
                    mid.len() as int,
                ),
    {
        let initial = self.results.is_empty() || (match &filter {
            Filter::Any => true,
            _ => false,
        });
        if initial {
            return self.perform_new_query(filter);
        }
        let prev = self.results.duplicate();
        match self.update_results() {
            Ok(()) => (),
            Err(e) => {
                return Err(e);
            },
        }
        let ghost mid = self.results@;
        let n = self.results.len();
        let mut kept: Vec<AddressValue<T>> = Vec::new();
        let mut i: usize = 0;
        while i < n
            invariant
                0 <= i <= n,
                self.wf(),
                prev@ == old(self).results@,
                mid == self.results@,
                n == self.results@.len(),
                kept@ == retain_spec(filter, mid, prev@, i as int),
                forall|k: int|
                    0 <= k < kept@.len() ==> filter_matches_spec(
                        filter,
                        #[trigger] kept@[k],
                        prev@,
                    ) && old(self).results.contains_addr(kept@[k].1) && region_tagged(
                        self.mappings@,
                        kept@[k].0,
                        kept@[k].1,
                    ),
                forall|p: int, q: int|
                    0 <= p < q < kept@.len() ==> (#[trigger] kept@[p]).1 < (#[trigger] kept@[q]).1,
                kept@.len() > 0 ==> i > 0 && kept@.last().1 <= self.results@[i - 1].1,
                forall|k: int|
                    0 <= k < self.results@.len() ==> old(self).results.contains_addr(
                        (#[trigger] self.results@[k]).1,
                    ),
                self.candidates_in_regions(),
            decreases n - i,
        {
            let av = *self.results.index(i);
            if filter.matches(&av, &prev) {
                proof {
                    if kept@.len() > 0 {
                        assert(self.results@[(i - 1) as int].1 < self.results@[i as int].1);
                        assert forall|k: int|
                            0 <= k < kept@.len() implies (#[trigger] kept@[k]).1 < av.1 by {
                            if k < kept@.len() - 1 {
                                assert(kept@[k].1 < kept@[kept@.len() - 1].1);
                            }
                        }
                    }
                    assert(region_tagged(self.mappings@, av.0, av.1));
                }
                kept.push(av);
            }
            i = i + 1;
            proof {
                assert(kept@ =~= retain_spec(filter, mid, prev@, i as int));
            }
        }
        proof {
            assert(forall|p: int, q: int|
                0 <= p < q < kept@.len() ==> (#[trigger] kept@[p]).1 < (#[trigger] kept@[q]).1);
        }
        self.results = CurrentQueryResults::from_sorted(kept);
        proof {
            assert forall|k: int|
                0 <= k < self.results@.len() implies filter_matches_spec(
                filter,
                #[trigger] self.results@[k],
                old(self).results@,
            ) && old(self).results.contains_addr(self.results@[k].1) && region_tagged(
                self.mappings@,
                self.results@[k].0,
                self.results@[k].1,
            ) by {
                assert(self.results@[k] == kept@[k]);
            }
            assert(self.results@ == retain_spec(filter, mid, old(self).results@, mid.len() as int));
        }
        Ok(())
    }
}

impl<T: ReadFromBytes> ProcessQuery<T> {
    /// Track one more address by hand: tag it with its region, seed it
    /// with the kind's zero value, then refresh the whole set.
    pub fn add_address(&mut self, address: usize) -> (r: BetrayalResult<()>)
        requires
            old(self).wf(),
        ensures
            final(self).wf(),
            final(self).pid == old(self).pid,
            r is Ok ==> final(self).candidates_in_regions(),
            r matches Err(e) ==> e is BadPid || (e is PartialRead && forall|j: int|
                0 <= j < final(self).mappings@.len() ==> !(
                #[trigger] final(self).mappings@[j]).1.spec_holds_addr(address)),
    {
        if self.mappings.len() == 0 {
            match self.update_mappings() {
                Ok(()) => (),
                Err(e) => {
                    return Err(e);
                },
            }
        }
        let info = match AddressInfo::from_address(self, self.pid, address) {
            Ok(info) => info,
            Err(e) => {
                return Err(e);
            },
        };
        self.results.insert((info, address, T::default_value()));
        self.update_results()
    }

    /// Track a half-open range of addresses by hand, all tagged like the
    /// range's start, then refresh the whole set.
    pub fn add_address_range(&mut self, start: usize, end: usize) -> (r: BetrayalResult<()>)
        requires
            old(self).wf(),
        ensures
            final(self).wf(),
            final(self).pid == old(self).pid,
            r is Ok ==> final(self).candidates_in_regions(),
            r matches Err(e) ==> e is BadPid || (e is PartialRead && forall|j: int|
                0 <= j < final(self).mappings@.len() ==> !(
                #[trigger] final(self).mappings@[j]).1.spec_holds_addr(start)),
    {
        if self.mappings.len() == 0 {
            match self.update_mappings() {
                Ok(()) => (),
                Err(e) => {
                    return Err(e);
                },
            }
        }
        let info = match AddressInfo::from_address(self, self.pid, start) {
            Ok(info) => info,
            Err(e) => {
                return Err(e);
            },
        };
        let mut address = start;
        while address < end
            invariant
                self.wf(),
                self.pid == old(self).pid,
            decreases end - address,
        {
            self.results.insert((info, address, T::default_value()));
            address = address + 1;
        }
        self.update_results()
    }
}

/// Every scalar found by `find_equal_to` equals the value searched for: a
/// fresh session scanned with `IsEqual`.
pub fn find_equal_to<T: ReadFromBytes>(pid: i32, value: T) -> (r: BetrayalResult<
    Vec<AddressValue<T>>,
>)
    ensures
        match r {
            Ok(found) => (forall|i: int|
                0 <= i < found@.len() ==> (#[trigger] found@[i]).2.as_int() == value.as_int())
                && (forall|p: int, q: int|
                0 <= p < q < found@.len() ==> (#[trigger] found@[p]).1 < (#[trigger] found@[q]).1),
            Err(e) => e is BadPid,
        },
{
    let mut process = ProcessQuery::<T>::new(pid);
    match process.perform_new_query(Filter::IsEqual(value)) {
        Ok(()) => (),
        Err(e) => {
            return Err(e);
        },
    }
    Ok(results_to_vec(&process.results))
}

/// Every scalar found by `find_in_range` lies between the two bounds: a
/// fresh session scanned with `InRange`.
pub fn find_in_range<T: ReadFromBytes>(pid: i32, min: T, max: T) -> (r: BetrayalResult<
    Vec<AddressValue<T>>,
>)
    ensures
        match r {
            Ok(found) => (forall|i: int|
                0 <= i < found@.len() ==> min.as_int() <= (#[trigger] found@[i]).2.as_int()
                    <= max.as_int()) && (forall|p: int, q: int|
                0 <= p < q < found@.len() ==> (#[trigger] found@[p]).1 < (#[trigger] found@[q]).1),
            Err(e) => e is BadPid,
        },
{
    let mut process = ProcessQuery::<T>::new(pid);
    match process.perform_new_query(Filter::InRange((min, max))) {
        Ok(()) => (),
        Err(e) => {
            return Err(e);
        },
    }
    Ok(results_to_vec(&process.results))
}

/// The candidates of a set as a vector, in address order.
pub fn results_to_vec<T: ReadFromBytes>(results: &CurrentQueryResults<T>) -> (r: Vec<
    AddressValue<T>,
>)
    ensures
        r@ == results@,
{
    let n = results.len();
    let mut out: Vec<AddressValue<T>> = Vec::new();
    let mut i: usize = 0;
    while i < n
        invariant
            0 <= i <= n,
            n == results@.len(),
            out@ == results@.take(i as int),
        decreases n - i,
    {
        out.push(*results.index(i));
        proof {
            assert(out@ =~= results@.take(i + 1 as int));
        }
        i = i + 1;
    }
    proof {
        assert(results@.take(n as int) =~= results@);
    }
    out
}

impl AddressInfo {
    /// The permissions tag of the region of `process`'s cached snapshot
    /// that holds `address`.
    pub fn from_address<T: ReadFromBytes>(
        process: &ProcessQuery<T>,
        _pid: i32,
        address: usize,
    ) -> (r: BetrayalResult<AddressInfo>)
        ensures
            match r {
                Ok(info) => first_region_tagged(process.mappings@, info, address)
                    && region_tagged(process.mappings@, info, address),
                Err(e) => e is PartialRead && forall|j: int|
                    0 <= j < process.mappings@.len() ==> !(
                    #[trigger] process.mappings@[j]).1.spec_holds_addr(address),
            },
    {
        match region_info_for(&process.mappings, address) {
            Some(info) => Ok(info),
            None => Err(BetrayalError::PartialRead),
        }
    }

    /// An address in a non-writable region is statically addressable.
    pub fn is_static(&self) -> (r: bool)
        ensures
            r == !self.writable,
    {
        !self.writable
    }

    /// Resolve `address` as `file+offset` against a fresh snapshot of the
    /// target's map table, unreadable regions included.  The offset is
    /// relative to the base of the coalesced static extent.
    pub fn static_location(&self, pid: i32, address: usize) -> (r: Option<StaticLocation>)
        ensures
            r matches Some(sl) ==> sl.base <= address && sl.base + sl.offset == address,
    {
        let maps = match ProcessQuery::<u8>::mappings_all_with_unreadable(pid) {
            Ok(maps) => maps,
            Err(_e) => {
                return None;
            },
        };
        let located = crate::region::static_location_in(&maps, address);
        proof {
            let ms = maps@.map_values(|p: (AddressInfo, Region)| p.1);
            if located is Some {
                assert(crate::region::static_location_spec(ms, address) == Some(
                    (located->Some_0.map_path@, located->Some_0.base as int, located->Some_0.offset as int),
                ));
            }
        }
        located
    }
}

/// What a refinement keeps: exactly the considered candidates the filter
/// accepts against the previous set.
pub proof fn lemma_retain_spec_membership<T: ReadFromBytes>(
    f: Filter<T>,
    mid: Seq<AddressValue<T>>,
    prev: Seq<AddressValue<T>>,
    upto: int,
)
    requires
        0 <= upto <= mid.len(),
    ensures
        forall|av: AddressValue<T>|
            #[trigger] retain_spec(f, mid, prev, upto).contains(av) <==> ((exists|k: int|
                0 <= k < upto && mid[k] == av) && filter_matches_spec(f, av, prev)),
    decreases upto,
{
    broadcast use vstd::seq_lib::group_seq_properties;

    if upto > 0 {
        lemma_retain_spec_membership(f, mid, prev, upto - 1);
        let pre = retain_spec(f, mid, prev, upto - 1);
        let cur = retain_spec(f, mid, prev, upto);
        let av0 = mid[upto - 1];
        assert forall|av: AddressValue<T>|
            #[trigger] cur.contains(av) implies ((exists|k: int| 0 <= k < upto && mid[k] == av)
            && filter_matches_spec(f, av, prev)) by {
            if filter_matches_spec(f, av0, prev) {
                assert(cur == pre.push(av0));
                if av == av0 {
                    assert(mid[upto - 1] == av);
                } else {
                    assert(pre.contains(av));
                    let k = choose|k: int| 0 <= k < upto - 1 && mid[k] == av;
                    assert(mid[k] == av);
                }
            } else {
                assert(cur == pre);
            }
        }
        assert forall|av: AddressValue<T>|
            ((exists|k: int| 0 <= k < upto && mid[k] == av) && filter_matches_spec(
                f,
                av,
                prev,
            )) implies #[trigger] cur.contains(av) by {
            let k = choose|k: int| 0 <= k < upto && mid[k] == av;
            if k == upto - 1 {
                assert(cur == pre.push(av));
                assert(cur[cur.len() - 1] == av);
            } else {
                assert(pre.contains(av));
                if filter_matches_spec(f, av0, prev) {
                    assert(cur == pre.push(av0));
                    let j = choose|j: int| 0 <= j < pre.len() && pre[j] == av;
                    assert(cur[j] == av);
                } else {
                    assert(cur == pre);
                }
            }
        }
    }
}

/// After a refresh, `ChangedBy(diff)` retains exactly those refreshed
/// candidates whose value, advanced by `diff` in the kind's wrapping
/// arithmetic, equals the value the previous candidate set recorded at
/// the same address; a candidate whose address was not in the previous
/// set is never retained.
pub proof fn lemma_changed_by_retains_exactly<T: ReadFromBytes>(
    diff: T,
    mid: Seq<AddressValue<T>>,
    prev: Seq<AddressValue<T>>,
    upto: int,
)
    requires
        0 <= upto <= mid.len(),
    ensures
        forall|av: AddressValue<T>|
            #[trigger] retain_spec(Filter::ChangedBy(diff), mid, prev, upto).contains(av) <==> ((
            exists|k: int| 0 <= k < upto && mid[k] == av) && match lookup(prev, av.1) {
                Some(p) => av.2.wrap_add_spec(diff).as_int() == p.2.as_int(),
                None => false,
            }),
{
    lemma_retain_spec_membership(Filter::ChangedBy(diff), mid, prev, upto);
}

/// With the `Any` filter every candidate passes: a scan of `len` bytes
/// yields one candidate per viable offset, `len - size + 1` of them when
/// `len >= size`.
pub proof fn lemma_scan_any_count<T: ReadFromBytes>(
    info: AddressInfo,
    base: usize,
    bytes: Seq<u8>,
    prev: Seq<AddressValue<T>>,
    upto: int,
)
    ensures
        scan_bytes_spec(info, base, bytes, Filter::<T>::Any, prev, upto).len() == if upto >= 0 {
            upto
        } else {
            0
        },
    decreases upto,
{
    if upto > 0 {
        lemma_scan_any_count::<T>(info, base, bytes, prev, upto - 1);
    }
}

} // verus!
