//! Hammering patterns: the aggressors of a pattern and the addresses that a
//! mapping gives them.
use vstd::prelude::*;
use std::collections::HashMap;
use vstd::std_specs::iter::IteratorSpec;
use crate::consec_blocks::{ConsecBlocks, locate, total_len};
use crate::dram_addr::{DRAMAddr, spec_to_virt};
use crate::mem_configuration::MemConfiguration;
use crate::util::{group_by_keys, grouped};

verus! {

/// Identifier of an aggressor row in a hammering pattern.
#[derive(Debug, Hash, PartialEq, Eq, Structural, Clone, Copy)]
pub struct Aggressor(pub u64);

/// A bit flip that was seen while a pattern was searched for.
#[derive(Debug, Clone, Copy)]
pub struct PatternBitFlip {
    /// DRAM address of the flip.
    pub dram_addr: DRAMAddr,
    /// Bitmask of the bits that flipped.
    pub bitmask: u8,
    /// Value of the byte after the flip.
    pub data: u8,
}

/// Maps aggressor identifiers to DRAM addresses.
#[derive(Debug)]
pub struct PatternAddressMapper {
    /// Identifier of the mapping.
    pub id: String,
    /// The DRAM address of each aggressor, under the aggressor's number.
    pub aggressor_to_addr: HashMap<u64, DRAMAddr>,
    /// Bit flips seen with this mapping, one list for each run.
    pub bit_flips: Vec<Vec<PatternBitFlip>>,
}

/// The entries of a mapping in the order of one walk through the map.
///
/// Which block of a collection a block in use takes, and the order of the
/// aggressors within a group, follow this order. A map does not say in which
/// order it is walked.
#[derive(Debug)]
pub struct EntryList {
    /// The aggressors with their DRAM addresses. Where an aggressor is listed
    /// more than once, its last entry counts.
    pub entries: Vec<(Aggressor, DRAMAddr)>,
}

/// The address of an aggressor among the first `n` entries: that of its last
/// entry, if it has one.
pub open spec fn lookup(entries: Seq<(Aggressor, DRAMAddr)>, aggressor: Aggressor, n: nat) -> Option<DRAMAddr>
    decreases n,
{
    if n == 0 {
        None
    } else if entries[n - 1].0 == aggressor {
        Some(entries[n - 1].1)
    } else {
        lookup(entries, aggressor, (n - 1) as nat)
    }
}

/// The number of flips in the first `n` lists.
pub open spec fn flips_count(lists: Seq<Vec<PatternBitFlip>>, n: nat) -> nat
    decreases n,
{
    if n == 0 {
        0
    } else {
        flips_count(lists, (n - 1) as nat) + lists[n - 1]@.len()
    }
}

/// Whether entry `i` is the last entry of its aggressor.
pub open spec fn is_last(entries: Seq<(Aggressor, DRAMAddr)>, i: int) -> bool {
    forall|j: int| i < j < entries.len() ==> (#[trigger] entries[j]).0 != entries[i].0
}

/// The block of `2^block_shift` bytes that the address of a DRAM coordinate
/// falls into, counted from address zero.
pub open spec fn block_prefix(addr: DRAMAddr, cfg: MemConfiguration, block_shift: usize) -> usize {
    ((spec_to_virt(addr, 0, cfg) as u64) >> (block_shift as u64)) as usize
}

/// The aggressors among the first `n` entries, each once: an entry counts
/// where it is the last of its aggressor.
pub open spec fn aggressors_upto(entries: Seq<(Aggressor, DRAMAddr)>, n: nat) -> Seq<Aggressor>
    decreases n,
{
    if n == 0 {
        Seq::empty()
    } else {
        let before = aggressors_upto(entries, (n - 1) as nat);
        if is_last(entries, n - 1) {
            before.push(entries[n - 1].0)
        } else {
            before
        }
    }
}

/// The blocks of the aggressors among the first `n` entries, in the order
/// of `aggressors_upto`.
pub open spec fn prefixes_upto(
    entries: Seq<(Aggressor, DRAMAddr)>,
    cfg: MemConfiguration,
    block_shift: usize,
    n: nat,
) -> Seq<usize>
    decreases n,
{
    if n == 0 {
        Seq::empty()
    } else {
        let before = prefixes_upto(entries, cfg, block_shift, (n - 1) as nat);
        if is_last(entries, n - 1) {
            before.push(block_prefix(entries[n - 1].1, cfg, block_shift))
        } else {
            before
        }
    }
}

/// The distinct values among the first `n`, in the order in which they
/// occur first.
pub open spec fn distinct_upto(values: Seq<usize>, n: nat) -> Seq<usize>
    decreases n,
{
    if n == 0 {
        Seq::empty()
    } else {
        let before = distinct_upto(values, (n - 1) as nat);
        if before.contains(values[n - 1]) {
            before
        } else {
            before.push(values[n - 1])
        }
    }
}

/// The blocks that hold an aggressor of the mapping, each once, in the order
/// in which the entries reach them first.
pub open spec fn blocks_in_use(entries: Seq<(Aggressor, DRAMAddr)>, cfg: MemConfiguration, block_shift: usize) -> Seq<
    usize,
> {
    let prefixes = prefixes_upto(entries, cfg, block_shift, entries.len());
    distinct_upto(prefixes, prefixes.len())
}

/// The distinct values of a list, in the order in which they occur first.
fn distinct(values: &Vec<usize>) -> (r: Vec<usize>)
    ensures
        r@ == distinct_upto(values@, values@.len()),
{
    let mut out: Vec<usize> = Vec::new();
    let mut i: usize = 0;
    while i < values.len()
        invariant
            i <= values@.len(),
            out@ == distinct_upto(values@, i as nat),
        decreases values@.len() - i,
    {
        if position(&out, values[i]).is_none() {
            out.push(values[i]);
        }
        i += 1;
    }
    out
}

/// The first index at which a value stands in a list.
fn position(values: &Vec<usize>, value: usize) -> (r: Option<usize>)
    ensures
        r.is_some() <==> values@.contains(value),
        r.is_some() ==> r.unwrap() < values@.len() && values@[r.unwrap() as int] == value && forall|j: int|
            0 <= j < r.unwrap() ==> values@[j] != value,
{
    let mut i: usize = 0;
    while i < values.len()
        invariant
            i <= values@.len(),
            forall|j: int| 0 <= j < i ==> values@[j] != value,
        decreases values@.len() - i,
    {
        if values[i] == value {
            return Some(i);
        }
        i += 1;
    }
    None
}

/// The word whose lowest `shift` bits are set.
pub open spec fn low_mask(shift: usize) -> u64 {
    ((1u64 << (shift as u64)) - 1) as u64
}

/// The block that the address of a DRAM coordinate falls into.
fn prefix_of(addr: DRAMAddr, mem_config: MemConfiguration, block_shift: usize) -> (r: usize)
    requires
        mem_config.shifts_ok(),
        block_shift < 64,
    ensures
        r == block_prefix(addr, mem_config, block_shift),
{
    let virt: u64 = addr.to_virt(0, mem_config) as u64;
    let shifted: u64 = virt >> (block_shift as u64);
    assert(shifted <= virt) by (bit_vector)
        requires
            shifted == virt >> (block_shift as u64),
    ;
    shifted as usize
}

/// The block of an aggressor that the mapping holds is among the blocks in use.
proof fn lemma_addr_in_use(
    entries: Seq<(Aggressor, DRAMAddr)>,
    cfg: MemConfiguration,
    block_shift: usize,
    aggressor: Aggressor,
)
    requires
        lookup(entries, aggressor, entries.len()) is Some,
    ensures
        blocks_in_use(entries, cfg, block_shift).contains(
            block_prefix(lookup(entries, aggressor, entries.len()).unwrap(), cfg, block_shift),
        ),
{
    let addr = lookup(entries, aggressor, entries.len()).unwrap();
    let i = lemma_lookup_last(entries, aggressor, entries.len());
    let prefixes = prefixes_upto(entries, cfg, block_shift, entries.len());
    lemma_prefix_listed(entries, cfg, block_shift, entries.len(), i);
    let k = choose|k: int| 0 <= k < prefixes.len() && prefixes[k] == block_prefix(entries[i].1, cfg, block_shift);
    lemma_distinct_holds(prefixes, prefixes.len(), k);
}

/// The entry that gives the address of an aggressor is the last of that aggressor.
proof fn lemma_lookup_last(entries: Seq<(Aggressor, DRAMAddr)>, aggressor: Aggressor, n: nat) -> (i: int)
    requires
        n <= entries.len(),
        lookup(entries, aggressor, n) is Some,
    ensures
        0 <= i < n,
        entries[i].0 == aggressor,
        entries[i].1 == lookup(entries, aggressor, n).unwrap(),
        forall|j: int| i < j < n ==> (#[trigger] entries[j]).0 != aggressor,
    decreases n,
{
    if entries[n - 1].0 == aggressor {
        n - 1
    } else {
        lemma_lookup_last(entries, aggressor, (n - 1) as nat)
    }
}

/// The block of an entry that is the last of its aggressor is listed.
proof fn lemma_prefix_listed(
    entries: Seq<(Aggressor, DRAMAddr)>,
    cfg: MemConfiguration,
    block_shift: usize,
    n: nat,
    i: int,
)
    requires
        0 <= i < n <= entries.len(),
        is_last(entries, i),
    ensures
        exists|k: int|
            0 <= k < prefixes_upto(entries, cfg, block_shift, n).len() && prefixes_upto(
                entries,
                cfg,
                block_shift,
                n,
            )[k] == block_prefix(entries[i].1, cfg, block_shift),
    decreases n,
{
    let now = prefixes_upto(entries, cfg, block_shift, n);
    if i == n - 1 {
        assert(now[now.len() - 1] == block_prefix(entries[i].1, cfg, block_shift));
    } else {
        lemma_prefix_listed(entries, cfg, block_shift, (n - 1) as nat, i);
        let before = prefixes_upto(entries, cfg, block_shift, (n - 1) as nat);
        let k = choose|k: int| 0 <= k < before.len() && before[k] == block_prefix(entries[i].1, cfg, block_shift);
        assert(now[k] == before[k]);
    }
}

/// Every value of a list is among its distinct values.
proof fn lemma_distinct_holds(values: Seq<usize>, n: nat, k: int)
    requires
        0 <= k < n <= values.len(),
    ensures
        distinct_upto(values, n).contains(values[k]),
    decreases n,
{
    let before = distinct_upto(values, (n - 1) as nat);
    let now = distinct_upto(values, n);
    if k == n - 1 {
        if before.contains(values[n - 1]) {
        } else {
            assert(now[now.len() - 1] == values[k]);
        }
    } else {
        lemma_distinct_holds(values, (n - 1) as nat, k);
        let j = choose|j: int| 0 <= j < before.len() && before[j] == values[k];
        assert(now[j] == values[k]);
    }
}

/// Whether `index` is the first index at which `value` stands in the list.
pub open spec fn first_at(values: Seq<usize>, value: usize, index: int) -> bool {
    &&& 0 <= index < values.len()
    &&& values[index] == value
    &&& forall|j: int| 0 <= j < index ==> values[j] != value
}

proof fn lemma_upto_lens(entries: Seq<(Aggressor, DRAMAddr)>, cfg: MemConfiguration, block_shift: usize, n: nat)
    ensures
        aggressors_upto(entries, n).len() == prefixes_upto(entries, cfg, block_shift, n).len(),
    decreases n,
{
    if n > 0 {
        lemma_upto_lens(entries, cfg, block_shift, (n - 1) as nat);
    }
}

impl EntryList {
    /// Whether entry `i` is the last entry of its aggressor.
    fn last_of_its_aggressor(&self, i: usize) -> (r: bool)
        requires
            i < self.entries@.len(),
        ensures
            r == is_last(self.entries@, i as int),
    {
        let len: usize = self.entries.len();
        let mut j: usize = i + 1;
        while j < len
            invariant
                len == self.entries@.len(),
                i < j <= self.entries@.len(),
                forall|k: int|
                    i < k < j ==> (#[trigger] self.entries@[k]).0 != self.entries@[i as int].0,
            decreases self.entries@.len() - j,
        {
            if self.entries[j].0.0 == self.entries[i].0.0 {
                return false;
            }
            j += 1;
        }
        true
    }

    /// Groups the aggressors by the block of `2^block_shift` bytes that their
    /// address falls into: the map holds, for each block, the aggressors in
    /// it in the order of their entries.
    pub fn aggressor_sets(&self, mem_config: MemConfiguration, block_shift: usize) -> (out: HashMap<
        usize,
        Vec<Aggressor>,
    >)
        requires
            mem_config.shifts_ok(),
            block_shift < 64,
        ensures
            grouped(
                aggressors_upto(self.entries@, self.entries@.len()),
                prefixes_upto(self.entries@, mem_config, block_shift, self.entries@.len()),
                out@,
                aggressors_upto(self.entries@, self.entries@.len()).len(),
            ),
    {
        broadcast use vstd::std_specs::hash::group_hash_axioms;

        let mut aggressors: Vec<Aggressor> = Vec::new();
        let mut prefixes: Vec<usize> = Vec::new();
        let mut i: usize = 0;
        while i < self.entries.len()
            invariant
                i <= self.entries@.len(),
                mem_config.shifts_ok(),
                block_shift < 64,
                aggressors@ == aggressors_upto(self.entries@, i as nat),
                prefixes@ == prefixes_upto(self.entries@, mem_config, block_shift, i as nat),
            decreases self.entries@.len() - i,
        {
            if self.last_of_its_aggressor(i) {
                let entry = self.entries[i];
                aggressors.push(entry.0);
                prefixes.push(prefix_of(entry.1, mem_config, block_shift));
            }
            i += 1;
        }
        proof {
            lemma_upto_lens(self.entries@, mem_config, block_shift, self.entries@.len());
        }
        group_by_keys(aggressors, prefixes)
    }

    /// The prefixes of the blocks of the aggressors, each aggressor once.
    fn prefixes(&self, mem_config: MemConfiguration, block_shift: usize) -> (r: Vec<usize>)
        requires
            mem_config.shifts_ok(),
            block_shift < 64,
        ensures
            r@ == prefixes_upto(self.entries@, mem_config, block_shift, self.entries@.len()),
    {
        let mut prefixes: Vec<usize> = Vec::new();
        let mut i: usize = 0;
        while i < self.entries.len()
            invariant
                i <= self.entries@.len(),
                mem_config.shifts_ok(),
                block_shift < 64,
                prefixes@ == prefixes_upto(self.entries@, mem_config, block_shift, i as nat),
            decreases self.entries@.len() - i,
        {
            if self.last_of_its_aggressor(i) {
                prefixes.push(prefix_of(self.entries[i].1, mem_config, block_shift));
            }
            i += 1;
        }
        prefixes
    }

    /// The address of an aggressor in a collection that holds one block of
    /// `2^block_shift` bytes for each block in use: the offset of the
    /// aggressor in its block is that of its address, and its block is the one
    /// with the index of its block among those in use.
    pub open spec fn place_of(
        self,
        aggressor: Aggressor,
        mem_config: MemConfiguration,
        block_shift: usize,
        memory: ConsecBlocks,
    ) -> int {
        let blocks = blocks_in_use(self.entries@, mem_config, block_shift);
        let addr = self.spec_addr_of(aggressor).unwrap();
        let within = (spec_to_virt(addr, 0, mem_config) as u64) & low_mask(block_shift);
        let index = choose|index: int| first_at(blocks, block_prefix(addr, mem_config, block_shift), index);
        locate(memory.blocks@, 0, index * (1u64 << (block_shift as u64)) + within)
    }

    /// Whether `addrs` are the addresses of the aggressors in the collection.
    pub open spec fn relocated(
        self,
        aggressors: Seq<Aggressor>,
        mem_config: MemConfiguration,
        block_shift: usize,
        memory: ConsecBlocks,
        addrs: Seq<usize>,
    ) -> bool {
        &&& addrs.len() == aggressors.len()
        &&& forall|i: int|
            0 <= i < aggressors.len() ==> #[trigger] addrs[i] == self.place_of(
                aggressors[i],
                mem_config,
                block_shift,
                memory,
            )
    }

    /// Relocates the aggressors into a collection of blocks of
    /// `2^block_shift` bytes: an aggressor keeps its offset within its block,
    /// and the blocks in use take the blocks of the collection in the order
    /// in which the entries of the mapping reach them first.
    ///
    /// Returns `None` where the mapping lacks one of the aggressors, and where
    /// the collection is not as long as the blocks in use together.
    pub fn get_hammering_addresses_relocate(
        &self,
        aggressors: &Vec<Aggressor>,
        mem_config: MemConfiguration,
        block_shift: usize,
        memory: &ConsecBlocks,
    ) -> (r: Option<Vec<usize>>)
        requires
            mem_config.shifts_ok(),
            block_shift < 64,
            memory.wf(),
        ensures
            r.is_some() <==> self.maps_all(aggressors@) && blocks_in_use(
                self.entries@,
                mem_config,
                block_shift,
            ).len() * (1u64 << (block_shift as u64)) == total_len(memory.blocks@),
            r.is_some() ==> self.relocated(aggressors@, mem_config, block_shift, *memory, r.unwrap()@),
    {
        let block_size: u64 = 1u64 << (block_shift as u64);
        assert(1 <= block_size) by (bit_vector)
            requires
                block_size == 1u64 << (block_shift as u64),
                block_shift < 64,
        ;
        let prefixes = self.prefixes(mem_config, block_shift);
        let blocks = distinct(&prefixes);
        let len: usize = memory.len();
        if (blocks.len() as u64) > (len as u64) / block_size {
            assert(blocks@.len() * block_size != len) by (nonlinear_arith)
                requires
                    blocks@.len() > (len as int) / (block_size as int),
                    block_size >= 1,
            ;
            return None;
        }
        assert(blocks@.len() * block_size <= len) by (nonlinear_arith)
            requires
                blocks@.len() <= (len as int) / (block_size as int),
                block_size >= 1,
        ;
        if (blocks.len() as u64) * block_size != len as u64 {
            return None;
        }
        let mut out: Vec<usize> = Vec::new();
        let mut i: usize = 0;
        while i < aggressors.len()
            invariant
                i <= aggressors@.len(),
                mem_config.shifts_ok(),
                block_shift < 64,
                block_size == 1u64 << (block_shift as u64),
                1 <= block_size,
                memory.wf(),
                len == total_len(memory.blocks@),
                blocks@ == blocks_in_use(self.entries@, mem_config, block_shift),
                blocks@.len() * block_size == len,
                out@.len() == i,
                forall|k: int| 0 <= k < i ==> self.spec_addr_of(#[trigger] aggressors@[k]) is Some,
                self.relocated(aggressors@.take(i as int), mem_config, block_shift, *memory, out@),
            decreases aggressors@.len() - i,
        {
            let addr = match self.addr_of(aggressors[i]) {
                Some(addr) => addr,
                None => {
                    return None;
                },
            };
            let virt: u64 = addr.to_virt(0, mem_config) as u64;
            let within: u64 = virt & (block_size - 1);
            assert(within < block_size && within == virt & low_mask(block_shift)) by (bit_vector)
                requires
                    within == virt & ((block_size - 1) as u64),
                    block_size == 1u64 << (block_shift as u64),
                    block_shift < 64,
                    low_mask(block_shift) == ((1u64 << (block_shift as u64)) - 1) as u64,
            ;
            let prefix = prefix_of(addr, mem_config, block_shift);
            let index: usize = match position(&blocks, prefix) {
                Some(index) => index,
                None => {
                    proof {
                        lemma_addr_in_use(self.entries@, mem_config, block_shift, aggressors@[i as int]);
                    }
                    return None;
                },
            };
            assert(index * block_size + within < len) by (nonlinear_arith)
                requires
                    index < blocks@.len(),
                    blocks@.len() * block_size == len,
                    within < block_size,
            ;
            let place: usize = memory.addr(((index as u64) * block_size + within) as usize);
            proof {
                let grown = aggressors@.take(i as int + 1);
                let shown = out@.push(place);
                let wanted = block_prefix(addr, mem_config, block_shift);
                assert(first_at(blocks@, wanted, index as int));
                let chosen = choose|ix: int| first_at(blocks@, wanted, ix);
                assert(chosen == index);
                assert(place == self.place_of(aggressors@[i as int], mem_config, block_shift, *memory));
                assert forall|k: int| 0 <= k < grown.len() implies #[trigger] shown[k] == self.place_of(
                    grown[k],
                    mem_config,
                    block_shift,
                    *memory,
                ) by {
                    if k < i {
                        assert(grown[k] == aggressors@.take(i as int)[k]);
                        assert(shown[k] == out@[k]);
                    }
                }
            }
            out.push(place);
            i += 1;
        }
        assert(aggressors@.take(i as int) =~= aggressors@);
        Some(out)
    }

    /// The DRAM address of an aggressor, if the mapping holds one.
    pub open spec fn spec_addr_of(self, aggressor: Aggressor) -> Option<DRAMAddr> {
        lookup(self.entries@, aggressor, self.entries@.len())
    }

    /// The DRAM address of an aggressor, if the mapping holds one.
    pub fn addr_of(&self, aggressor: Aggressor) -> (r: Option<DRAMAddr>)
        ensures
            r == self.spec_addr_of(aggressor),
    {
        let mut n: usize = self.entries.len();
        while n > 0
            invariant
                n <= self.entries@.len(),
                lookup(self.entries@, aggressor, n as nat) == self.spec_addr_of(aggressor),
            decreases n,
        {
            if self.entries[n - 1].0.0 == aggressor.0 {
                return Some(self.entries[n - 1].1);
            }
            n -= 1;
        }
        None
    }

    /// Whether the list holds an address for each of the aggressors.
    pub open spec fn maps_all(self, aggressors: Seq<Aggressor>) -> bool {
        forall|i: int| 0 <= i < aggressors.len() ==> self.spec_addr_of(#[trigger] aggressors[i]) is Some
    }
}

impl PatternAddressMapper {
    /// The DRAM address of an aggressor, if the mapping holds one.
    pub open spec fn spec_addr_of(self, aggressor: Aggressor) -> Option<DRAMAddr> {
        if self.aggressor_to_addr@.contains_key(aggressor.0) {
            Some(self.aggressor_to_addr@[aggressor.0])
        } else {
            None
        }
    }

    /// Whether the mapping holds an address for each of the aggressors.
    pub open spec fn maps_all(self, aggressors: Seq<Aggressor>) -> bool {
        forall|i: int| 0 <= i < aggressors.len() ==> self.spec_addr_of(#[trigger] aggressors[i]) is Some
    }

    /// Whether `list` holds the entries of the mapping, each once.
    pub open spec fn listed_by(self, list: EntryList) -> bool {
        lists(self.aggressor_to_addr@, list.entries@)
    }

    /// The DRAM address of an aggressor, if the mapping holds one.
    pub fn addr_of(&self, aggressor: Aggressor) -> (r: Option<DRAMAddr>)
        ensures
            r == self.spec_addr_of(aggressor),
    {
        broadcast use vstd::std_specs::hash::group_hash_axioms;

        match self.aggressor_to_addr.get(&aggressor.0) {
            Some(addr) => Some(*addr),
            None => None,
        }
    }

    /// The entries of the mapping in the order in which the map is walked.
    pub fn entry_list(&self) -> (r: EntryList)
        ensures
            self.listed_by(r),
    {
        EntryList { entries: entries_of(&self.aggressor_to_addr) }
    }

    /// Groups the aggressors by the block of `2^block_shift` bytes that their
    /// address falls into: the map holds, for each block, the aggressors in
    /// it, in the order of one walk through the mapping.
    pub fn aggressor_sets(&self, mem_config: MemConfiguration, block_shift: usize) -> (out: HashMap<
        usize,
        Vec<Aggressor>,
    >)
        requires
            mem_config.shifts_ok(),
            block_shift < 64,
        ensures
            exists|list: EntryList| #[trigger]
                self.listed_by(list) && grouped(
                    aggressors_upto(list.entries@, list.entries@.len()),
                    prefixes_upto(list.entries@, mem_config, block_shift, list.entries@.len()),
                    out@,
                    aggressors_upto(list.entries@, list.entries@.len()).len(),
                ),
    {
        let list = self.entry_list();
        list.aggressor_sets(mem_config, block_shift)
    }

    /// Relocates the aggressors into a collection of blocks of
    /// `2^block_shift` bytes: an aggressor keeps its offset within its block,
    /// and the blocks in use take the blocks of the collection in the order
    /// in which one walk through the mapping reaches them first.
    ///
    /// Returns `None` where the mapping lacks one of the aggressors, and where
    /// the collection is not as long as the blocks in use together.
    pub fn get_hammering_addresses_relocate(
        &self,
        aggressors: &Vec<Aggressor>,
        mem_config: MemConfiguration,
        block_shift: usize,
        memory: &ConsecBlocks,
    ) -> (r: Option<Vec<usize>>)
        requires
            mem_config.shifts_ok(),
            block_shift < 64,
            memory.wf(),
        ensures
            r.is_some() ==> self.maps_all(aggressors@),
            exists|list: EntryList|
                {
                    &&& #[trigger] self.listed_by(list)
                    &&& r.is_some() <==> self.maps_all(aggressors@) && blocks_in_use(
                        list.entries@,
                        mem_config,
                        block_shift,
                    ).len() * (1u64 << (block_shift as u64)) == total_len(memory.blocks@)
                    &&& r.is_some() ==> list.relocated(aggressors@, mem_config, block_shift, *memory, r.unwrap()@)
                },
    {
        let list = self.entry_list();
        proof {
            assert forall|i: int| 0 <= i < aggressors@.len() implies list.spec_addr_of(aggressors@[i])
                == self.spec_addr_of(aggressors@[i]) by {
                lemma_lookup_lists(self.aggressor_to_addr@, list.entries@, aggressors@[i], list.entries@.len());
            }
        }
        list.get_hammering_addresses_relocate(aggressors, mem_config, block_shift, memory)
    }

    /// The addresses of the aggressors below the high bits of `base_msb`, or
    /// `None` where the mapping lacks one of them.
    pub fn get_hammering_addresses(
        &self,
        aggressors: &Vec<Aggressor>,
        base_msb: usize,
        mem_config: MemConfiguration,
    ) -> (r: Option<Vec<usize>>)
        requires
            mem_config.shifts_ok(),
        ensures
            r.is_some() <==> self.maps_all(aggressors@),
            r.is_some() ==> r.unwrap()@.len() == aggressors@.len() && forall|i: int|
                0 <= i < aggressors@.len() ==> #[trigger] r.unwrap()@[i] == spec_to_virt(
                    self.spec_addr_of(aggressors@[i]).unwrap(),
                    base_msb,
                    mem_config,
                ),
    {
        let mut out: Vec<usize> = Vec::new();
        let mut i: usize = 0;
        while i < aggressors.len()
            invariant
                i <= aggressors@.len(),
                mem_config.shifts_ok(),
                out@.len() == i,
                forall|k: int| 0 <= k < i ==> self.spec_addr_of(#[trigger] aggressors@[k]) is Some,
                forall|k: int|
                    0 <= k < i ==> #[trigger] out@[k] == spec_to_virt(
                        self.spec_addr_of(aggressors@[k]).unwrap(),
                        base_msb,
                        mem_config,
                    ),
            decreases aggressors@.len() - i,
        {
            match self.addr_of(aggressors[i]) {
                Some(addr) => {
                    out.push(addr.to_virt(base_msb, mem_config));
                },
                None => {
                    return None;
                },
            }
            i += 1;
        }
        Some(out)
    }

    /// Returns the total number of bit flips seen with this mapping.
    pub fn count_bitflips(&self) -> (r: usize)
        requires
            flips_count(self.bit_flips@, self.bit_flips@.len()) <= usize::MAX,
        ensures
            r == flips_count(self.bit_flips@, self.bit_flips@.len()),
    {
        let mut sum: usize = 0;
        let mut i: usize = 0;
        while i < self.bit_flips.len()
            invariant
                i <= self.bit_flips@.len(),
                sum == flips_count(self.bit_flips@, i as nat),
                flips_count(self.bit_flips@, self.bit_flips@.len()) <= usize::MAX,
            decreases self.bit_flips@.len() - i,
        {
            proof {
                lemma_flips_count_mono(self.bit_flips@, (i + 1) as nat, self.bit_flips@.len());
            }
            sum = sum + self.bit_flips[i].len();
            i += 1;
        }
        sum
    }
}

proof fn lemma_flips_count_mono(lists: Seq<Vec<PatternBitFlip>>, n: nat, m: nat)
    requires
        n <= m,
    ensures
        flips_count(lists, n) <= flips_count(lists, m),
    decreases m,
{
    if n < m {
        lemma_flips_count_mono(lists, n, (m - 1) as nat);
    }
}

/// A hammering pattern: an access sequence of aggressors and the mappings
/// that gave flips for it.
#[derive(Debug)]
pub struct HammeringPattern {
    /// Identifier of the pattern.
    pub id: String,
    /// Total number of row activations in this pattern.
    pub total_activations: u32,
    /// Number of DRAM refresh intervals.
    pub num_refresh_intervals: u32,
    /// Aggressor row access sequence.
    pub access_ids: Vec<Aggressor>,
    /// Address mappings for this pattern.
    pub address_mappings: Vec<PatternAddressMapper>,
}

/// The results of a search for patterns.
#[derive(Debug)]
pub struct FuzzSummary {
    /// All patterns that were found.
    pub hammering_patterns: Vec<HammeringPattern>,
}

/// Why no pattern was loaded.
#[derive(Debug)]
pub enum PatternLoadError {
    /// No pattern has the identifier that the error holds.
    NotFound(String),
}

/// Whether the flips of each mapping can be counted in a machine word.
pub open spec fn countable(mappings: Seq<PatternAddressMapper>) -> bool {
    forall|i: int|
        0 <= i < mappings.len() ==> flips_count((#[trigger] mappings[i]).bit_flips@, mappings[i].bit_flips@.len())
            <= usize::MAX
}

/// The number of flips of a mapping.
pub open spec fn mapping_flips(m: PatternAddressMapper) -> nat {
    flips_count(m.bit_flips@, m.bit_flips@.len())
}

impl HammeringPattern {
    /// Picks the pattern with the given identifier among the patterns that a
    /// results file held: the first one that has it.
    pub fn load_pattern_from_json(patterns: Vec<HammeringPattern>, pattern_id: &str) -> (r: Result<
        HammeringPattern,
        PatternLoadError,
    >)
        ensures
            match r {
                Ok(p) => exists|i: int|
                    0 <= i < patterns@.len() && (#[trigger] patterns@[i]) == p && p.id@ == pattern_id@ && forall|j: int|
                        0 <= j < i ==> (#[trigger] patterns@[j]).id@ != pattern_id@,
                Err(PatternLoadError::NotFound(id)) => id@ == pattern_id@ && forall|j: int|
                    0 <= j < patterns@.len() ==> (#[trigger] patterns@[j]).id@ != pattern_id@,
            },
    {
        let wanted: String = pattern_id.to_owned();
        let ghost all = patterns@;
        let mut rest = patterns;
        let mut i: usize = 0;
        while i < rest.len()
            invariant
                i <= rest@.len(),
                rest@ == all,
                patterns@ == all,
                wanted@ == pattern_id@,
                forall|j: int| 0 <= j < i ==> (#[trigger] all[j]).id@ != pattern_id@,
            decreases rest@.len() - i,
        {
            if rest[i].id == wanted {
                let found = rest.swap_remove(i);
                assert(patterns@[i as int] == found);
                return Ok(found);
            }
            i += 1;
        }
        Err(PatternLoadError::NotFound(wanted))
    }

    /// Finds the address mapping with the most bit flips: the last one of
    /// those that have the most.
    pub fn determine_most_effective_mapping(&self) -> (r: Option<&PatternAddressMapper>)
        requires
            countable(self.address_mappings@),
        ensures
            r.is_some() <==> self.address_mappings@.len() > 0,
            r.is_some() ==> exists|i: int|
                {
                    &&& 0 <= i < self.address_mappings@.len()
                    &&& (#[trigger] self.address_mappings@[i]) == *r.unwrap()
                    &&& forall|j: int|
                        0 <= j < self.address_mappings@.len() ==> mapping_flips(#[trigger] self.address_mappings@[j])
                            <= mapping_flips(self.address_mappings@[i])
                    &&& forall|j: int|
                        i < j < self.address_mappings@.len() ==> mapping_flips(#[trigger] self.address_mappings@[j])
                            < mapping_flips(self.address_mappings@[i])
                },
    {
        if self.address_mappings.len() == 0 {
            return None;
        }
        let mut best: usize = 0;
        assert(mapping_flips(self.address_mappings@[0]) <= usize::MAX);
        let mut best_count: usize = self.address_mappings[0].count_bitflips();
        let mut i: usize = 1;
        while i < self.address_mappings.len()
            invariant
                1 <= i <= self.address_mappings@.len(),
                best < i,
                countable(self.address_mappings@),
                best_count == mapping_flips(self.address_mappings@[best as int]),
                forall|j: int| 0 <= j < i ==> mapping_flips(#[trigger] self.address_mappings@[j]) <= best_count,
                forall|j: int| best < j < i ==> mapping_flips(#[trigger] self.address_mappings@[j]) < best_count,
            decreases self.address_mappings@.len() - i,
        {
            assert(mapping_flips(self.address_mappings@[i as int]) <= usize::MAX);
            let count = self.address_mappings[i].count_bitflips();
            if count >= best_count {
                best = i;
                best_count = count;
            }
            i += 1;
        }
        Some(&self.address_mappings[best])
    }

    /// Finds an address mapping by its identifier: the first one that has it.
    pub fn find_mapping(&self, mapping_id: &str) -> (r: Option<&PatternAddressMapper>)
        ensures
            match r {
                Some(m) => exists|i: int|
                    0 <= i < self.address_mappings@.len() && (#[trigger] self.address_mappings@[i]) == *m && m.id@
                        == mapping_id@ && forall|j: int|
                        0 <= j < i ==> (#[trigger] self.address_mappings@[j]).id@ != mapping_id@,
                None => forall|j: int|
                    0 <= j < self.address_mappings@.len() ==> (#[trigger] self.address_mappings@[j]).id@
                        != mapping_id@,
            },
    {
        let wanted: String = mapping_id.to_owned();
        let mut i: usize = 0;
        while i < self.address_mappings.len()
            invariant
                i <= self.address_mappings@.len(),
                wanted@ == mapping_id@,
                forall|j: int| 0 <= j < i ==> (#[trigger] self.address_mappings@[j]).id@ != mapping_id@,
            decreases self.address_mappings@.len() - i,
        {
            if self.address_mappings[i].id == wanted {
                return Some(&self.address_mappings[i]);
            }
            i += 1;
        }
        None
    }

    /// The activations of the pattern in one refresh interval.
    pub fn acts_per_tref(&self) -> (r: Option<u32>)
        ensures
            r == (if self.num_refresh_intervals == 0 {
                None
            } else {
                Some((self.total_activations / self.num_refresh_intervals) as u32)
            }),
    {
        if self.num_refresh_intervals == 0 {
            None
        } else {
            Some(self.total_activations / self.num_refresh_intervals)
        }
    }
}


/// Whether `entries` lists the map: each key once, with its address.
pub open spec fn lists(m: Map<u64, DRAMAddr>, entries: Seq<(Aggressor, DRAMAddr)>) -> bool {
    &&& forall|i: int|
        0 <= i < entries.len() ==> m.contains_key((#[trigger] entries[i]).0.0) && m[entries[i].0.0] == entries[i].1
    &&& forall|i: int, j: int| 0 <= i < j < entries.len() ==> (#[trigger] entries[i]).0 != (#[trigger] entries[j]).0
    &&& forall|k: u64|
        #[trigger] m.contains_key(k) ==> exists|i: int| 0 <= i < entries.len() && (#[trigger] entries[i]).0.0 == k
}

/// The address that a listing of a map gives for an aggressor is that of the map.
proof fn lemma_lookup_lists(m: Map<u64, DRAMAddr>, entries: Seq<(Aggressor, DRAMAddr)>, aggressor: Aggressor, n: nat)
    requires
        lists(m, entries),
        n <= entries.len(),
    ensures
        lookup(entries, aggressor, n) == (if exists|i: int| 0 <= i < n && (#[trigger] entries[i]).0 == aggressor {
            Some(m[aggressor.0])
        } else {
            None
        }),
        n == entries.len() ==> lookup(entries, aggressor, n) == (if m.contains_key(aggressor.0) {
            Some(m[aggressor.0])
        } else {
            None
        }),
    decreases n,
{
    if n > 0 {
        lemma_lookup_lists(m, entries, aggressor, (n - 1) as nat);
        if entries[n - 1].0 == aggressor {
            assert(m[entries[n - 1].0.0] == entries[n - 1].1);
        } else {
            if exists|i: int| 0 <= i < n && (#[trigger] entries[i]).0 == aggressor {
                let i = choose|i: int| 0 <= i < n && (#[trigger] entries[i]).0 == aggressor;
                assert(i < n - 1);
            }
        }
    }
    if n == entries.len() {
        if m.contains_key(aggressor.0) {
            let i = choose|i: int| 0 <= i < entries.len() && (#[trigger] entries[i]).0.0 == aggressor.0;
            assert(entries[i].0 == aggressor);
        } else {
            if exists|i: int| 0 <= i < n && (#[trigger] entries[i]).0 == aggressor {
                let i = choose|i: int| 0 <= i < n && (#[trigger] entries[i]).0 == aggressor;
                assert(m.contains_key(entries[i].0.0));
            }
        }
    }
}

/// The entries of a map in the order in which the map is walked.
fn entries_of(map: &HashMap<u64, DRAMAddr>) -> (r: Vec<(Aggressor, DRAMAddr)>)
    ensures
        lists(map@, r@),
{
    broadcast use vstd::std_specs::hash::group_hash_axioms;

    let mut out: Vec<(Aggressor, DRAMAddr)> = Vec::new();
    let ghost keys = map.keys().remaining().unref();
    assert(keys.to_set() == map@.dom());
    assert(keys.no_duplicates());
    for k in it: map.keys()
        invariant
            it.seq().unref() == keys,
            keys.to_set() == map@.dom(),
            keys.no_duplicates(),
            out@.len() == it.index(),
            forall|i: int|
                0 <= i < out@.len() ==> (#[trigger] out@[i]).0.0 == keys[i] && map@.contains_key(keys[i]) && out@[i].1
                    == map@[keys[i]],
    {
        proof {
            assert(keys[it.index() as int] == *k);
            assert(keys.contains(*k));
            assert(keys.to_set().contains(*k));
        }
        match map.get(k) {
            Some(addr) => {
                out.push((Aggressor(*k), *addr));
            },
            None => {
                assert(false);
            },
        }
    }
    proof {
        assert forall|k: u64| #[trigger] map@.contains_key(k) implies exists|i: int|
            0 <= i < out@.len() && (#[trigger] out@[i]).0.0 == k by {
            assert(keys.to_set().contains(k));
            let i = choose|i: int| 0 <= i < keys.len() && keys[i] == k;
            assert(out@[i].0.0 == k);
        }
    }
    out
}

} // verus!
