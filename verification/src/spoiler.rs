//! The timing side-channel strategy: finding peaks in the timing differences
//! of a probe buffer, the candidate regions they delimit, and the blocks of a
//! round that are kept.
use vstd::prelude::*;
use core::ops::Range;
use crate::constants::PAGE_SIZE;
use crate::dram_addr::{DRAMAddr, spec_from_virt};
use crate::intervals::{Intervals, covered};
use crate::mem_configuration::MemConfiguration;
use crate::memblock::{Memory, PfnOffset, blocks_ascend, record_gaps, spec_gaps};
use crate::phys_addr::PhysAddr;
use crate::allocator::{SizeError, block_count, size_fault};
use crate::size::Size;

verus! {

/// Lower bound of the band of timing differences that count as a peak.
pub const THRESH_LOW: u64 = 400;

/// Upper bound, exclusive, of the band of timing differences that count as a peak.
pub const THRESH_HIGH: u64 = 800;

/// Bytes in one MiB.
pub const MB_BYTES: usize = 1048576;

/// Pages in one MiB.
pub const PAGES_PER_MB: usize = 256;

/// Length of the blocks that the strategy hands out.
pub const BLOCK_LEN: usize = 4194304;

/// Length of the physically contiguous region that a candidate covers.
pub const CONT_SIZE: usize = 8388608;

/// Pages that a candidate covers.
pub const CONT_PAGES: usize = 2048;

/// Length of the probe buffer of a round.
pub const SEARCH_BUFFER_SIZE: usize = 2147483648;

/// Length of the buffer that collects small page blocks before a round.
pub const DUMMY_BUF_SIZE: usize = 2147483648;

/// The indices, in ascending order, of the values that lie in `[low, high)`.
pub open spec fn spec_peaks(values: Seq<u64>, low: u64, high: u64) -> Seq<usize>
    decreases values.len(),
{
    if values.len() == 0 {
        Seq::empty()
    } else {
        let before = spec_peaks(values.drop_last(), low, high);
        if low <= values.last() < high {
            before.push((values.len() - 1) as usize)
        } else {
            before
        }
    }
}

/// The peaks are indices into the values, in strictly ascending order.
pub proof fn lemma_peaks_ascending(values: Seq<u64>, low: u64, high: u64)
    requires
        values.len() <= usize::MAX,
    ensures
        spec_peaks(values, low, high).len() <= values.len(),
        forall|i: int|
            0 <= i < spec_peaks(values, low, high).len() ==> (#[trigger] spec_peaks(values, low, high)[i])
                < values.len(),
        forall|i: int, j: int|
            0 <= i < j < spec_peaks(values, low, high).len() ==> spec_peaks(values, low, high)[i] < spec_peaks(
                values,
                low,
                high,
            )[j],
    decreases values.len(),
{
    if values.len() > 0 {
        lemma_peaks_ascending(values.drop_last(), low, high);
    }
}

/// Returns the indices of the values that lie in `[low, high)`.
pub fn peaks_indices(values: &Vec<u64>, low: u64, high: u64) -> (r: Vec<usize>)
    ensures
        r@ == spec_peaks(values@, low, high),
{
    let mut peaks: Vec<usize> = Vec::new();
    let mut i: usize = 0;
    while i < values.len()
        invariant
            i <= values.len(),
            peaks@ == spec_peaks(values@.take(i as int), low, high),
        decreases values.len() - i,
    {
        proof {
            assert(values@.take(i as int + 1).drop_last() =~= values@.take(i as int));
        }
        if low <= values[i] && values[i] < high {
            peaks.push(i);
        }
        i += 1;
    }
    assert(values@.take(i as int) =~= values@);
    peaks
}

/// Whether the `w + 1` peaks from index `s` on lie one MiB apart each.
pub open spec fn window_ok(peaks: Seq<usize>, s: int, w: int) -> bool {
    forall|k: int| s <= k < s + w ==> #[trigger] peaks[k + 1] - peaks[k] == PAGES_PER_MB
}

/// The candidates among the first `n` windows of `w` distances between peaks.
pub open spec fn candidates_upto(peaks: Seq<usize>, w: int, n: nat) -> Seq<Range<usize>>
    decreases n,
{
    if n == 0 {
        Seq::empty()
    } else {
        let before = candidates_upto(peaks, w, (n - 1) as nat);
        let s = n - 1;
        if window_ok(peaks, s, w) {
            before.push(Range { start: peaks[s], end: peaks[s + w] })
        } else {
            before
        }
    }
}

/// The number of windows of `w` distances between `len` peaks.
pub open spec fn window_count(len: int, w: int) -> nat {
    if len > w {
        (len - w) as nat
    } else {
        0
    }
}

/// The candidate regions: for every run of `w + 1` peaks that lie one MiB
/// apart each, the range from the first to the last of them, in ascending
/// order of the first peak.
pub open spec fn spec_candidates(peaks: Seq<usize>, w: int) -> Seq<Range<usize>> {
    candidates_upto(peaks, w, window_count(peaks.len() as int, w))
}

/// The peaks of a window that is a candidate span `w` MiB.
pub proof fn lemma_window_span(peaks: Seq<usize>, s: int, w: int, k: int)
    requires
        0 <= s,
        0 <= k <= w,
        s + w < peaks.len(),
        window_ok(peaks, s, w),
    ensures
        peaks[s + k] - peaks[s] == k * PAGES_PER_MB,
    decreases k,
{
    if k > 0 {
        lemma_window_span(peaks, s, w, k - 1);
        assert(peaks[(s + k - 1) + 1] - peaks[s + k - 1] == PAGES_PER_MB);
        assert(k * PAGES_PER_MB == (k - 1) * PAGES_PER_MB + PAGES_PER_MB) by (nonlinear_arith);
    }
}

/// Every candidate covers `w` MiB and ends at a peak.
pub proof fn lemma_candidates_span(peaks: Seq<usize>, w: int, n: nat)
    requires
        0 <= w,
        n <= window_count(peaks.len() as int, w),
    ensures
        candidates_upto(peaks, w, n).len() <= n,
        forall|i: int|
            0 <= i < candidates_upto(peaks, w, n).len() ==> {
                let c = #[trigger] candidates_upto(peaks, w, n)[i];
                &&& c.end - c.start == w * PAGES_PER_MB
                &&& exists|k: int| 0 <= k < peaks.len() && peaks[k] == c.end
            },
    decreases n,
{
    if n > 0 {
        lemma_candidates_span(peaks, w, (n - 1) as nat);
        let s = n - 1;
        if window_ok(peaks, s, w) {
            lemma_window_span(peaks, s, w, w);
            let c = Range { start: peaks[s], end: peaks[s + w] };
            assert(peaks[s + w] == c.end);
        }
    }
}

/// Whether the `w` distances from peak `s` on are one MiB each.
fn window_matches(peaks: &Vec<usize>, s: usize, w: usize) -> (r: bool)
    requires
        s + w < peaks@.len(),
    ensures
        r == window_ok(peaks@, s as int, w as int),
{
    let len: usize = peaks.len();
    let mut k: usize = s;
    while k < s + w
        invariant
            s <= k <= s + w,
            s + w < len,
            len == peaks@.len(),
            forall|j: int| s <= j < k ==> #[trigger] peaks@[j + 1] - peaks@[j] == PAGES_PER_MB,
        decreases s + w - k,
    {
        if peaks[k + 1] < peaks[k] || peaks[k + 1] - peaks[k] != PAGES_PER_MB {
            assert(peaks@[k as int + 1] - peaks@[k as int] != PAGES_PER_MB);
            return false;
        }
        k += 1;
    }
    true
}

/// Finds the candidates for physically contiguous regions among the peaks.
pub fn candidates_from_peaks(peaks: &Vec<usize>, w: usize) -> (r: Vec<Range<usize>>)
    ensures
        r@ == spec_candidates(peaks@, w as int),
{
    let mut out: Vec<Range<usize>> = Vec::new();
    if peaks.len() <= w {
        return out;
    }
    let len: usize = peaks.len();
    let n: usize = len - w;
    let mut s: usize = 0;
    while s < n
        invariant
            s <= n,
            len == peaks@.len(),
            n == len - w,
            out@ == candidates_upto(peaks@, w as int, s as nat),
        decreases n - s,
    {
        if window_matches(peaks, s, w) {
            out.push(Range { start: peaks[s], end: peaks[s + w] });
        }
        s += 1;
    }
    out
}

/// Finds the candidates for physically contiguous regions of
/// `continuous_size` bytes in the timing differences of a probe buffer, one
/// difference per page.
///
/// A page is a peak where its difference lies in the band from `THRESH_LOW`
/// up to `THRESH_HIGH`. A candidate is a run of peaks that lie exactly one
/// MiB apart and span `continuous_size`; it reaches from the page of the first
/// peak to the page of the last.
pub fn spoiler_candidates(diffs: &Vec<u64>, continuous_size: usize) -> (r: Vec<Range<usize>>)
    requires
        continuous_size > 0,
        continuous_size % MB_BYTES == 0,
    ensures
        r@ == spec_candidates(spec_peaks(diffs@, THRESH_LOW, THRESH_HIGH), continuous_size as int / MB_BYTES as int),
{
    let peaks = peaks_indices(diffs, THRESH_LOW, THRESH_HIGH);
    let cont_window_size: usize = continuous_size / MB_BYTES;
    candidates_from_peaks(&peaks, cont_window_size)
}


/// Timing threshold, in cycles, from which two accesses count as a bank conflict.
#[derive(Clone, Copy, Debug)]
pub struct ConflictThreshold(pub u64);

/// Why a round gives no block.
#[derive(Clone, Copy, Debug, PartialEq, Eq, Structural)]
pub enum SpoilerRoundError {
    /// The timing differences hold no candidate.
    NoCandidatesFound,
}

/// The timing side-channel strategy.
#[derive(Clone, Copy, Debug)]
pub struct Spoiler {
    /// The DRAM configuration that banks are decoded with.
    pub mem_config: MemConfiguration,
    /// The threshold of the bank-conflict check.
    pub conflict_threshold: ConflictThreshold,
}

/// What becomes of a block that a round found.
#[derive(Clone, Copy, Debug, PartialEq, Eq, Structural)]
pub enum BlockVerdict {
    /// The block joins the accepted ones.
    Accept,
    /// Enough blocks are accepted already: the block is released.
    Surplus,
    /// The timing shows no bank conflict with the reference block: the block
    /// is released.
    WrongBank,
    /// The timing shows a bank conflict, and the physical addresses decode to
    /// a bank other than that of the block accepted before.
    BankMismatch,
}

/// Whether one of the ranges holds `point`.
pub open spec fn hit(ranges: Seq<Range<usize>>, point: usize) -> bool {
    exists|i: int| 0 <= i < ranges.len() && (#[trigger] ranges[i]).start <= point < ranges[i].end
}

/// The candidates that are kept among the last `n`, taken from the highest
/// index down: a candidate is kept while fewer than `max` are, and where
/// neither its start nor its end lies in a candidate kept before.
pub open spec fn accepted_upto(cands: Seq<Range<usize>>, max: nat, n: nat) -> Seq<Range<usize>>
    decreases n,
{
    if n == 0 || n > cands.len() {
        Seq::empty()
    } else {
        let before = accepted_upto(cands, max, (n - 1) as nat);
        let c = cands[cands.len() - n];
        if before.len() >= max || hit(before, c.start) || hit(before, c.end) {
            before
        } else {
            before.push(c)
        }
    }
}

/// The candidates that a round keeps.
pub open spec fn accepted(cands: Seq<Range<usize>>, max: nat) -> Seq<Range<usize>> {
    accepted_upto(cands, max, cands.len())
}

/// The block that is cut from the probe buffer at page `start`.
pub open spec fn block_at(search_buffer: usize, start: usize) -> Memory {
    Memory {
        ptr: (search_buffer + start * PAGE_SIZE) as usize,
        len: BLOCK_LEN,
        pfn_offset: PfnOffset::Dynamic(None),
    }
}

/// Whether the candidates are as a round takes them: each covers
/// `CONT_PAGES` pages and ends within the probe buffer.
pub open spec fn candidates_fit(cands: Seq<Range<usize>>) -> bool {
    forall|i: int|
        0 <= i < cands.len() ==> (#[trigger] cands[i]).end - cands[i].start == CONT_PAGES && cands[i].end
            * PAGE_SIZE <= SEARCH_BUFFER_SIZE
}

/// Whether `blocks` are the blocks of the kept candidates `kept`, in
/// ascending order of their addresses.
pub open spec fn blocks_of(blocks: Seq<Memory>, kept: Seq<Range<usize>>, search_buffer: usize) -> bool {
    &&& blocks.len() == kept.len()
    &&& forall|j: int, k: int| 0 <= j < k < blocks.len() ==> blocks[j].ptr + BLOCK_LEN <= blocks[k].ptr
    &&& forall|k: int|
        0 <= k < blocks.len() ==> exists|i: int|
            0 <= i < kept.len() && #[trigger] blocks[k] == block_at(search_buffer, kept[i].start)
    &&& forall|i: int|
        0 <= i < kept.len() ==> exists|k: int|
            0 <= k < blocks.len() && blocks[k] == block_at(search_buffer, (#[trigger] kept[i]).start)
}

/// The hits of usize ranges are the cover of the same ranges as signed ones.
proof fn lemma_hit_covered(ranges: Seq<Range<usize>>, signed: Seq<Range<i64>>, point: usize)
    requires
        point <= i64::MAX,
        signed.len() == ranges.len(),
        forall|i: int|
            0 <= i < ranges.len() ==> (#[trigger] signed[i]).start == ranges[i].start && signed[i].end
                == ranges[i].end,
    ensures
        hit(ranges, point) == covered(signed, point as i64),
{
    if hit(ranges, point) {
        let i = choose|i: int| 0 <= i < ranges.len() && (#[trigger] ranges[i]).start <= point < ranges[i].end;
        assert(signed[i].start <= (point as i64) < signed[i].end);
    }
    if covered(signed, point as i64) {
        let i = choose|i: int|
            0 <= i < signed.len() && (#[trigger] signed[i]).start <= (point as i64) < signed[i].end;
        assert(ranges[i].start <= point < ranges[i].end);
    }
}

impl Spoiler {
    /// Creates the strategy for a DRAM configuration and a conflict threshold.
    pub fn new(mem_config: MemConfiguration, conflict_threshold: ConflictThreshold) -> (r: Self)
        ensures
            r.mem_config == mem_config,
            r.conflict_threshold == conflict_threshold,
    {
        Spoiler { mem_config, conflict_threshold }
    }

    /// The length of the blocks that the strategy hands out: 4 MiB.
    pub fn block_size(&self) -> (r: Size)
        ensures
            r == Size::MB(4),
    {
        Size::MB(4)
    }

    /// Checks the size of a request and gives the number of blocks that it
    /// takes. A size that is zero or no multiple of the block length is
    /// refused, before anything is mapped or measured.
    pub fn check_size(size: Size) -> (r: Result<usize, SizeError>)
        ensures
            r is Ok <==> size.fits() && size.spec_bytes() > 0 && size.spec_bytes() % (BLOCK_LEN as int) == 0,
            r is Ok ==> r->Ok_0 == size.spec_bytes() / (BLOCK_LEN as int),
            r is Err ==> size_fault(size, BLOCK_LEN) == Some(r->Err_0),
    {
        block_count(size, BLOCK_LEN)
    }

    /// Decides what becomes of a block that a round found.
    ///
    /// `have` blocks are accepted so far and `required` are asked for. `timing`
    /// is the time of alternating accesses to the block and the reference
    /// block. `phys` and `last_phys` are the physical addresses of the block and
    /// of the block accepted last, where both could be resolved.
    pub fn judge_block(
        &self,
        have: usize,
        required: usize,
        timing: u64,
        phys: Option<PhysAddr>,
        last_phys: Option<PhysAddr>,
    ) -> (r: BlockVerdict)
        requires
            self.mem_config.shifts_ok(),
        ensures
            r == (if have >= required {
                BlockVerdict::Surplus
            } else if timing < self.conflict_threshold.0 {
                BlockVerdict::WrongBank
            } else if phys.is_some() && last_phys.is_some() && spec_from_virt(phys.unwrap().0, self.mem_config).bank
                != spec_from_virt(last_phys.unwrap().0, self.mem_config).bank {
                BlockVerdict::BankMismatch
            } else {
                BlockVerdict::Accept
            }),
    {
        if have >= required {
            return BlockVerdict::Surplus;
        }
        if timing < self.conflict_threshold.0 {
            return BlockVerdict::WrongBank;
        }
        match (phys, last_phys) {
            (Some(p), Some(l)) => {
                let bank = DRAMAddr::from_virt(p.0, &self.mem_config).bank;
                let last_bank = DRAMAddr::from_virt(l.0, &self.mem_config).bank;
                if bank != last_bank {
                    BlockVerdict::BankMismatch
                } else {
                    BlockVerdict::Accept
                }
            },
            _ => BlockVerdict::Accept,
        }
    }

    /// Chooses the blocks of a round among the candidates of its probe buffer
    /// and records the spans of the buffer that stay unused.
    ///
    /// The candidates are taken from the last to the first. A candidate is
    /// kept while fewer than `max_candidates` are, and where neither its start
    /// nor its end lies in a candidate kept before. Each kept candidate gives
    /// one block of `BLOCK_LEN` bytes at its start. The blocks come back in
    /// ascending order of their addresses. The spans of the probe buffer
    /// before, between and behind them are appended to `trash_buffers`; where
    /// there is no candidate at all, that is the whole buffer, and the round
    /// fails.
    pub fn spoiler_round(
        &self,
        search_buffer: usize,
        candidates: &Vec<Range<usize>>,
        max_candidates: usize,
        trash_buffers: &mut Vec<Memory>,
    ) -> (r: Result<Vec<Memory>, SpoilerRoundError>)
        requires
            search_buffer + SEARCH_BUFFER_SIZE <= usize::MAX,
            candidates_fit(candidates@),
        ensures
            r is Err <==> candidates@.len() == 0,
            r is Ok ==> blocks_of(r->Ok_0@, accepted(candidates@, max_candidates as nat), search_buffer),
            final(trash_buffers)@ == old(trash_buffers)@ + spec_gaps(
                if r is Ok {
                    r->Ok_0@
                } else {
                    Seq::empty()
                },
                search_buffer as int,
                search_buffer + SEARCH_BUFFER_SIZE,
            ),
    {
        if candidates.len() == 0 {
            trash_buffers.push(Memory::new(search_buffer, SEARCH_BUFFER_SIZE));
            return Err(SpoilerRoundError::NoCandidatesFound);
        }
        let blocks = select_blocks(search_buffer, candidates, max_candidates);
        record_gaps(&blocks, search_buffer, search_buffer + SEARCH_BUFFER_SIZE, trash_buffers);
        Ok(blocks)
    }

    /// Runs the choice of a round on the timing differences of its probe
    /// buffer, one difference per page: finds the candidates of `CONT_SIZE`
    /// bytes and chooses the blocks among them.
    pub fn round_from_diffs(
        &self,
        search_buffer: usize,
        diffs: &Vec<u64>,
        max_candidates: usize,
        trash_buffers: &mut Vec<Memory>,
    ) -> (r: Result<Vec<Memory>, SpoilerRoundError>)
        requires
            search_buffer + SEARCH_BUFFER_SIZE <= usize::MAX,
            diffs@.len() * PAGE_SIZE <= SEARCH_BUFFER_SIZE,
        ensures
            r is Err <==> round_candidates(diffs@).len() == 0,
            r is Ok ==> blocks_of(r->Ok_0@, accepted(round_candidates(diffs@), max_candidates as nat), search_buffer),
            final(trash_buffers)@ == old(trash_buffers)@ + spec_gaps(
                if r is Ok {
                    r->Ok_0@
                } else {
                    Seq::empty()
                },
                search_buffer as int,
                search_buffer + SEARCH_BUFFER_SIZE,
            ),
    {
        let candidates = spoiler_candidates(diffs, CONT_SIZE);
        proof {
            lemma_round_candidates_fit(diffs@);
        }
        self.spoiler_round(search_buffer, &candidates, max_candidates, trash_buffers)
    }
}

/// The candidates of a round: those of `CONT_SIZE` bytes in the timing
/// differences of its probe buffer.
pub open spec fn round_candidates(diffs: Seq<u64>) -> Seq<Range<usize>> {
    spec_candidates(spec_peaks(diffs, THRESH_LOW, THRESH_HIGH), CONT_SIZE as int / MB_BYTES as int)
}

/// The candidates in the differences of a probe buffer fit a round.
pub proof fn lemma_round_candidates_fit(diffs: Seq<u64>)
    requires
        diffs.len() * PAGE_SIZE <= SEARCH_BUFFER_SIZE,
    ensures
        candidates_fit(round_candidates(diffs)),
{
    let peaks = spec_peaks(diffs, THRESH_LOW, THRESH_HIGH);
    let w = CONT_SIZE as int / MB_BYTES as int;
    assert(w == 8);
    let n = window_count(peaks.len() as int, w);
    lemma_peaks_ascending(diffs, THRESH_LOW, THRESH_HIGH);
    lemma_candidates_span(peaks, w, n);
    let cands = round_candidates(diffs);
    assert forall|i: int| 0 <= i < cands.len() implies (#[trigger] cands[i]).end - cands[i].start == CONT_PAGES
        && cands[i].end * PAGE_SIZE <= SEARCH_BUFFER_SIZE by {
        let c = cands[i];
        let k = choose|k: int| 0 <= k < peaks.len() && peaks[k] == c.end;
        assert(peaks[k] < diffs.len());
    }
}

/// Whether each kept candidate covers `CONT_PAGES` pages and ends within
/// the probe buffer.
pub open spec fn kept_fit(kept: Seq<Range<usize>>) -> bool {
    forall|i: int|
        0 <= i < kept.len() ==> (#[trigger] kept[i]).end == kept[i].start + CONT_PAGES && kept[i].end * PAGE_SIZE
            <= SEARCH_BUFFER_SIZE
}

/// Whether `starts` holds the starts of the kept candidates in ascending
/// order, a whole candidate apart each.
pub open spec fn starts_match(starts: Seq<usize>, kept: Seq<Range<usize>>) -> bool {
    &&& starts.len() == kept.len()
    &&& spaced(starts)
    &&& starts_kept(starts, kept)
    &&& kept_started(starts, kept)
}

/// Whether `starts` lies in ascending order, a whole candidate apart each.
pub open spec fn spaced(starts: Seq<usize>) -> bool {
    forall|j: int, k: int| 0 <= j < k < starts.len() ==> starts[j] + CONT_PAGES <= starts[k]
}

/// Whether every start is the start of a kept candidate.
pub open spec fn starts_kept(starts: Seq<usize>, kept: Seq<Range<usize>>) -> bool {
    forall|k: int| 0 <= k < starts.len() ==> starts_at(kept, #[trigger] starts[k])
}

/// Whether a kept candidate starts at `page`.
pub open spec fn starts_at(kept: Seq<Range<usize>>, page: usize) -> bool {
    exists|i: int| 0 <= i < kept.len() && (#[trigger] kept[i]).start == page
}

/// Whether `page` is among the starts.
pub open spec fn among(starts: Seq<usize>, page: usize) -> bool {
    exists|k: int| 0 <= k < starts.len() && #[trigger] starts[k] == page
}

/// Whether the start of every kept candidate is among the starts.
pub open spec fn kept_started(starts: Seq<usize>, kept: Seq<Range<usize>>) -> bool {
    forall|i: int| 0 <= i < kept.len() ==> among(starts, (#[trigger] kept[i]).start)
}

/// Whether a page lies a whole candidate away from every start.
pub open spec fn clear_of(starts: Seq<usize>, page: usize) -> bool {
    forall|k: int|
        0 <= k < starts.len() ==> (#[trigger] starts[k]) + CONT_PAGES <= page || page + CONT_PAGES < starts[k]
}

/// A candidate that no kept one holds at its start or end lies a whole
/// candidate away from every kept start.
proof fn lemma_clear_of(starts: Seq<usize>, kept: Seq<Range<usize>>, c: Range<usize>)
    requires
        starts_kept(starts, kept),
        kept_fit(kept),
        c.end == c.start + CONT_PAGES,
        !hit(kept, c.start),
        !hit(kept, c.end),
    ensures
        clear_of(starts, c.start),
{
    assert forall|k: int| 0 <= k < starts.len() implies (#[trigger] starts[k]) + CONT_PAGES <= c.start || c.start
        + CONT_PAGES < starts[k] by {
        assert(starts_at(kept, starts[k]));
        let i = choose|i: int| 0 <= i < kept.len() && (#[trigger] kept[i]).start == starts[k];
        assert(kept[i].end == kept[i].start + CONT_PAGES);
        assert(!(kept[i].start <= c.start < kept[i].end));
        assert(!(kept[i].start <= c.end < kept[i].end));
    }
}

/// A page that is clear of the starts keeps them spaced at its place.
proof fn lemma_spaced_insert(starts: Seq<usize>, page: usize, pos: int)
    requires
        spaced(starts),
        clear_of(starts, page),
        0 <= pos <= starts.len(),
        forall|k: int| 0 <= k < pos ==> starts[k] < page,
        pos < starts.len() ==> starts[pos] >= page,
    ensures
        spaced(starts.insert(pos, page)),
{
    let new_starts = starts.insert(pos, page);
    assert forall|j: int, k: int| 0 <= j < k < new_starts.len() implies new_starts[j] + CONT_PAGES
        <= new_starts[k] by {
        if k < pos {
            assert(new_starts[j] == starts[j] && new_starts[k] == starts[k]);
        } else if k == pos {
            assert(new_starts[j] == starts[j]);
            assert(starts[j] < page);
        } else if j < pos {
            assert(new_starts[j] == starts[j] && new_starts[k] == starts[k - 1]);
        } else if j == pos {
            assert(new_starts[k] == starts[k - 1]);
            assert(starts[pos] >= page);
            if pos < k - 1 {
                assert(starts[pos] + CONT_PAGES <= starts[k - 1]);
            }
        } else {
            assert(new_starts[j] == starts[j - 1] && new_starts[k] == starts[k - 1]);
        }
    }
}

proof fn lemma_starts_kept_insert(starts: Seq<usize>, kept: Seq<Range<usize>>, c: Range<usize>, pos: int)
    requires
        starts_kept(starts, kept),
        0 <= pos <= starts.len(),
    ensures
        starts_kept(starts.insert(pos, c.start), kept.push(c)),
{
    let new_starts = starts.insert(pos, c.start);
    let new_kept = kept.push(c);
    assert forall|k: int| 0 <= k < new_starts.len() implies starts_at(new_kept, #[trigger] new_starts[k]) by {
        if k == pos {
            assert(new_kept[kept.len() as int].start == new_starts[k]);
        } else {
            let ko = if k < pos { k } else { k - 1 };
            assert(new_starts[k] == starts[ko]);
            assert(starts_at(kept, starts[ko]));
            let i = choose|i: int| 0 <= i < kept.len() && (#[trigger] kept[i]).start == starts[ko];
            assert(new_kept[i].start == new_starts[k]);
        }
    }
}

proof fn lemma_kept_started_insert(starts: Seq<usize>, kept: Seq<Range<usize>>, c: Range<usize>, pos: int)
    requires
        kept_started(starts, kept),
        0 <= pos <= starts.len(),
    ensures
        kept_started(starts.insert(pos, c.start), kept.push(c)),
{
    let new_starts = starts.insert(pos, c.start);
    let new_kept = kept.push(c);
    assert forall|i: int| 0 <= i < new_kept.len() implies among(new_starts, (#[trigger] new_kept[i]).start) by {
        if i == kept.len() {
            assert(new_starts[pos] == new_kept[i].start);
        } else {
            assert(new_kept[i] == kept[i]);
            assert(among(starts, kept[i].start));
            let ko = choose|k: int| 0 <= k < starts.len() && #[trigger] starts[k] == kept[i].start;
            let k = if ko < pos { ko } else { ko + 1 };
            assert(new_starts[k] == new_kept[i].start);
        }
    }
}

/// A candidate that no kept one holds at its start or end can take its
/// place among the kept starts.
proof fn lemma_insert_start(starts: Seq<usize>, kept: Seq<Range<usize>>, c: Range<usize>, pos: int)
    requires
        starts_match(starts, kept),
        kept_fit(kept),
        c.end == c.start + CONT_PAGES,
        c.end * PAGE_SIZE <= SEARCH_BUFFER_SIZE,
        !hit(kept, c.start),
        !hit(kept, c.end),
        0 <= pos <= starts.len(),
        forall|k: int| 0 <= k < pos ==> starts[k] < c.start,
        pos < starts.len() ==> starts[pos] >= c.start,
    ensures
        starts_match(starts.insert(pos, c.start), kept.push(c)),
        kept_fit(kept.push(c)),
{
    lemma_clear_of(starts, kept, c);
    lemma_spaced_insert(starts, c.start, pos);
    lemma_starts_kept_insert(starts, kept, c, pos);
    lemma_kept_started_insert(starts, kept, c, pos);
    let new_kept = kept.push(c);
    assert forall|i: int| 0 <= i < new_kept.len() implies (#[trigger] new_kept[i]).end == new_kept[i].start
        + CONT_PAGES && new_kept[i].end * PAGE_SIZE <= SEARCH_BUFFER_SIZE by {
        if i < kept.len() {
            assert(new_kept[i] == kept[i]);
        }
    }
}

/// The blocks at starts that match the kept candidates are the blocks of
/// those candidates, in ascending order within the probe buffer.
proof fn lemma_blocks_of_starts(blocks: Seq<Memory>, starts: Seq<usize>, kept: Seq<Range<usize>>, search_buffer: usize)
    requires
        search_buffer + SEARCH_BUFFER_SIZE <= usize::MAX,
        starts_match(starts, kept),
        kept_fit(kept),
        blocks.len() == starts.len(),
        forall|j: int| 0 <= j < blocks.len() ==> #[trigger] blocks[j] == block_at(search_buffer, starts[j]),
    ensures
        blocks_of(blocks, kept, search_buffer),
        blocks_ascend(blocks, search_buffer as int, search_buffer + SEARCH_BUFFER_SIZE),
{
    let b = blocks;
    assert forall|k: int| 0 <= k < b.len() implies starts[k] * PAGE_SIZE + CONT_SIZE <= SEARCH_BUFFER_SIZE by {
        let sk = starts[k];
        assert(starts_at(kept, starts[k]));
        let i = choose|i: int| 0 <= i < kept.len() && (#[trigger] kept[i]).start == starts[k];
        assert(kept[i].end == kept[i].start + CONT_PAGES && kept[i].end * PAGE_SIZE <= SEARCH_BUFFER_SIZE);
        assert(sk * PAGE_SIZE + CONT_SIZE <= SEARCH_BUFFER_SIZE) by (nonlinear_arith)
            requires
                (sk + CONT_PAGES) * PAGE_SIZE <= SEARCH_BUFFER_SIZE,
                PAGE_SIZE == 4096,
                CONT_PAGES == 2048,
                CONT_SIZE == 8388608,
        ;
    }
    assert forall|j: int, k: int| 0 <= j < k < b.len() implies b[j].ptr + BLOCK_LEN <= b[k].ptr && b[j].ptr
        + b[j].len <= b[k].ptr by {
        let sj = starts[j];
        let sk = starts[k];
        assert(b[j] == block_at(search_buffer, sj));
        assert(b[k] == block_at(search_buffer, sk));
        assert(starts[j] * PAGE_SIZE + CONT_SIZE <= SEARCH_BUFFER_SIZE);
        assert(starts[k] * PAGE_SIZE + CONT_SIZE <= SEARCH_BUFFER_SIZE);
        assert(sj * PAGE_SIZE + CONT_SIZE <= sk * PAGE_SIZE) by (nonlinear_arith)
            requires
                sj + CONT_PAGES <= sk,
                PAGE_SIZE == 4096,
                CONT_PAGES == 2048,
                CONT_SIZE == 8388608,
        ;
    }
    assert forall|k: int| 0 <= k < b.len() implies search_buffer <= (#[trigger] b[k]).ptr && b[k].ptr
        + b[k].len <= search_buffer + SEARCH_BUFFER_SIZE by {
        assert(b[k] == block_at(search_buffer, starts[k]));
        assert(starts[k] * PAGE_SIZE + CONT_SIZE <= SEARCH_BUFFER_SIZE);
    }
    assert forall|k: int| 0 <= k < b.len() implies exists|i: int|
        0 <= i < kept.len() && #[trigger] b[k] == block_at(search_buffer, kept[i].start) by {
        assert(starts_at(kept, starts[k]));
        let i = choose|i: int| 0 <= i < kept.len() && (#[trigger] kept[i]).start == starts[k];
        assert(b[k] == block_at(search_buffer, kept[i].start));
    }
    assert forall|i: int| 0 <= i < kept.len() implies exists|k: int|
        0 <= k < b.len() && b[k] == block_at(search_buffer, (#[trigger] kept[i]).start) by {
        assert(among(starts, kept[i].start));
        let k = choose|k: int| 0 <= k < starts.len() && #[trigger] starts[k] == kept[i].start;
        assert(b[k] == block_at(search_buffer, kept[i].start));
    }
}

/// Chooses the blocks of a round: those of the kept candidates, in ascending
/// order of their addresses.
pub fn select_blocks(search_buffer: usize, candidates: &Vec<Range<usize>>, max_candidates: usize) -> (r: Vec<
    Memory,
>)
    requires
        search_buffer + SEARCH_BUFFER_SIZE <= usize::MAX,
        candidates_fit(candidates@),
    ensures
        blocks_of(r@, accepted(candidates@, max_candidates as nat), search_buffer),
        blocks_ascend(r@, search_buffer as int, search_buffer + SEARCH_BUFFER_SIZE),
{
    let mut starts: Vec<usize> = Vec::new();
    let mut intervals = Intervals::new();
    let ghost mut kept: Seq<Range<usize>> = Seq::empty();
    let len: usize = candidates.len();
    let mut n: usize = 0;
    while n < len
        invariant
            n <= len,
            len == candidates@.len(),
            candidates_fit(candidates@),
            kept == accepted_upto(candidates@, max_candidates as nat, n as nat),
            intervals@.len() == kept.len(),
            forall|i: int|
                0 <= i < kept.len() ==> (#[trigger] intervals@[i]).start == kept[i].start && intervals@[i].end
                    == kept[i].end,
            kept_fit(kept),
            starts_match(starts@, kept),
        decreases len - n,
    {
        let c_start: usize = candidates[len - 1 - n].start;
        let c_end: usize = candidates[len - 1 - n].end;
        let ghost c = candidates@[len - 1 - n];
        assert(c.end - c.start == CONT_PAGES && c.end * PAGE_SIZE <= SEARCH_BUFFER_SIZE);
        assert(c_end <= SEARCH_BUFFER_SIZE) by (nonlinear_arith)
            requires
                c_end * PAGE_SIZE <= SEARCH_BUFFER_SIZE,
                PAGE_SIZE == 4096,
        ;
        proof {
            lemma_hit_covered(kept, intervals@, c_start);
            lemma_hit_covered(kept, intervals@, c_end);
        }
        if starts.len() < max_candidates && !intervals.contains(c_start as i64) && !intervals.contains(
            c_end as i64,
        ) {
            // Find the place of the new start among the kept ones.
            let mut pos: usize = 0;
            while pos < starts.len() && starts[pos] < c_start
                invariant
                    pos <= starts@.len(),
                    forall|k: int| 0 <= k < pos ==> starts@[k] < c_start,
                decreases starts@.len() - pos,
            {
                pos += 1;
            }
            proof {
                lemma_insert_start(starts@, kept, c, pos as int);
                kept = kept.push(c);
            }
            starts.insert(pos, c_start);
            intervals.add(Range { start: c_start as i64, end: c_end as i64 });
        }
        n += 1;
    }
    // Cut one block at each kept start.
    let mut blocks: Vec<Memory> = Vec::new();
    let mut k: usize = 0;
    while k < starts.len()
        invariant
            k <= starts@.len(),
            search_buffer + SEARCH_BUFFER_SIZE <= usize::MAX,
            blocks@.len() == k,
            forall|j: int| 0 <= j < k ==> #[trigger] blocks@[j] == block_at(search_buffer, starts@[j]),
            starts_match(starts@, kept),
            kept_fit(kept),
        decreases starts@.len() - k,
    {
        let s: usize = starts[k];
        proof {
            assert(starts_at(kept, starts@[k as int]));
            let i = choose|i: int| 0 <= i < kept.len() && (#[trigger] kept[i]).start == starts@[k as int];
            assert(kept[i].end == kept[i].start + CONT_PAGES && kept[i].end * PAGE_SIZE <= SEARCH_BUFFER_SIZE);
            assert(s * PAGE_SIZE + CONT_SIZE <= SEARCH_BUFFER_SIZE) by (nonlinear_arith)
                requires
                    (s + CONT_PAGES) * PAGE_SIZE <= SEARCH_BUFFER_SIZE,
                    PAGE_SIZE == 4096,
                    CONT_PAGES == 2048,
                    CONT_SIZE == 8388608,
            ;
        }
        blocks.push(Memory::new(search_buffer + s * PAGE_SIZE, BLOCK_LEN));
        k += 1;
    }
    proof {
        lemma_blocks_of_starts(blocks@, starts@, kept, search_buffer);
    }
    blocks
}

} // verus!
