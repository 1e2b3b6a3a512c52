use swage::allocator::SizeError;
use swage::intervals::Intervals;
use swage::size::Size;
use swage::memblock::Memory;
use swage::mem_configuration::MemConfiguration;
use swage::spoiler::{
    candidates_from_peaks, peaks_indices, spoiler_candidates, ConflictThreshold, Spoiler,
    SpoilerRoundError, BLOCK_LEN, SEARCH_BUFFER_SIZE,
};

#[test]
fn test_intervals() {
    let mut intervals = Intervals::new();
    intervals.add(0..10);
    intervals.add(10..20);
    intervals.add(31..41);
    for i in -10..0 {
        assert!(!intervals.contains(i));
    }
    for i in 0..20 {
        assert!(intervals.contains(i));
    }
    for i in 20..31 {
        assert!(!intervals.contains(i));
    }
    for i in 31..41 {
        assert!(intervals.contains(i));
    }
    for i in 41..=50 {
        assert!(!intervals.contains(i));
    }
}

#[test]
fn peaks_lie_in_the_band() {
    let values = vec![399, 400, 600, 799, 800, 0, 450];
    assert_eq!(peaks_indices(&values, 400, 800), vec![1, 2, 3, 6]);
    assert_eq!(peaks_indices(&vec![], 400, 800), Vec::<usize>::new());
}

#[test]
fn candidates_need_evenly_spaced_peaks() {
    // Nine peaks one MiB apart give one window of eight distances.
    let peaks: Vec<usize> = (0..9).map(|i| 100 + i * 256).collect();
    assert_eq!(candidates_from_peaks(&peaks, 8), vec![100..100 + 8 * 256]);
    // Ten give two overlapping windows.
    let peaks: Vec<usize> = (0..10).map(|i| 100 + i * 256).collect();
    assert_eq!(
        candidates_from_peaks(&peaks, 8),
        vec![100..100 + 8 * 256, 356..356 + 8 * 256]
    );
    // One peak out of place breaks every window across it.
    let mut broken = peaks.clone();
    broken[4] += 1;
    assert_eq!(candidates_from_peaks(&broken, 8), Vec::<std::ops::Range<usize>>::new());
    assert_eq!(candidates_from_peaks(&peaks[..8].to_vec(), 8), Vec::<std::ops::Range<usize>>::new());
}

fn diffs_with_peaks(pages: usize, peaks: &[usize]) -> Vec<u64> {
    let mut diffs = vec![0u64; pages];
    for &p in peaks {
        diffs[p] = 500;
    }
    diffs
}

#[test]
fn candidates_from_timing_differences() {
    let peaks: Vec<usize> = (0..9).map(|i| 1000 + i * 256).collect();
    let diffs = diffs_with_peaks(8192, &peaks);
    assert_eq!(spoiler_candidates(&diffs, 8 << 20), vec![1000..1000 + 2048]);
    // Four MiB take windows of four distances: five of them among nine peaks.
    assert_eq!(spoiler_candidates(&diffs, 4 << 20).len(), 5);
}

fn strategy() -> Spoiler {
    Spoiler::new(MemConfiguration::default(), ConflictThreshold(300))
}

#[test]
fn round_without_candidates_trashes_the_buffer() {
    let mut trash = vec![];
    let r = strategy().spoiler_round(0x1000_0000, &vec![], 4, &mut trash);
    assert_eq!(r.unwrap_err(), SpoilerRoundError::NoCandidatesFound);
    assert_eq!(trash.len(), 1);
    assert_eq!((trash[0].ptr, trash[0].len), (0x1000_0000, SEARCH_BUFFER_SIZE));
}

fn spans(blocks: &[Memory]) -> Vec<(usize, usize)> {
    blocks.iter().map(|b| (b.ptr, b.len)).collect()
}

#[test]
fn round_keeps_candidates_that_do_not_overlap() {
    let base: usize = 0x4000_0000;
    // The second candidate overlaps the third; the third is taken first.
    let candidates = vec![0..2048, 3000..5048, 4096..6144];
    let mut trash = vec![];
    let blocks = strategy().spoiler_round(base, &candidates, 10, &mut trash).unwrap();
    assert_eq!(
        spans(&blocks),
        vec![(base, BLOCK_LEN), (base + 4096 * 4096, BLOCK_LEN)]
    );
    assert_eq!(
        spans(&trash),
        vec![
            (base + BLOCK_LEN, 4096 * 4096 - BLOCK_LEN),
            (
                base + 4096 * 4096 + BLOCK_LEN,
                SEARCH_BUFFER_SIZE - 4096 * 4096 - BLOCK_LEN
            ),
        ]
    );
}

#[test]
fn round_stops_at_the_limit() {
    let base: usize = 0x4000_0000;
    let candidates = vec![0..2048, 4096..6144, 8192..10240];
    let mut trash = vec![];
    let blocks = strategy().spoiler_round(base, &candidates, 1, &mut trash).unwrap();
    assert_eq!(spans(&blocks), vec![(base + 8192 * 4096, BLOCK_LEN)]);
    assert_eq!(
        spans(&trash),
        vec![
            (base, 8192 * 4096),
            (
                base + 8192 * 4096 + BLOCK_LEN,
                SEARCH_BUFFER_SIZE - 8192 * 4096 - BLOCK_LEN
            ),
        ]
    );
}

#[test]
fn adjacent_candidate_is_skipped() {
    let base: usize = 0;
    // The first ends where the second starts: its end lies in the second.
    let candidates = vec![0..2048, 2048..4096];
    let mut trash = vec![];
    let blocks = strategy().spoiler_round(base, &candidates, 10, &mut trash).unwrap();
    assert_eq!(spans(&blocks), vec![(2048 * 4096, BLOCK_LEN)]);
}

#[test]
fn round_from_differences() {
    let peaks: Vec<usize> = (0..9).map(|i| 1024 + i * 256).collect();
    let diffs = diffs_with_peaks(SEARCH_BUFFER_SIZE / 4096, &peaks);
    let mut trash = vec![];
    let blocks = strategy().round_from_diffs(0, &diffs, 3, &mut trash).unwrap();
    assert_eq!(spans(&blocks), vec![(1024 * 4096, BLOCK_LEN)]);
    assert_eq!(trash.len(), 2);
    let none = diffs_with_peaks(SEARCH_BUFFER_SIZE / 4096, &[]);
    assert!(strategy().round_from_diffs(0, &none, 3, &mut trash).is_err());
}

#[test]
fn sizes_that_are_no_block_multiple_are_refused() {
    assert_eq!(Spoiler::check_size(Size::B(BLOCK_LEN)), Ok(1));
    assert_eq!(Spoiler::check_size(Size::MB(40)), Ok(10));
    assert_eq!(
        Spoiler::check_size(Size::B(BLOCK_LEN + 1)),
        Err(SizeError::NotBlockMultiple)
    );
    assert_eq!(Spoiler::check_size(Size::B(1)), Err(SizeError::NotBlockMultiple));
    assert_eq!(Spoiler::check_size(Size::B(0)), Err(SizeError::ZeroSize));
    assert_eq!(
        Spoiler::check_size(Size::GB(usize::MAX)),
        Err(SizeError::NotBlockMultiple)
    );
}
