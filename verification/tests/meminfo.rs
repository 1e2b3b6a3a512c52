use swage::hugepage::{HugepageAllocator, HugepageError, HugepageSize};
use swage::meminfo::{parse_hugepage_size, INVALID_SIZE};
use swage::size::Size;

#[test]
fn test_parse_hugepage_size() {
    // correct.
    assert_eq!(parse_hugepage_size("Hugepagesize:1024"), 1024);
    assert_eq!(parse_hugepage_size("Hugepagesize: 2 kB"), 2048);

    // wrong.
    assert_eq!(parse_hugepage_size("Hugepagesize:1kB"), -1);
    assert_eq!(parse_hugepage_size("Hugepagesize: 2kB"), -1);
}

#[test]
fn size_stands_on_the_first_line_with_the_header() {
    let text = "MemTotal:       16384 kB\nHugePages_Total:       4\nHugepagesize:    1048576 kB\nHugetlb:  4194304 kB\nHugepagesize: 7\n";
    assert_eq!(parse_hugepage_size(text), 1048576 * 1024);
    assert_eq!(parse_hugepage_size("MemTotal: 5 kB\n"), INVALID_SIZE);
    assert_eq!(parse_hugepage_size(""), INVALID_SIZE);
    assert_eq!(parse_hugepage_size(" Hugepagesize: 5"), INVALID_SIZE);
}

#[test]
fn missing_or_unreadable_value_is_invalid() {
    assert_eq!(parse_hugepage_size("Hugepagesize:"), INVALID_SIZE);
    assert_eq!(parse_hugepage_size("Hugepagesize:   \nHugepagesize: 4"), INVALID_SIZE);
    assert_eq!(parse_hugepage_size("Hugepagesize: x kB"), INVALID_SIZE);
    assert_eq!(parse_hugepage_size("Hugepagesize: 12a"), INVALID_SIZE);
    assert_eq!(parse_hugepage_size("Hugepagesize: -"), INVALID_SIZE);
    assert_eq!(
        parse_hugepage_size("Hugepagesize: 99999999999999999999999999"),
        INVALID_SIZE
    );
    assert_eq!(
        parse_hugepage_size("Hugepagesize: 9223372036854775807 kB"),
        INVALID_SIZE
    );
}

#[test]
fn signs_units_and_white_space() {
    assert_eq!(parse_hugepage_size("Hugepagesize: +3 kB"), 3072);
    assert_eq!(parse_hugepage_size("Hugepagesize: -3"), -3);
    assert_eq!(parse_hugepage_size("Hugepagesize:\t8\tkB\r\n"), 8192);
    assert_eq!(parse_hugepage_size("Hugepagesize: 8 KB"), 8);
    assert_eq!(parse_hugepage_size("Hugepagesize: 8 kB extra"), 8192);
    assert_eq!(parse_hugepage_size("Hugepagesize:\u{a0}5\u{2003}kB"), 5120);
    assert_eq!(
        parse_hugepage_size("Hugepagesize: 9223372036854775807"),
        isize::MAX
    );
    assert_eq!(
        parse_hugepage_size("Hugepagesize: -9223372036854775808"),
        isize::MIN
    );
}

#[test]
fn hugepage_strategy_takes_requests_below_one_page() {
    let strategy = HugepageAllocator::from_meminfo("Hugepagesize:    1048576 kB\n");
    assert_eq!(strategy.hugepage_size, 1 << 30);
    assert_eq!(strategy.block_size().bytes(), 1 << 30);
    assert_eq!(strategy.check_request(Size::GB(1)), Ok(()));
    assert_eq!(strategy.check_request(Size::MB(1024)), Ok(()));
    assert_eq!(
        strategy.check_request(Size::B(2)),
        Err(HugepageError::NotBlockMultiple)
    );
    assert_eq!(
        strategy.check_request(Size::MB(1023)),
        Err(HugepageError::NotBlockMultiple)
    );
    assert_eq!(
        strategy.check_request(Size::B(0)),
        Err(HugepageError::ZeroSize)
    );
    assert_eq!(
        strategy.check_request(Size::GB(2)),
        Err(HugepageError::RequestTooLarge)
    );
    assert_eq!(
        strategy.check_request(Size::GB(usize::MAX)),
        Err(HugepageError::NotBlockMultiple)
    );
    let small = HugepageAllocator::from_meminfo("Hugepagesize: 2048 kB\n");
    assert_eq!(
        small.check_request(Size::B(2)),
        Err(HugepageError::UnsupportedPageSize)
    );
    let none = HugepageAllocator::from_meminfo("");
    assert_eq!(none.hugepage_size, -1);
    assert_eq!(none.block_size().bytes(), usize::MAX);
    assert_eq!(
        none.check_request(Size::B(2)),
        Err(HugepageError::UnsupportedPageSize)
    );
}

#[test]
fn hugepage_block_has_fixed_offset_zero() {
    let blocks = HugepageAllocator::block_for(0x20_0000_0000);
    assert_eq!(blocks.blocks.len(), 1);
    assert_eq!(blocks.blocks[0].ptr, 0x20_0000_0000);
    assert_eq!(blocks.blocks[0].len, 1 << 30);
    assert_eq!(HugepageSize::OneGb.bytes(), 1 << 30);
    assert_eq!(blocks.blocks[0].clone().pfn_align().unwrap().len(), 1);
}
