use swage::content::{
    check, check_excluding, compare_page, expected_page, initialize, initialize_excluding,
    page_excluded, BytePointer, Checkable, Initializable, PageBuffer,
};
use swage::pattern::{BitFlip, DataPattern, FlipDirection};
use swage::rng::Rng;

#[test]
fn test_pattern_random_clone() {
    let pattern = DataPattern::Random(Box::new(Rng::from_seed(0x5eed_1234_dead_beef)));
    let a = pattern.clone().get(0);
    let b = pattern.clone().get(0);
    assert_eq!(a, b);
}

#[test]
fn random_pages_follow_each_other() {
    let mut pattern = DataPattern::Random(Box::new(Rng::from_seed(7)));
    let first = pattern.get(0);
    let second = pattern.get(0);
    assert_ne!(first, second);
    let mut again = DataPattern::Random(Box::new(Rng::from_seed(7)));
    assert_eq!(again.get(4096), first);
    assert_eq!(again.get(4096), second);
    let mut other = DataPattern::Random(Box::new(Rng::from_seed(8)));
    assert_ne!(other.get(0), first);
}

#[test]
fn test_bitflip_direction() {
    let flip = BitFlip::new(0, 0b0000_0000, 0xFF);
    assert_eq!(flip.flip_direction(), FlipDirection::NoFlip);
    let flip = BitFlip::new(0, 0b0000_0001, 0b0000_0001);
    assert_eq!(flip.flip_direction(), FlipDirection::OneToZero);

    let flip = BitFlip::new(0, 0b0000_0001, 0b1111_1110);
    assert_eq!(flip.flip_direction(), FlipDirection::ZeroToOne);

    let flip = BitFlip::new(0, 0b0000_0011, 0b0000_0010);
    assert_eq!(
        flip.flip_direction(),
        FlipDirection::Multiple(vec![FlipDirection::ZeroToOne, FlipDirection::OneToZero])
    );

    let flip = BitFlip::new(0, 0b0000_0011, 0b0000_0000);
    assert_eq!(
        flip.flip_direction(),
        FlipDirection::Multiple(vec![FlipDirection::ZeroToOne, FlipDirection::ZeroToOne])
    );

    let flip = BitFlip::new(0, 0b0000_0011, 0b0000_0011);
    assert_eq!(
        flip.flip_direction(),
        FlipDirection::Multiple(vec![FlipDirection::OneToZero, FlipDirection::OneToZero])
    );
}

#[test]
fn direction_of_the_highest_bit() {
    assert_eq!(
        BitFlip::new(0, 0x80, 0x80).flip_direction(),
        FlipDirection::OneToZero
    );
    assert_eq!(
        BitFlip::new(0, 0x81, 0x01).flip_direction(),
        FlipDirection::Multiple(vec![FlipDirection::OneToZero, FlipDirection::ZeroToOne])
    );
    assert_eq!(
        BitFlip::new(0, 0xff, 0xaa).flip_direction(),
        FlipDirection::Multiple(vec![
            FlipDirection::ZeroToOne,
            FlipDirection::OneToZero,
            FlipDirection::ZeroToOne,
            FlipDirection::OneToZero,
            FlipDirection::ZeroToOne,
            FlipDirection::OneToZero,
            FlipDirection::ZeroToOne,
            FlipDirection::OneToZero,
        ])
    );
}

#[test]
fn fixed_patterns() {
    assert_eq!(DataPattern::Zero.get(0x1234), [0u8; 4096]);
    assert_eq!(DataPattern::One.get(0x1234), [0xffu8; 4096]);
    let mut stripe = DataPattern::StripeZero {
        zeroes: vec![0x4000, 0x8000],
    };
    assert_eq!(stripe.get(0x4000), [0u8; 4096]);
    // The second page of the row at 0x4000.
    assert_eq!(stripe.get(0x5000), [0u8; 4096]);
    assert_eq!(stripe.get(0x5fff), [0u8; 4096]);
    assert_eq!(stripe.get(0x6000), [0xffu8; 4096]);
    assert_eq!(stripe.get(0x8000), [0u8; 4096]);
    let mut ones = DataPattern::StripeOne { ones: vec![0x2000] };
    assert_eq!(ones.get(0x3000), [0xffu8; 4096]);
    assert_eq!(ones.get(0x0), [0u8; 4096]);
}

#[test]
fn zero_round_trip_finds_no_flip() {
    let mut mem = PageBuffer::new(0x10_0000, 8).unwrap();
    for b in mem.data.iter_mut() {
        *b = 0x5a;
    }
    initialize(&mut mem, DataPattern::Zero);
    assert!(mem.data.iter().all(|&b| b == 0));
    assert_eq!(check(&mem, DataPattern::Zero), vec![]);
}

#[test]
fn round_trips_of_the_other_patterns() {
    let base = 0x10_0000;
    let patterns = || {
        vec![
            DataPattern::One,
            DataPattern::StripeZero {
                zeroes: vec![base + 0x2000],
            },
            DataPattern::StripeOne {
                ones: vec![base, base + 0x6000],
            },
            DataPattern::Random(Box::new(Rng::from_seed(42))),
        ]
    };
    for (fill, expect) in patterns().into_iter().zip(patterns()) {
        let mut mem = PageBuffer::new(base, 8).unwrap();
        mem.initialize(fill);
        assert_eq!(mem.check(expect), vec![]);
    }
}

#[test]
fn stripe_fills_rows() {
    let base = 0x10_0000;
    let mut mem = PageBuffer::new(base, 4).unwrap();
    initialize(
        &mut mem,
        DataPattern::StripeOne {
            ones: vec![base + 0x2000],
        },
    );
    assert!(mem.data[..0x2000].iter().all(|&b| b == 0));
    assert!(mem.data[0x2000..].iter().all(|&b| b == 0xff));
}

#[test]
fn check_reports_each_differing_byte() {
    let base = 0x40_0000;
    let mut mem = PageBuffer::new(base, 4).unwrap();
    initialize(&mut mem, DataPattern::One);
    mem.data[5] = 0xfe;
    mem.data[4096 + 17] = 0x0f;
    mem.data[3 * 4096 + 4095] = 0x7f;
    assert_eq!(
        check(&mem, DataPattern::One),
        vec![
            BitFlip::new(base + 5, 0x01, 0xff),
            BitFlip::new(base + 4096 + 17, 0xf0, 0xff),
            BitFlip::new(base + 3 * 4096 + 4095, 0x80, 0xff),
        ]
    );
}

#[test]
fn excluded_pages_are_left_alone() {
    let base = 0x40_0000;
    let mut mem = PageBuffer::new(base, 4).unwrap();
    // Any address in the page leaves the page out.
    let pages = vec![base + 4096 + 123];
    initialize_excluding(&mut mem, DataPattern::One, &pages);
    assert!(mem.data[..4096].iter().all(|&b| b == 0xff));
    assert!(mem.data[4096..8192].iter().all(|&b| b == 0));
    assert!(mem.data[8192..].iter().all(|&b| b == 0xff));
    // The page that was left out differs in every byte, and the check skips it.
    assert_eq!(check_excluding(&mem, DataPattern::One, &pages), vec![]);
    assert_eq!(check(&mem, DataPattern::One).len(), 4096);
    mem.data[0] = 0;
    assert_eq!(
        mem.check_excluding(DataPattern::One, &pages),
        vec![BitFlip::new(base, 0xff, 0xff)]
    );
    assert!(page_excluded(&pages, base + 4096));
    assert!(page_excluded(&pages, base + 8191));
    assert!(!page_excluded(&pages, base + 8192));
    assert!(!page_excluded(&vec![], base));
}

#[test]
fn random_fill_does_not_depend_on_excluded_pages() {
    let base = 0x40_0000;
    let mut all = PageBuffer::new(base, 3).unwrap();
    initialize(&mut all, DataPattern::Random(Box::new(Rng::from_seed(9))));
    let mut some = PageBuffer::new(base, 3).unwrap();
    initialize_excluding(
        &mut some,
        DataPattern::Random(Box::new(Rng::from_seed(9))),
        &vec![base],
    );
    assert!(some.data[..4096].iter().all(|&b| b == 0));
    assert_eq!(some.data[4096..], all.data[4096..]);
}

#[test]
fn buffer_addresses() {
    let mem = PageBuffer::new(0x1000, 2).unwrap();
    assert_eq!(BytePointer::len(&mem), 8192);
    assert_eq!(BytePointer::ptr(&mem), 0x1000);
    assert_eq!(BytePointer::addr(&mem, 4097), 0x2001);
    assert!(PageBuffer::new(usize::MAX - 4096, 2).is_none());
    assert!(PageBuffer::new(0, usize::MAX).is_none());
}

#[test]
fn pages_one_by_one() {
    let mut pattern = DataPattern::One;
    let pages = vec![0x3000];
    assert_eq!(expected_page(&mut pattern, 0x2000, &pages), Some([0xffu8; 4096]));
    assert_eq!(expected_page(&mut pattern, 0x3abc, &pages), None);
    let expected = [0xffu8; 4096];
    let mut actual = [0xffu8; 4096];
    assert_eq!(compare_page(0x2000, &actual, &expected), vec![]);
    actual[0] = 0xfd;
    actual[4095] = 0;
    assert_eq!(
        compare_page(0x2000, &actual, &expected),
        vec![
            BitFlip::new(0x2000, 0x02, 0xff),
            BitFlip::new(0x2fff, 0xff, 0xff)
        ]
    );
}

#[test]
fn random_page_moves_the_pattern_on_by_a_page() {
    let mut pattern = DataPattern::Random(Box::new(Rng::from_seed(3)));
    let first = pattern.get(0);
    let second = pattern.get(0x1000);
    // A page that is left out is drawn all the same.
    assert_eq!(expected_page(&mut pattern, 0x2000, &vec![0x2000]), None);
    let fourth = pattern.get(0x3000);
    let mut again = pattern.clone();
    assert_eq!(again.get(0), first);
    assert_eq!(again.get(0), second);
    again.get(0);
    assert_eq!(again.get(0), fourth);
}
