use nanorand::gen::{draw_bytes, draw_unsigned, modulus_of, pointer_width, signed_of};
use nanorand::range::{debias, offset_of, sample_between, sample_offset, to_ordinal};
use nanorand::{
    Bound, Bounds, ChaCha, Generate, Pcg64, RandomGen, RandomRange, RangeError, Rng, WyRand,
};

#[test]
fn ensure_unsigned_in_range() {
    let mut rng = WyRand::new();
    for _ in 0..1000 {
        let number = rng.generate_range(Bounds::inclusive(10_u64, 20)).unwrap();
        assert!(
            (10..=20).contains(&number),
            "{} was outside of 10..=20",
            number
        );

        let number = rng.generate_range(Bounds::exclusive(10_u64, 30)).unwrap();
        assert!(
            (10..30).contains(&number),
            "{} was outside of 10..30",
            number
        );

        let number = rng.generate_range(Bounds::at_least(512_u64)).unwrap();
        assert!((512..).contains(&number), "{} was outside of 512..", number);

        let number = rng.generate_range(Bounds::below(1024_u64)).unwrap();
        assert!(
            (..1024).contains(&number),
            "{} was outside of ..1024",
            number
        );
    }
}

#[test]
fn ensure_signed_in_range() {
    let mut rng = WyRand::new();
    for _ in 0..1000 {
        let number: i32 = rng.generate_range(Bounds::inclusive(-200, 50)).unwrap();
        assert!(
            (-200..=50).contains(&number),
            "{} was outside of -200..=50",
            number
        );

        let number: i32 = rng.generate_range(Bounds::exclusive(-200, 100)).unwrap();
        assert!(
            (-200..100).contains(&number),
            "{} was outside of -200..100",
            number
        );

        let number: i32 = rng.generate_range(Bounds::at_least(-50)).unwrap();
        assert!((-50..).contains(&number), "{} was outside of -50..", number);

        let number: i32 = rng.generate_range(Bounds::below(512)).unwrap();
        assert!((..512).contains(&number), "{} was outside of ..512", number);

        let number: i32 = rng.generate_range(Bounds::below(-32)).unwrap();
        assert!((..-32).contains(&number), "{} was outside of ..-32", number);
    }
}

fn both_ends_seen(lower: u64, upper: u64) {
    let mut rng = WyRand::new_seed(lower ^ upper);
    let samples = 1000 * (upper - lower + 1);
    let mut low_seen = false;
    let mut high_seen = false;
    for _ in 0..samples {
        let number = rng.generate_range(Bounds::inclusive(lower, upper)).unwrap();
        assert!(lower <= number && number <= upper);
        low_seen |= number == lower;
        high_seen |= number == upper;
    }
    assert!(low_seen && high_seen);
}

#[test]
fn samples_stay_in_range_and_reach_both_ends() {
    both_ends_seen(0, 1);
    both_ends_seen(1000, 1010);
    both_ends_seen(u64::MAX - 1, u64::MAX);
}

#[test]
fn samples_of_every_type_stay_in_range() {
    let mut rng = Pcg64::new_seed(99);
    let mut cha = ChaCha::new_key(8, [1u8; 32], [1u8; 16]).unwrap();
    for _ in 0..1000 {
        let a: u8 = rng.generate_range(Bounds::inclusive(250, 255)).unwrap();
        assert!(a >= 250);
        let b: i8 = rng.generate_range(Bounds::inclusive(-128, -120)).unwrap();
        assert!(b <= -120);
        let c: u16 = rng.generate_range(Bounds::exclusive(7, 9)).unwrap();
        assert!(c == 7 || c == 8);
        let d: i16 = rng.generate_range(Bounds::at_most(-32000)).unwrap();
        assert!(d <= -32000);
        let e: u32 = cha.generate_range(Bounds::at_least(u32::MAX - 3)).unwrap();
        assert!(e >= u32::MAX - 3);
        let f: i64 = cha.generate_range(Bounds::inclusive(i64::MIN, i64::MIN + 1)).unwrap();
        assert!(f <= i64::MIN + 1);
        let g: usize = cha.generate_range(Bounds::exclusive(3, 6)).unwrap();
        assert!((3..6).contains(&g));
        let h: isize = rng.generate_range(Bounds::inclusive(-1, 1)).unwrap();
        assert!((-1..=1).contains(&h));
        let i: u64 = rng.generate_range(Bounds::full()).unwrap();
        assert!(i < u64::MAX);
        let j: i8 = rng.generate_range(Bounds::full()).unwrap();
        assert!(j < i8::MAX);
    }
}

#[test]
fn range_of_one_value_yields_it_without_a_draw() {
    let mut rng = WyRand::new_seed(5);
    let mut twin = WyRand::new_seed(5);
    for _ in 0..100 {
        assert_eq!(rng.generate_range(Bounds::inclusive(77u64, 77)), Ok(77));
        assert_eq!(rng.generate_range(Bounds::inclusive(-3i16, -3)), Ok(-3));
        assert_eq!(rng.generate_range(Bounds::exclusive(4u8, 5)), Ok(4));
        assert_eq!(rng.generate_range(Bounds::below(1usize)), Ok(0));
        assert_eq!(rng.generate_range(Bounds::at_least(u32::MAX)), Ok(u32::MAX));
        assert_eq!(
            rng.generate_range(Bounds::new(Bound::Excluded(i64::MAX - 1), Bound::Unbounded)),
            Ok(i64::MAX)
        );
    }
    assert_eq!(rng.rand(), twin.rand());
}

#[test]
fn excluded_ends_stop_at_the_ends_of_the_type() {
    let mut rng = WyRand::new_seed(5);
    assert_eq!(
        rng.generate_range(Bounds::new(Bound::Excluded(u8::MAX), Bound::Unbounded)),
        Ok(u8::MAX)
    );
    assert_eq!(rng.generate_range(Bounds::below(0u8)), Ok(0));
    assert_eq!(rng.generate_range(Bounds::below(i8::MIN)), Ok(i8::MIN));
}

#[test]
fn range_without_a_value_is_refused() {
    let mut rng = WyRand::new_seed(5);
    let mut twin = WyRand::new_seed(5);
    assert_eq!(
        rng.generate_range(Bounds::inclusive(20u64, 10)),
        Err(RangeError::InvalidRange)
    );
    assert_eq!(
        rng.generate_range(Bounds::exclusive(5i32, 5)),
        Err(RangeError::InvalidRange)
    );
    assert_eq!(
        rng.generate_range(Bounds::new(Bound::Excluded(5u16), Bound::Excluded(6))),
        Err(RangeError::InvalidRange)
    );
    assert_eq!(
        rng.generate_range(Bounds::inclusive(isize::MAX, isize::MIN)),
        Err(RangeError::InvalidRange)
    );
    assert_eq!(
        i8::random_range(&mut rng, Bounds::inclusive(1, 0)),
        Err(RangeError::InvalidRange)
    );
    assert_eq!(rng.rand(), twin.rand());
}

#[test]
fn debias_keeps_and_rejects_by_the_lower_half() {
    // span 3 in one byte: the threshold is (256 - 3) % 3 = 1.
    assert_eq!(debias(3, 0, 1), None);
    assert_eq!(debias(3, 1, 1), Some(0));
    assert_eq!(debias(3, 85, 1), Some(0));
    assert_eq!(debias(3, 86, 1), Some(1));
    assert_eq!(debias(3, 171, 1), Some(2));
    assert_eq!(debias(3, 255, 1), Some(2));
    // span 200 in one byte: the threshold is 56.
    assert_eq!(debias(200, 1, 1), Some(0));
    assert_eq!(debias(200, 2, 1), Some(1));
    assert_eq!(debias(200, 9, 1), None);
    assert_eq!(debias(200, 255, 1), Some(199));
    // a power of two rejects nothing.
    for x in 0..=255u64 {
        assert_eq!(debias(64, x, 1), Some(x / 4));
        assert_eq!(debias(1, x, 1), Some(0));
    }
    assert_eq!(debias(u64::MAX, u64::MAX, 8), Some(u64::MAX - 1));
    assert_eq!(debias(u64::MAX, 0, 8), None);
    assert_eq!(debias(10, 1 << 63, 8), None);
    assert_eq!(debias(10, (1 << 63) + 1, 8), Some(5));
    assert_eq!(offset_of(3, 0, 1), 0);
    assert_eq!(offset_of(1000, 0x8000, 2), 500);
}

#[test]
fn every_offset_is_kept_equally_often() {
    for span in 1..=255u64 {
        let mut kept = vec![0u32; span as usize];
        for x in 0..=255u64 {
            if let Some(offset) = debias(span, x, 1) {
                kept[offset as usize] += 1;
            }
        }
        let share = 256 / span as u32;
        assert!(kept.iter().all(|count| *count == share));
    }
}

#[test]
fn ordinals_count_from_the_least_value() {
    assert_eq!(to_ordinal(0x80, 1, true), 0);
    assert_eq!(to_ordinal(0xff, 1, true), 0x7f);
    assert_eq!(to_ordinal(0, 1, true), 0x80);
    assert_eq!(to_ordinal(0x7f, 1, true), 0xff);
    assert_eq!(to_ordinal(0x7f, 1, false), 0x7f);
    assert_eq!(to_ordinal(u64::MAX as u128, 8, true), i64::MAX as u64);
    assert_eq!(signed_of(0xff, 1), -1);
    assert_eq!(signed_of(0x80, 1), -128);
    assert_eq!(signed_of(0x7f, 1), 127);
    assert_eq!(signed_of(0xffff_ffff_ffff_ffff, 8), -1);
    assert_eq!(modulus_of(0), 1);
    assert_eq!(modulus_of(8), 1 << 64);
    assert_eq!(pointer_width(), std::mem::size_of::<usize>());
}

#[test]
fn sampling_takes_the_first_draw_that_is_kept() {
    let mut rng = WyRand::new_seed(1);
    let mut twin = rng.clone();
    let mut rejected = 0;
    for _ in 0..1000 {
        // a span of 200 values in one byte rejects the draws 0, 9, 18, ..: 56 in all
        let got: u8 = rng.generate_range(Bounds::inclusive(50, 249)).unwrap();
        let expected = loop {
            let x = twin.rand()[0] as u64;
            match debias(200, x, 1) {
                Some(offset) => break 50 + offset as u8,
                None => rejected += 1,
            }
        };
        assert_eq!(got, expected);
    }
    assert!(rejected > 100);
    assert_eq!(rng.rand(), twin.rand());

    for _ in 0..1000 {
        // a signed draw is counted from the least value of its type
        let got: i8 = rng.generate_range(Bounds::inclusive(-100, 99)).unwrap();
        let expected = loop {
            let x = (twin.rand()[0] as i8 as i64 + 128) as u64;
            if let Some(offset) = debias(200, x, 1) {
                break (-100 + offset as i64) as i8;
            }
        };
        assert_eq!(got, expected);
    }
    assert_eq!(rng.rand(), twin.rand());

    for _ in 0..1000 {
        let got = sample_offset(&mut rng, 0xc000_0000_0000_0000, 8, false);
        let expected = loop {
            let x = u64::from_le_bytes(twin.rand());
            if let Some(offset) = debias(0xc000_0000_0000_0000, x, 8) {
                break offset;
            }
        };
        assert_eq!(got, expected);
        let got = sample_between(
            &mut rng,
            Bound::Excluded(-5),
            Bound::Unbounded,
            -32768,
            32767,
            2,
            true,
        );
        let expected = loop {
            let block = twin.rand();
            let x = (i16::from_le_bytes([block[0], block[1]]) as i64 + 32768) as u64;
            if let Some(offset) = debias(32772, x, 2) {
                break -4 + offset as i128;
            }
        };
        assert_eq!(got, Ok(expected));
    }
    assert_eq!(rng.rand(), twin.rand());
}

#[test]
fn values_are_read_from_the_first_bytes_least_significant_first() {
    let mut rng = WyRand::new_seed(77);
    let mut twin = rng.clone();
    for _ in 0..100 {
        let block = twin.rand();
        assert_eq!(rng.generate::<u8>(), block[0]);
        let block = twin.rand();
        assert_eq!(rng.generate::<u16>(), u16::from_le_bytes([block[0], block[1]]));
        let block = twin.rand();
        assert_eq!(
            rng.generate::<u32>(),
            u32::from_le_bytes([block[0], block[1], block[2], block[3]])
        );
        assert_eq!(rng.generate::<u64>(), u64::from_le_bytes(twin.rand()));
        let low = u64::from_le_bytes(twin.rand()) as u128;
        let high = u64::from_le_bytes(twin.rand()) as u128;
        assert_eq!(u128::random(&mut rng), high << 64 | low);
        assert_eq!(rng.generate::<i8>(), twin.rand()[0] as i8);
        let block = twin.rand();
        assert_eq!(rng.generate::<i16>(), i16::from_le_bytes([block[0], block[1]]));
        let block = twin.rand();
        assert_eq!(
            rng.generate::<i32>(),
            i32::from_le_bytes([block[0], block[1], block[2], block[3]])
        );
        assert_eq!(rng.generate::<i64>(), i64::from_le_bytes(twin.rand()));
        let low = u64::from_le_bytes(twin.rand()) as u128;
        let high = u64::from_le_bytes(twin.rand()) as u128;
        assert_eq!(rng.generate::<i128>(), (high << 64 | low) as i128);
        assert_eq!(rng.generate::<bool>(), twin.rand()[0] < 0x80);
        let block = twin.rand();
        assert_eq!(
            rng.generate::<usize>().to_le_bytes(),
            block[..std::mem::size_of::<usize>()]
        );
        let block = twin.rand();
        assert_eq!(
            rng.generate::<isize>().to_le_bytes(),
            block[..std::mem::size_of::<isize>()]
        );
    }
    let mut stream = Vec::new();
    stream.extend_from_slice(&twin.rand());
    stream.extend_from_slice(&twin.rand());
    stream.extend_from_slice(&twin.rand());
    assert_eq!(draw_bytes(&mut rng, 19), stream[..19]);
    assert_eq!(draw_bytes(&mut rng, 0), Vec::<u8>::new());
    let block = twin.rand();
    assert_eq!(draw_unsigned(&mut rng, 3), u32::from_le_bytes([block[0], block[1], block[2], 0]) as u128);
    assert_eq!(rng.rand(), twin.rand());

    let mut wide = ChaCha::new_key(20, [0u8; 32], [0u8; 16]).unwrap();
    let mut twin = wide.clone();
    let block = twin.rand();
    assert_eq!(wide.generate::<u32>().to_le_bytes(), block[..4]);
    let block = twin.rand();
    assert_eq!(wide.generate::<u128>().to_le_bytes(), block[..16]);
    let block = twin.rand();
    assert_eq!(wide.generate::<usize>().to_le_bytes(), block[..std::mem::size_of::<usize>()]);
    let block = twin.rand();
    assert_eq!(wide.generate::<isize>().to_le_bytes(), block[..std::mem::size_of::<isize>()]);
    assert_eq!(draw_bytes(&mut wide, 65)[64], { twin.rand(); twin.rand()[0] });
}

#[test]
fn fill_draws_one_value_after_the_other() {
    let mut rng = WyRand::new_seed(11);
    let mut twin = WyRand::new_seed(11);
    let mut target = [0u32; 7];
    rng.fill(&mut target);
    for value in target {
        assert_eq!(value, twin.generate::<u32>());
    }
    let mut nothing: [u64; 0] = [];
    rng.fill(&mut nothing);
    assert_eq!(rng.rand(), twin.rand());
}

#[test]
fn shuffle_keeps_what_is_there() {
    let mut rng = WyRand::new_seed(3);
    let mut items: Vec<u32> = (0..100).collect();
    rng.shuffle(&mut items);
    assert_ne!(items, (0..100).collect::<Vec<u32>>());
    let mut sorted = items.clone();
    sorted.sort();
    assert_eq!(sorted, (0..100).collect::<Vec<u32>>());

    let mut names = vec![String::from("a"), String::from("b"), String::from("c")];
    rng.shuffle(&mut names);
    names.sort();
    assert_eq!(names, vec!["a", "b", "c"]);

    let mut none: Vec<u8> = vec![];
    rng.shuffle(&mut none);
    let mut one = vec![9u8];
    let mut twin = rng.clone();
    rng.shuffle(&mut one);
    assert_eq!(one, vec![9]);
    assert_eq!(rng.rand(), twin.rand());
}

#[test]
fn shuffle_swaps_each_index_with_one_up_to_its_own() {
    let mut rng = Pcg64::new_seed(8);
    let mut twin = rng.clone();
    let mut items: Vec<usize> = (0..50).collect();
    let mut expected = items.clone();
    rng.shuffle(&mut items);
    for i in 0..expected.len() {
        let j: usize = twin.generate_range(Bounds::inclusive(0, i)).unwrap();
        expected.swap(i, j);
    }
    assert_eq!(items, expected);
    assert_eq!(rng.rand(), twin.rand());
}
