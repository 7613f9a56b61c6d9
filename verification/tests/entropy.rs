use nanorand::entropy::{
    acquire, acquire_from, after_attempt, backup_entropy, clock_nanos,
    emergency_system_time_entropy, Attempt,
    entropy_from_system, lay_out_words, mix_readings, os_entropy, rdseed_entropy, rdseed_word,
    HardwareSeed, NoHardwareSeed,
};

/// A seed instruction that gives what a script says, and nothing after it.
struct Scripted {
    script: Vec<Option<u64>>,
    asked: usize,
}

impl Scripted {
    fn new(script: Vec<Option<u64>>) -> Scripted {
        Scripted { script, asked: 0 }
    }
}

impl HardwareSeed for Scripted {
    fn seed64(&mut self) -> Option<u64> {
        let answer = self.script.get(self.asked).copied().flatten();
        self.asked += 1;
        answer
    }
}

#[test]
fn system_entropy_test() {
    let test_entropy_out = emergency_system_time_entropy(16);
    println!("16 bytes of entropy: {}", hex::encode(&test_entropy_out));

    let test_entropy_b_out = emergency_system_time_entropy(std::mem::size_of::<u64>() * 6);
    let unrandom = test_entropy_b_out
        .iter()
        .fold(0, |a, number| if *number == 0 { a + 1 } else { a });
    println!(
        "{} bytes of entropy has {} instances of '0'",
        std::mem::size_of::<u64>() * 64,
        unrandom
    );
    assert_ne!(test_entropy_b_out, vec![0u8; std::mem::size_of::<u64>() * 6])
}

#[test]
fn entropy_from_system_gives_what_was_asked() {
    for n in [0usize, 1, 8, 64, 4096] {
        assert_eq!(entropy_from_system(n).len(), n);
    }
}

#[test]
fn chain_answers_in_full_without_the_operating_system() {
    for n in [1usize, 8, 64, 4096] {
        let mut none = NoHardwareSeed;
        assert_eq!(acquire_from(None, &mut none, n).len(), n);
        assert_eq!(backup_entropy(&mut none, n).len(), n);
        let mut failing = Scripted::new(vec![Some(7), None]);
        assert_eq!(acquire_from(None, &mut failing, n).len(), n);
    }
}

#[test]
fn chain_counts_a_short_answer_of_the_operating_system_as_a_failure() {
    let mut hw = Scripted::new(vec![Some(0x0102_0304_0506_0708)]);
    let out = acquire_from(Some(vec![9, 9, 9]), &mut hw, 8);
    assert_eq!(out, vec![8, 7, 6, 5, 4, 3, 2, 1]);
}

#[test]
fn chain_takes_the_answer_of_the_operating_system() {
    let mut hw = Scripted::new(vec![Some(1)]);
    let out = acquire_from(Some(vec![1, 2, 3, 4]), &mut hw, 4);
    assert_eq!(out, vec![1, 2, 3, 4]);
    assert_eq!(hw.asked, 0);
}

#[test]
fn acquire_gives_what_was_asked() {
    for n in [0usize, 1, 8, 64, 4096] {
        let mut hw = NoHardwareSeed;
        assert_eq!(acquire(&mut hw, n).len(), n);
    }
}

#[test]
fn operating_system_fills_the_request_or_gives_nothing() {
    if let Some(bytes) = os_entropy(32) {
        assert_eq!(bytes.len(), 32);
        assert_ne!(bytes, vec![0u8; 32]);
    }
}

#[test]
fn clock_moves_on() {
    assert!(clock_nanos() > 1_500_000_000_000_000_000);
}

#[test]
fn seed_instruction_is_tried_ten_times() {
    let mut script = vec![None; 9];
    script.push(Some(42));
    let mut tenth = Scripted::new(script);
    assert_eq!(rdseed_word(&mut tenth), Some(42));
    assert_eq!(tenth.asked, 10);

    let mut script = vec![None; 10];
    script.push(Some(42));
    let mut eleventh = Scripted::new(script);
    assert_eq!(rdseed_word(&mut eleventh), None);
    assert_eq!(eleventh.asked, 10);
}

#[test]
fn seed_words_alternate_their_byte_order() {
    let mut hw = Scripted::new(vec![
        Some(0x0102_0304_0506_0708),
        None,
        Some(0x1112_1314_1516_1718),
        Some(0x2122_2324_2526_2728),
    ]);
    let out = rdseed_entropy(&mut hw, 19).unwrap();
    assert_eq!(
        out,
        vec![
            0x08, 0x07, 0x06, 0x05, 0x04, 0x03, 0x02, 0x01, 0x11, 0x12, 0x13, 0x14, 0x15, 0x16,
            0x17, 0x18, 0x28, 0x27, 0x26
        ]
    );
}

#[test]
fn seed_instruction_that_gives_out_gives_nothing() {
    let mut hw = Scripted::new(vec![Some(1)]);
    assert_eq!(rdseed_entropy(&mut hw, 9), None);
    let mut none = NoHardwareSeed;
    assert_eq!(rdseed_entropy(&mut none, 1), None);
    assert_eq!(rdseed_entropy(&mut none, 0), Some(vec![]));
}

#[test]
fn words_are_laid_out_as_bytes() {
    assert_eq!(lay_out_words(&vec![], 0), Vec::<u8>::new());
    assert_eq!(lay_out_words(&vec![0x0a0b], 3), vec![0x0b, 0x0a, 0x00]);
    assert_eq!(
        lay_out_words(&vec![1, 2], 16),
        vec![1, 0, 0, 0, 0, 0, 0, 0, 0, 0, 0, 0, 0, 0, 0, 2]
    );
}

#[test]
fn readings_are_mixed_in_two_passes() {
    let first = vec![0x0102_0304_0506_0708_090a_0b0c_0d0e_0f10u128, 1];
    let second = vec![0u128, 0x8000_0000_0000_0000_0000_0000_0000_0000];
    let out = mix_readings(&first, &second, 20);
    let mut expected: Vec<u8> = vec![
        0x10, 0x0f, 0x0e, 0x0d, 0x0c, 0x0b, 0x0a, 0x09, 0x08, 0x07, 0x06, 0x05, 0x04, 0x03, 0x02,
        0x01,
    ];
    // The second reading of the first pass is laid out most significant byte
    // first, that of the second pass least significant first.
    expected.extend_from_slice(&[0, 0, 0, 0]);
    assert_eq!(out, expected);

    let both = mix_readings(&vec![0xff], &vec![0xff], 16);
    let mut crossed = vec![0u8; 16];
    crossed[0] = 0xff;
    crossed[15] = 0xff;
    assert_eq!(both, crossed);

    assert_eq!(mix_readings(&vec![], &vec![], 0), Vec::<u8>::new());
    assert_eq!(mix_readings(&vec![0x1234], &vec![0], 1), vec![0x34]);
}

#[test]
fn first_word_is_taken_and_the_tenth_attempt_is_the_last() {
    assert_eq!(after_attempt(0, Some(5)), Attempt::Word(5));
    assert_eq!(after_attempt(9, Some(6)), Attempt::Word(6));
    assert_eq!(after_attempt(0, None), Attempt::Again(1));
    assert_eq!(after_attempt(8, None), Attempt::Again(9));
    assert_eq!(after_attempt(9, None), Attempt::GiveUp);
}

#[test]
fn machine_without_the_instruction_gives_nothing() {
    let mut none = NoHardwareSeed;
    assert_eq!(rdseed_word(&mut none), None);
    assert_eq!(rdseed_entropy(&mut none, 8), None);
    assert_eq!(os_entropy(0), Some(vec![]));
}
