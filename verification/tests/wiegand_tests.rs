use fuel_logger::wiegand::{WiegandReader, WiegandState};

#[test]
fn keypad_code_of_four_bits() {
    let mut s = WiegandState::new(0);
    // key 11 = 1011
    for (k, b) in [1u32, 0, 1, 1].iter().enumerate() {
        s.receive_bit(*b, 1_000 + k as u64 * 100);
    }
    assert_eq!(s.try_complete(1_300 + 5_000_000, 5_000_000), None);
    assert_eq!(s.try_complete(1_300 + 5_000_001, 5_000_000), Some((4, 11)));
    assert!(!s.in_code);
    assert_eq!(s.bits, 0);
    assert_eq!(s.num, 0);
    assert_eq!(s.try_complete(u64::MAX, 0), None);
}

#[test]
fn new_code_starts_after_completion() {
    let mut s = WiegandState::new(0);
    s.receive_bit(1, 10);
    s.receive_bit(1, 20);
    assert_eq!(s.try_complete(100, 5), Some((2, 3)));
    s.receive_bit(0, 200);
    s.receive_bit(1, 210);
    assert_eq!(s.try_complete(300, 5), Some((2, 1)));
}

#[test]
fn long_codes_keep_the_last_32_bits() {
    let mut s = WiegandState::new(0);
    for k in 0..34u64 {
        s.receive_bit(1, k);
    }
    assert_eq!(s.try_complete(1_000, 5), Some((34, u32::MAX)));
}

#[test]
fn clock_going_back_never_completes() {
    let mut s = WiegandState::new(0);
    s.receive_bit(1, 1_000);
    assert_eq!(s.try_complete(10, 5), None);
    assert!(s.in_code);
}

#[test]
fn reader_pins() {
    let r = WiegandReader::new(17, 18);
    assert_eq!(r.pin0.pin, 17);
    assert_eq!(r.pin1.pin, 18);
}

fn receive_code(bits: &[u32]) -> Option<(u32, u32)> {
    let mut s = WiegandState::new(0);
    for (k, b) in bits.iter().enumerate() {
        s.receive_bit(*b, 10 + k as u64);
    }
    s.try_complete(1_000_000, 5)
}

#[test]
fn codes_up_to_32_bits_are_exact() {
    // A 26-bit card code: parity 1, facility 0xAB, card 0x1234, parity 1.
    let code: u32 = (1 << 25) | (0xAB << 17) | (0x1234 << 1) | 1;
    let bits: Vec<u32> = (0..26).rev().map(|i| (code >> i) & 1).collect();
    assert_eq!(receive_code(&bits), Some((26, code)));
    // All 32 bits, most significant first.
    let code32: u32 = 0xDEAD_BEEF;
    let bits32: Vec<u32> = (0..32).rev().map(|i| (code32 >> i) & 1).collect();
    assert_eq!(receive_code(&bits32), Some((32, code32)));
}
