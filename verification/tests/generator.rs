use rand::RngCore;
use rbattle::xorshift::XorShift128Plus;

#[test]
fn simple() {
    let mut rng = XorShift128Plus::new([1, 4]);

    // Calculated by hand following the algorithm given in the paper. The upper
    // bits are mostly zero because we started with a poor seed; once it has run
    // for a while, we'll get an even mix of ones and zeros in all 64 bits.
    assert_eq!(rng.next_u64(), 0x800049);
    assert_eq!(rng.next_u64(), 0x3000186);
    assert_eq!(rng.next_u64(), 0x400003001145);
}

#[test]
fn next_u32_keeps_the_low_half() {
    let mut rng = XorShift128Plus::new([1, 4]);
    assert_eq!(rng.next_u32(), 0x800049);
    assert_eq!(rng.next_u32(), 0x3000186);
    assert_eq!(rng.next_u32(), 0x3001145);
}

#[test]
fn state_words_follow_the_recurrence() {
    let mut rng = XorShift128Plus::new([1, 4]);
    assert_eq!(rng.state(), [1, 4]);
    let out = rng.next_u64();
    let state = rng.state();
    assert_eq!(state[0], 4);
    assert_eq!(state[1].wrapping_add(4), out);
}

#[test]
fn clones_yield_the_same_stream() {
    let mut rng = XorShift128Plus::new([0xcd9d5eaaf04bc9a7, 0x4602cc7098d01ef9]);
    rng.next_u64();
    let mut copy = rng.clone();
    for _ in 0..16 {
        assert_eq!(rng.next_u64(), copy.next_u64());
    }
}

#[test]
fn fill_bytes_takes_the_low_byte_of_each_output() {
    let mut rng = XorShift128Plus::new([1, 4]);
    let mut bytes = [0u8; 3];
    rng.fill_bytes(&mut bytes);
    assert_eq!(bytes, [0x49, 0x86, 0x45]);

    // Three outputs were used up.
    let mut other = XorShift128Plus::new([1, 4]);
    for _ in 0..3 {
        other.next_u64();
    }
    assert_eq!(rng.state(), other.state());

    let mut more = [0u8; 2];
    assert!(rng.try_fill_bytes(&mut more).is_ok());
    assert_eq!(more, [(other.next_u64() & 0xff) as u8, (other.next_u64() & 0xff) as u8]);

    let mut none: [u8; 0] = [];
    rng.fill_bytes(&mut none);
    assert_eq!(rng.state(), other.state());
}
