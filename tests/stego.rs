use zimhide::stego::{capacity, embed, extract};
use zimhide::Error;

#[test]
fn capacity_formula() {
    assert_eq!(capacity(0, 1), 0);
    assert_eq!(capacity(7, 1), 0);
    assert_eq!(capacity(8, 1), 1);
    assert_eq!(capacity(441_000, 1), 55_125);
    assert_eq!(capacity(441_000, 2), 110_250);
    assert_eq!(capacity(3, 3), 1);
    assert_eq!(capacity(5, 4), 2);
}

#[test]
fn embed_writes_msb_first_into_low_bits() {
    let mut s = vec![0i32; 8];
    embed(&mut s, &[0xA5], 1).unwrap();
    assert_eq!(s, vec![1, 0, 1, 0, 0, 1, 0, 1]);

    let mut s = vec![-1i32; 2];
    embed(&mut s, &[0x3C], 4).unwrap();
    assert_eq!(s, vec![-13, -4]);
}

#[test]
fn embed_leaves_bits_past_the_payload() {
    // 8 payload bits at 3 bits per sample: the third sample keeps its lowest bit.
    let mut s = vec![0b111i32, 0b111, 0b111, 0b111];
    embed(&mut s, &[0x00], 3).unwrap();
    assert_eq!(s, vec![0, 0, 0b001, 0b111]);
}

#[test]
fn round_trip_every_profile() {
    let payload: Vec<u8> = (0..40u32).map(|i| (i * 37 + 11) as u8).collect();
    for bits in 1..=4u32 {
        let original: Vec<i32> = (0..400i32).map(|i| i * 1237 - 200_000).collect();
        let mut s = original.clone();
        embed(&mut s, &payload, bits).unwrap();
        assert_eq!(extract(&s, bits, payload.len()), payload);
        for (a, b) in s.iter().zip(original.iter()) {
            assert_eq!(a >> bits, b >> bits);
        }
    }
}

#[test]
fn capacity_boundary() {
    let n = 100usize;
    for bits in 1..=4u32 {
        let cap = capacity(n, bits);
        let mut s = vec![0i32; n];
        assert!(embed(&mut s, &vec![0xFFu8; cap], bits).is_ok());
        let mut s = vec![7i32; n];
        let r = embed(&mut s, &vec![0xFFu8; cap + 1], bits);
        assert_eq!(r, Err(Error::Capacity { required: cap + 1, available: cap }));
        assert_eq!(s, vec![7i32; n]);
    }
}

#[test]
fn empty_payload_changes_nothing() {
    let mut s = vec![5i32, -6, 7];
    embed(&mut s, &[], 2).unwrap();
    assert_eq!(s, vec![5, -6, 7]);
    assert_eq!(extract(&s, 2, 0), Vec::<u8>::new());
}
