use rand::rngs::StdRng;
use rand::SeedableRng;
use sandfall::matter::{MatterId, MatterWithColor, EMPTY_CELL};
use sandfall::rgba::{u32_rgba_to_u8_rgba, u8_rgba_to_u32_rgba};

fn channels(v: u32) -> (i32, i32, i32) {
    ((v >> 24) as i32, ((v >> 16) & 0xff) as i32, ((v >> 8) & 0xff) as i32)
}

#[test]
fn rgba_words_split_and_join() {
    assert_eq!(u32_rgba_to_u8_rgba(0x1122_3344), [0x11, 0x22, 0x33, 0x44]);
    assert_eq!(u8_rgba_to_u32_rgba(0x11, 0x22, 0x33, 0x44), 0x1122_3344);
    assert_eq!(u8_rgba_to_u32_rgba(0xff, 0, 0xff, 0), 0xff00_ff00);
    assert_eq!(u32_rgba_to_u8_rgba(0xc2b2_80ff), [0xc2, 0xb2, 0x80, 0xff]);
}

#[test]
fn base_colours() {
    assert_eq!(MatterId::Sand.color_rgba_u8(), [0xc2, 0xb2, 0x80, 0xff]);
    assert_eq!(MatterId::Wood.color_rgba_u8(), [0xba, 0x8c, 0x63, 0xff]);
    assert_eq!(MatterId::Empty.color_rgba_u8(), [0, 0, 0, 0]);
}

#[test]
fn new_packs_base_colour_and_id() {
    assert_eq!(MatterWithColor::new(MatterId::Sand).value, 0xc2b2_8001);
    assert_eq!(MatterWithColor::new(MatterId::Wood).value, 0xba8c_6302);
    assert_eq!(MatterWithColor::new(MatterId::Empty).value, EMPTY_CELL);
    assert_eq!(MatterWithColor::new(MatterId::Sand).matter_id(), MatterId::Sand);
    assert_eq!(MatterWithColor::new(MatterId::Wood).matter_id(), MatterId::Wood);
    assert_eq!(MatterWithColor::new(MatterId::Empty).matter_id(), MatterId::Empty);
}

#[test]
fn offsets_are_clamped_per_channel() {
    assert_eq!(MatterWithColor::with_offsets(MatterId::Sand, 100, -250, 10).value, 0xff00_8a01);
    assert_eq!(MatterWithColor::with_offsets(MatterId::Wood, -1, 1, 0).value, 0xb98d_6302);
    assert_eq!(MatterWithColor::with_offsets(MatterId::Sand, i32::MAX, i32::MIN, 0).value, 0xff00_8001);
    assert_eq!(MatterWithColor::with_offsets(MatterId::Empty, 5, 5, 5).value, EMPTY_CELL);
}

#[test]
fn empty_encodes_canonically_for_every_seed() {
    for seed in 0..200 {
        let mut rng = StdRng::seed_from_u64(seed);
        let c = MatterWithColor::with_jitter(MatterId::Empty, &mut rng);
        assert_eq!(c.value, EMPTY_CELL);
        assert_eq!(c.matter_id(), MatterId::Empty);
    }
}

#[test]
fn jittered_encoding_round_trips() {
    for seed in 0..200 {
        let mut rng = StdRng::seed_from_u64(seed);
        for m in [MatterId::Sand, MatterId::Wood] {
            let c = MatterWithColor::with_jitter(m, &mut rng);
            assert_eq!(c.matter_id(), m);
            assert_eq!(c.value & 0xff, m.id() as u32);
            let (r, g, b) = channels(c.value);
            let base = m.color_rgba_u8();
            assert!((r - base[0] as i32).abs() <= 25);
            assert!((g - base[1] as i32).abs() <= 25);
            assert!((b - base[2] as i32).abs() <= 25);
        }
    }
}

#[test]
fn jitter_varies_the_colour() {
    let mut rng = StdRng::seed_from_u64(3);
    let first = MatterWithColor::with_jitter(MatterId::Sand, &mut rng).value;
    let mut differs = false;
    for _ in 0..20 {
        if MatterWithColor::with_jitter(MatterId::Sand, &mut rng).value != first {
            differs = true;
        }
    }
    assert!(differs);
}

#[test]
fn decoding_unknown_byte_reads_empty() {
    assert_eq!(MatterId::from(7u8), MatterId::Empty);
    assert_eq!(MatterId::from(0u8), MatterId::Empty);
    assert_eq!(MatterId::from(1u8), MatterId::Sand);
    assert_eq!(MatterId::from(2u8), MatterId::Wood);
    assert_eq!(MatterWithColor::from(0xffff_ff07u32).matter_id(), MatterId::Empty);
    assert_eq!(MatterWithColor::from(0x0000_0101u32).matter_id(), MatterId::Sand);
    assert_eq!(MatterId::default(), MatterId::Empty);
    assert_eq!(MatterWithColor::default().value, EMPTY_CELL);
}
