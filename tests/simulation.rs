use rand::rngs::StdRng;
use rand::SeedableRng;
use sandfall::grid::{ConfigError, GridPos};
use sandfall::matter::MatterId;
use sandfall::simulator::CASimulator;

fn sim(width: u32, height: u32) -> CASimulator {
    CASimulator::new(width, height, 1, 1).unwrap()
}

fn rng() -> StdRng {
    StdRng::seed_from_u64(7)
}

fn count_matter(s: &CASimulator, m: MatterId) -> usize {
    let mut n = 0;
    for y in 0..s.height() as i32 {
        for x in 0..s.width() as i32 {
            if s.query_matter(GridPos::new(x, y)) == Some(m) {
                n += 1;
            }
        }
    }
    n
}

#[test]
fn test_example_sandfall() {
    let mut rng = rng();
    let mut simulator = CASimulator::new(512, 512, 32, 32).unwrap();
    let pos = GridPos::new(10, 10);
    // Empty matter first
    assert_eq!(simulator.query_matter(pos), Some(MatterId::Empty));
    let radius = 0.5f32 as u32;
    simulator.draw_matter(&[pos, pos], radius, MatterId::Sand, &mut rng);
    // After drawing, we have sand
    assert_eq!(simulator.query_matter(pos), Some(MatterId::Sand));
    simulator.step(1, false);
    // Old position is empty
    assert_eq!(simulator.query_matter(pos), Some(MatterId::Empty));
    // New position under has sand
    assert_eq!(simulator.query_matter(GridPos::new(10, 9)), Some(MatterId::Sand));
}

#[test]
fn construction_accepts_dividing_tiles() {
    let s = CASimulator::new(20, 20, 4, 5).unwrap();
    assert_eq!(s.width(), 20);
    assert_eq!(s.height(), 20);
    assert_eq!(s.sim_step, 0);
    assert_eq!(s.move_step(), 0);
    assert_eq!(s.color_image().len(), 400);
    assert!(s.color_image().iter().all(|&p| p == 0x0000_00ff));
}

#[test]
fn construction_rejects_tiles_that_do_not_divide() {
    assert_eq!(CASimulator::new(20, 20, 3, 4).err(), Some(ConfigError::TileMismatch));
    assert_eq!(CASimulator::new(20, 21, 4, 4).err(), Some(ConfigError::TileMismatch));
    assert_eq!(CASimulator::new(20, 20, 0, 4).err(), Some(ConfigError::TileMismatch));
    assert_eq!(CASimulator::new(20, 20, 4, 0).err(), Some(ConfigError::TileMismatch));
}

#[test]
fn construction_rejects_unaddressable_grids() {
    assert_eq!(CASimulator::new(1 << 31, 1, 1, 1).err(), Some(ConfigError::TooLarge));
    assert_eq!(CASimulator::new(1, 1 << 31, 1, 1).err(), Some(ConfigError::TooLarge));
}

#[test]
fn query_is_none_off_the_grid() {
    let s = sim(20, 20);
    assert_eq!(s.query_matter(GridPos::new(-1, 0)), None);
    assert_eq!(s.query_matter(GridPos::new(20, 0)), None);
    assert_eq!(s.query_matter(GridPos::new(0, -1)), None);
    assert_eq!(s.query_matter(GridPos::new(0, 20)), None);
    assert_eq!(s.query_matter(GridPos::new(i32::MIN, i32::MAX)), None);
    assert_eq!(s.query_matter(GridPos::new(0, 0)), Some(MatterId::Empty));
    assert_eq!(s.query_matter(GridPos::new(19, 19)), Some(MatterId::Empty));
    assert_eq!(s.query_matter(GridPos::new(19, 0)), Some(MatterId::Empty));
}

#[test]
fn gravity_moves_sand_down_one_row() {
    let mut rng = rng();
    let mut s = CASimulator::new(20, 20, 4, 4).unwrap();
    s.draw_matter(&[GridPos::new(10, 10)], 0, MatterId::Sand, &mut rng);
    assert_eq!(s.query_matter(GridPos::new(10, 10)), Some(MatterId::Sand));
    s.step(1, false);
    assert_eq!(s.query_matter(GridPos::new(10, 10)), Some(MatterId::Empty));
    assert_eq!(s.query_matter(GridPos::new(10, 9)), Some(MatterId::Sand));
    assert_eq!(count_matter(&s, MatterId::Sand), 1);
    assert_eq!(s.sim_step, 1);
    assert_eq!(s.move_step(), 2);
}

#[test]
fn paused_step_keeps_matter_and_colours_image() {
    let mut rng = rng();
    let mut s = CASimulator::new(20, 20, 4, 4).unwrap();
    s.draw_matter(&[GridPos::new(10, 10)], 0, MatterId::Sand, &mut rng);
    let idx = 10 * 20 + 10;
    assert_eq!(s.color_image()[idx], 0x0000_00ff);
    s.step(1, true);
    assert_eq!(s.query_matter(GridPos::new(10, 10)), Some(MatterId::Sand));
    assert_eq!(s.query_matter(GridPos::new(10, 9)), Some(MatterId::Empty));
    let px = s.color_image()[idx];
    assert_eq!(px & 0xff, 0xff);
    let (r, g, b) = ((px >> 24) as i32, ((px >> 16) & 0xff) as i32, ((px >> 8) & 0xff) as i32);
    assert!((r - 0xc2).abs() <= 25 && (g - 0xb2).abs() <= 25 && (b - 0x80).abs() <= 25);
    assert_eq!(s.sim_step, 1);
    assert_eq!(s.move_step(), 0);
}

#[test]
fn several_substeps_fall_several_rows() {
    let mut rng = rng();
    let mut s = sim(20, 20);
    s.draw_matter(&[GridPos::new(3, 15)], 0, MatterId::Wood, &mut rng);
    s.step(4, false);
    assert_eq!(s.query_matter(GridPos::new(3, 11)), Some(MatterId::Wood));
    assert_eq!(s.move_step(), 8);
    s.step(100, false);
    assert_eq!(s.query_matter(GridPos::new(3, 0)), Some(MatterId::Wood));
    assert_eq!(count_matter(&s, MatterId::Wood), 1);
}

#[test]
fn sand_stacks_in_a_one_cell_wide_column() {
    let mut rng = rng();
    let mut s = sim(1, 20);
    for k in 0..5 {
        s.draw_matter(&[GridPos::new(0, 19)], 0, MatterId::Sand, &mut rng);
        s.step(30, false);
        for y in 0..=k {
            assert_eq!(s.query_matter(GridPos::new(0, y)), Some(MatterId::Sand));
        }
        assert_eq!(s.query_matter(GridPos::new(0, k + 1)), Some(MatterId::Empty));
        assert_eq!(count_matter(&s, MatterId::Sand), (k + 1) as usize);
    }
}

#[test]
fn dropped_sand_piles_up_and_is_conserved() {
    let mut rng = rng();
    let mut s = sim(20, 20);
    for k in 1..=12 {
        s.stage_matter(&[GridPos::new(10, 19)], 0, MatterId::Sand, &mut rng);
        s.step(25, false);
        assert_eq!(count_matter(&s, MatterId::Sand), k);
    }
    assert_eq!(s.query_matter(GridPos::new(10, 0)), Some(MatterId::Sand));
    assert_eq!(s.query_matter(GridPos::new(10, 1)), Some(MatterId::Sand));
    assert_eq!(s.query_matter(GridPos::new(9, 0)), Some(MatterId::Sand));
    assert_eq!(s.query_matter(GridPos::new(11, 0)), Some(MatterId::Sand));
}

#[test]
fn movement_conserves_every_matter() {
    let mut rng = rng();
    let mut s = sim(20, 20);
    s.draw_matter(&[GridPos::new(5, 15), GridPos::new(6, 15)], 2, MatterId::Sand, &mut rng);
    s.draw_matter(&[GridPos::new(12, 10)], 1, MatterId::Wood, &mut rng);
    let sand = count_matter(&s, MatterId::Sand);
    let wood = count_matter(&s, MatterId::Wood);
    for _ in 0..10 {
        s.step(3, false);
        assert_eq!(count_matter(&s, MatterId::Sand), sand);
        assert_eq!(count_matter(&s, MatterId::Wood), wood);
    }
}

#[test]
fn slide_goes_left_then_right() {
    let mut rng = rng();
    let mut s = sim(9, 5);
    s.draw_matter(&[GridPos::new(4, 0), GridPos::new(4, 1)], 0, MatterId::Sand, &mut rng);
    s.step(1, false);
    assert_eq!(s.query_matter(GridPos::new(3, 0)), Some(MatterId::Sand));
    assert_eq!(s.query_matter(GridPos::new(4, 0)), Some(MatterId::Sand));
    assert_eq!(s.query_matter(GridPos::new(4, 1)), Some(MatterId::Empty));
    s.draw_matter(&[GridPos::new(4, 1)], 0, MatterId::Sand, &mut rng);
    s.step(1, false);
    assert_eq!(s.query_matter(GridPos::new(5, 0)), Some(MatterId::Sand));
    assert_eq!(s.query_matter(GridPos::new(4, 1)), Some(MatterId::Empty));
}

#[test]
fn sand_on_sand_with_both_diagonals_full_stays() {
    let mut rng = rng();
    let mut s = sim(9, 5);
    s.draw_matter(
        &[GridPos::new(3, 0), GridPos::new(4, 0), GridPos::new(5, 0), GridPos::new(4, 1)],
        0,
        MatterId::Sand,
        &mut rng,
    );
    s.step(3, false);
    assert_eq!(s.query_matter(GridPos::new(4, 1)), Some(MatterId::Sand));
    assert_eq!(count_matter(&s, MatterId::Sand), 4);
}

#[test]
fn later_staged_stroke_wins_on_overlap() {
    let mut rng = rng();
    let mut s = sim(20, 20);
    s.stage_matter(&[GridPos::new(5, 5)], 1, MatterId::Sand, &mut rng);
    s.stage_matter(&[GridPos::new(6, 5)], 1, MatterId::Wood, &mut rng);
    // Staged writes are not visible before the step.
    assert_eq!(s.query_matter(GridPos::new(5, 5)), Some(MatterId::Empty));
    s.step(1, true);
    assert_eq!(s.query_matter(GridPos::new(5, 5)), Some(MatterId::Wood));
    assert_eq!(s.query_matter(GridPos::new(6, 5)), Some(MatterId::Wood));
    assert_eq!(s.query_matter(GridPos::new(5, 6)), Some(MatterId::Wood));
    assert_eq!(s.query_matter(GridPos::new(4, 5)), Some(MatterId::Sand));
    assert_eq!(s.query_matter(GridPos::new(4, 4)), Some(MatterId::Sand));
    assert_eq!(s.query_matter(GridPos::new(7, 5)), Some(MatterId::Wood));
    assert_eq!(s.query_matter(GridPos::new(8, 5)), Some(MatterId::Empty));
}

#[test]
fn later_point_of_one_stroke_wins_and_empty_erases() {
    let mut rng = rng();
    let mut s = sim(20, 20);
    s.draw_matter(&[GridPos::new(5, 5)], 2, MatterId::Sand, &mut rng);
    s.draw_matter(&[GridPos::new(5, 5)], 0, MatterId::Empty, &mut rng);
    assert_eq!(s.query_matter(GridPos::new(5, 5)), Some(MatterId::Empty));
    assert_eq!(s.query_matter(GridPos::new(5, 6)), Some(MatterId::Sand));
}

#[test]
fn brush_radius_rounds_distance_to_nearest() {
    let mut rng = rng();
    let mut s = sim(20, 20);
    s.draw_matter(&[GridPos::new(10, 10)], 2, MatterId::Sand, &mut rng);
    // Distances up to sqrt(5) round to 2; sqrt(8) rounds to 3.
    assert_eq!(count_matter(&s, MatterId::Sand), 21);
    assert_eq!(s.query_matter(GridPos::new(12, 11)), Some(MatterId::Sand));
    assert_eq!(s.query_matter(GridPos::new(12, 12)), Some(MatterId::Empty));
    assert_eq!(s.query_matter(GridPos::new(10, 12)), Some(MatterId::Sand));
    assert_eq!(s.query_matter(GridPos::new(10, 13)), Some(MatterId::Empty));
}

#[test]
fn radius_one_covers_three_by_three() {
    let mut rng = rng();
    let mut s = sim(20, 20);
    s.draw_matter(&[GridPos::new(10, 10)], 1, MatterId::Wood, &mut rng);
    assert_eq!(count_matter(&s, MatterId::Wood), 9);
    assert_eq!(s.query_matter(GridPos::new(11, 11)), Some(MatterId::Wood));
}

#[test]
fn brush_is_clipped_at_the_edges() {
    let mut rng = rng();
    let mut s = sim(20, 20);
    s.draw_matter(&[GridPos::new(0, 0)], 1, MatterId::Wood, &mut rng);
    assert_eq!(count_matter(&s, MatterId::Wood), 4);
    s.draw_matter(&[GridPos::new(-1, 10)], 1, MatterId::Sand, &mut rng);
    assert_eq!(count_matter(&s, MatterId::Sand), 3);
    assert_eq!(s.query_matter(GridPos::new(0, 10)), Some(MatterId::Sand));
    s.draw_matter(&[GridPos::new(i32::MAX, i32::MIN)], u32::MAX, MatterId::Empty, &mut rng);
    assert_eq!(count_matter(&s, MatterId::Empty), 400);
}

#[test]
fn drawing_on_empty_line_changes_nothing() {
    let mut rng = rng();
    let mut s = sim(4, 4);
    s.draw_matter(&[], 3, MatterId::Sand, &mut rng);
    assert_eq!(count_matter(&s, MatterId::Empty), 16);
}

#[test]
fn draw_applies_writes_staged_before_it() {
    let mut rng = rng();
    let mut s = sim(20, 20);
    s.stage_matter(&[GridPos::new(2, 2)], 0, MatterId::Wood, &mut rng);
    s.draw_matter(&[GridPos::new(8, 8)], 0, MatterId::Sand, &mut rng);
    assert_eq!(s.query_matter(GridPos::new(2, 2)), Some(MatterId::Wood));
    assert_eq!(s.query_matter(GridPos::new(8, 8)), Some(MatterId::Sand));
}

#[test]
fn zero_substeps_only_colours() {
    let mut rng = rng();
    let mut s = sim(4, 4);
    s.draw_matter(&[GridPos::new(1, 3)], 0, MatterId::Sand, &mut rng);
    s.step(0, false);
    assert_eq!(s.query_matter(GridPos::new(1, 3)), Some(MatterId::Sand));
    assert_ne!(s.color_image()[3 * 4 + 1], 0x0000_00ff);
    assert_eq!(s.move_step(), 0);
    assert_eq!(s.sim_step, 1);
}

#[test]
fn slide_falls_back_to_the_other_side() {
    let mut rng = rng();
    let mut s = sim(9, 5);
    // Left of the pile is blocked, so the top cell goes right although the
    // first substep prefers the left.
    s.draw_matter(
        &[GridPos::new(3, 0), GridPos::new(4, 0), GridPos::new(4, 1)],
        0,
        MatterId::Sand,
        &mut rng,
    );
    s.step(1, false);
    assert_eq!(s.query_matter(GridPos::new(5, 0)), Some(MatterId::Sand));
    assert_eq!(s.query_matter(GridPos::new(4, 1)), Some(MatterId::Empty));
    assert_eq!(count_matter(&s, MatterId::Sand), 3);
}

#[test]
fn preferred_slide_claims_a_shared_target() {
    let mut rng = rng();
    let mut s = sim(9, 5);
    // (3,1) is blocked on the left and would fall back to (4,0); (5,1) slides
    // there by preference in the first substep, so (3,1) stays.
    s.draw_matter(
        &[
            GridPos::new(2, 0),
            GridPos::new(3, 0),
            GridPos::new(5, 0),
            GridPos::new(3, 1),
            GridPos::new(5, 1),
        ],
        0,
        MatterId::Wood,
        &mut rng,
    );
    s.step(1, false);
    assert_eq!(s.query_matter(GridPos::new(4, 0)), Some(MatterId::Wood));
    assert_eq!(s.query_matter(GridPos::new(3, 1)), Some(MatterId::Wood));
    assert_eq!(s.query_matter(GridPos::new(5, 1)), Some(MatterId::Empty));
    assert_eq!(s.query_matter(GridPos::new(6, 0)), Some(MatterId::Empty));
    assert_eq!(count_matter(&s, MatterId::Wood), 5);
}
