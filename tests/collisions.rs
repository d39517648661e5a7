use clacks::{Block, SimError, Simulator, MAX_MASS};

const S: i64 = 1_000_000_000_000_000;
const V: i64 = 10_000_000;

fn pi_scenario(large_mass: u64, iterations: u64) -> u64 {
    let small = Block::new(10 * S, 0, 1, 20 * S as u64);
    let large = Block::new(40 * S, -V, large_mass, 100 * S as u64);
    let mut sim = Simulator::new(small, large, 0, iterations, false).unwrap();
    for _ in 0..20_000 {
        sim.advance(1_000_000);
        let s = sim.small_block();
        let l = sim.large_block();
        let gap = l.pos as i128 - (s.pos as i128 + s.size as i128);
        if s.vel >= 0 && l.vel >= s.vel && gap >= 0 && s.pos > 0 {
            return sim.collision_count();
        }
    }
    panic!("the blocks did not separate");
}

#[test]
fn bounce_exact_value() {
    let a = Block::new(0, 0, 1, 20);
    let b = Block::new(30, -100, 100, 100);
    // (1 - 100) * 0 + 2 * 100 * -100 = -20000, over 101, toward zero
    assert_eq!(a.bounce(&b), -198);
    // (100 - 1) * -100 + 2 * 1 * 0 = -9900, over 101, toward zero
    assert_eq!(b.bounce(&a), -98);
}

#[test]
fn bounce_rounds_toward_zero_both_signs() {
    let a = Block::new(0, 7, 2, 0);
    let b = Block::new(0, 0, 1, 0);
    // (2 - 1) * 7 = 7, over 3
    assert_eq!(a.bounce(&b), 2);
    let c = Block::new(0, -7, 2, 0);
    assert_eq!(c.bounce(&b), -2);
    // 2 * 2 * 7 = 28, over 3
    assert_eq!(b.bounce(&a), 9);
    assert_eq!(b.bounce(&c), -9);
}

#[test]
fn bounce_does_not_change_either_block() {
    let a = Block::new(3, 5, 4, 1);
    let b = Block::new(9, -2, 6, 1);
    let _ = a.bounce(&b);
    assert_eq!(a, Block::new(3, 5, 4, 1));
    assert_eq!(b, Block::new(9, -2, 6, 1));
}

#[test]
fn equal_masses_exchange_velocities() {
    let a = Block::new(0, 123_456, 7, 1);
    let b = Block::new(1, -98_765, 7, 1);
    assert_eq!(a.bounce(&b), -98_765);
    assert_eq!(b.bounce(&a), 123_456);
}

#[test]
fn momentum_kept_within_total_mass() {
    let a = Block::new(0, 1_000_003, 3, 1);
    let b = Block::new(1, -2_000_017, 11, 1);
    let va = a.bounce(&b) as i128;
    let vb = b.bounce(&a) as i128;
    let before = 3i128 * 1_000_003 + 11i128 * -2_000_017;
    let after = 3 * va + 11 * vb;
    assert!((after - before).abs() < 14);
}

#[test]
fn energy_never_grows() {
    let a = Block::new(0, 1_000_003, 3, 1);
    let b = Block::new(1, -2_000_017, 11, 1);
    let va = a.bounce(&b) as i128;
    let vb = b.bounce(&a) as i128;
    let before = 3i128 * 1_000_003 * 1_000_003 + 11i128 * 2_000_017 * 2_000_017;
    let after = 3 * va * va + 11 * vb * vb;
    assert!(after <= before);
    assert!(before - after < 2 * (3 * va.abs() + 11 * vb.abs() + 14));
}

#[test]
fn hit_wall_reflects_at_or_past_wall() {
    let mut at = Block::new(0, -5, 1, 1);
    assert!(at.hit_wall(0));
    assert_eq!(at.vel, 5);
    let mut past = Block::new(-3, 4, 1, 1);
    assert!(past.hit_wall(0));
    assert_eq!(past.vel, -4);
    let mut before = Block::new(1, -5, 1, 1);
    assert!(!before.hit_wall(0));
    assert_eq!(before.vel, -5);
}

#[test]
fn hit_wall_keeps_speed() {
    for v in [i64::MAX, -i64::MAX, 0, 17, -17] {
        let mut b = Block::new(-1, v, 1, 1);
        assert!(b.hit_wall(0));
        assert_eq!(b.vel.abs(), v.abs());
        assert_eq!(b.pos, -1);
    }
}

#[test]
fn update_pos_moves_by_velocity_times_dt() {
    let mut b = Block::new(100, -7, 1, 1);
    b.update_pos(5);
    assert_eq!(b.pos, 65);
    assert_eq!(b.vel, -7);
}

#[test]
fn update_pos_saturates() {
    let mut b = Block::new(i64::MAX - 10, 3, 1, 1);
    b.update_pos(4);
    assert_eq!(b.pos, i64::MAX);
    let mut c = Block::new(i64::MIN + 10, -i64::MAX, 1, 1);
    c.update_pos(u64::MAX);
    assert_eq!(c.pos, i64::MIN);
}

#[test]
fn new_rejects_zero_mass() {
    let ok = Block::new(0, 0, 1, 1);
    let bad = Block::new(0, 0, 0, 1);
    assert_eq!(Simulator::new(bad, ok, 0, 10, false).err(), Some(SimError::InvalidParameter));
    assert_eq!(Simulator::new(ok, bad, 0, 10, false).err(), Some(SimError::InvalidParameter));
}

#[test]
fn new_rejects_oversized_mass_and_min_velocity() {
    let ok = Block::new(0, 0, 1, 1);
    let heavy = Block::new(0, 0, MAX_MASS + 1, 1);
    let fast = Block::new(0, i64::MIN, 1, 1);
    assert_eq!(Simulator::new(heavy, ok, 0, 10, false).err(), Some(SimError::InvalidParameter));
    assert_eq!(Simulator::new(ok, fast, 0, 10, false).err(), Some(SimError::InvalidParameter));
    assert!(Simulator::new(Block::new(0, -i64::MAX, MAX_MASS, 1), ok, 0, 10, false).is_ok());
}

#[test]
fn new_rejects_zero_iterations() {
    let ok = Block::new(0, 0, 1, 1);
    assert_eq!(Simulator::new(ok, ok, 0, 0, false).err(), Some(SimError::InvalidParameter));
}

#[test]
fn new_starts_at_zero_count() {
    let small = Block::new(5, 0, 1, 2);
    let large = Block::new(20, -1, 4, 3);
    let sim = Simulator::new(small, large, -3, 8, false).unwrap();
    assert_eq!(sim.collision_count(), 0);
    assert_eq!(sim.small_block(), small);
    assert_eq!(sim.large_block(), large);
    assert_eq!(sim.wall_pos(), -3);
    assert_eq!(sim.iterations(), 8);
}

#[test]
fn step_counts_block_and_wall_collisions_separately() {
    // overlapping blocks, small block on the wall: two events in one sub-step
    let small = Block::new(0, -4, 1, 10);
    let large = Block::new(9, -4, 1, 10);
    let mut sim = Simulator::new(small, large, 0, 1, false).unwrap();
    sim.step(1);
    assert_eq!(sim.collision_count(), 2);
    // equal masses with equal velocities: exchange keeps -4, the wall makes it 4
    assert_eq!(sim.small_block().vel, 4);
    assert_eq!(sim.small_block().pos, 4);
    assert_eq!(sim.large_block().vel, -4);
    assert_eq!(sim.large_block().pos, 5);
}

#[test]
fn step_large_block_wall_flag() {
    // both blocks at or past the wall, apart from each other
    let small = Block::new(-100, 0, 1, 1);
    let large = Block::new(-2, -3, 5, 1);
    let mut with = Simulator::new(small, large, 0, 1, true).unwrap();
    with.step(1);
    assert_eq!(with.collision_count(), 2);
    assert_eq!(with.large_block().vel, 3);
    assert_eq!(with.large_block().pos, 1);
    let mut without = Simulator::new(small, large, 0, 1, false).unwrap();
    without.step(1);
    assert_eq!(without.collision_count(), 1);
    assert_eq!(without.large_block().vel, -3);
    assert_eq!(without.large_block().pos, -5);
}

#[test]
fn step_without_contact_only_moves() {
    let small = Block::new(50, 2, 1, 10);
    let large = Block::new(100, -3, 9, 10);
    let mut sim = Simulator::new(small, large, 0, 1, false).unwrap();
    sim.step(10);
    assert_eq!(sim.collision_count(), 0);
    assert_eq!(sim.small_block().pos, 70);
    assert_eq!(sim.large_block().pos, 70);
}

#[test]
fn advance_splits_frame_into_substeps() {
    let small = Block::new(1000, 3, 1, 1);
    let large = Block::new(100_000, 0, 1, 1);
    let mut sim = Simulator::new(small, large, 0, 4, false).unwrap();
    // four sub-steps of 10 time units
    sim.advance(43);
    assert_eq!(sim.small_block().pos, 1120);
}

#[test]
fn count_never_decreases_across_advances() {
    let small = Block::new(10 * S, 0, 1, 20 * S as u64);
    let large = Block::new(40 * S, -V, 100, 100 * S as u64);
    let mut sim = Simulator::new(small, large, 0, 1000, false).unwrap();
    let mut last = 0;
    for _ in 0..4000 {
        sim.advance(1_000_000);
        let c = sim.collision_count();
        assert!(c >= last);
        assert!(c <= last + 3 * 1000);
        last = c;
    }
    assert_eq!(last, 31);
}

#[test]
fn pi_digits_mass_ratio_one() {
    assert_eq!(pi_scenario(1, 1000), 3);
}

#[test]
fn pi_digits_mass_ratio_hundred() {
    assert_eq!(pi_scenario(100, 1000), 31);
}

#[test]
fn pi_digits_mass_ratio_ten_thousand() {
    assert_eq!(pi_scenario(10_000, 1000), 314);
}

#[test]
fn finer_substeps_keep_converged_count() {
    let coarse = pi_scenario(100, 1000);
    let fine = pi_scenario(100, 4000);
    assert_eq!(coarse, 31);
    assert!(fine >= coarse);
    assert_eq!(fine, 31);
}
