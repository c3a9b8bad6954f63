use nnet_optimizer::classifier_parts::breeder::{
    Breeder, MAX_ANNEALING_TEMP, MAX_P1_FAVOURABILITY, MIN_ANNEALING_TEMP, MIN_P1_FAVOURABILITY,
};
use nnet_optimizer::classifier_parts::operators::HyperParameterGates;
use nnet_optimizer::classifier_parts::optimize_nnet::schedule_step;
use nnet_optimizer::classifier_parts::schedule::Schedule;
use nnet_optimizer::fixed_point::{blend, saturate, ONE, ONE_TENTH};

#[test]
fn one_tenth_is_a_tenth_of_one() {
    assert_eq!(ONE, 1_000_000_000);
    assert_eq!(ONE_TENTH * 10, ONE);
}

#[test]
fn saturate_pins_to_the_ends() {
    assert_eq!(saturate(5), 5);
    assert_eq!(saturate(-5), -5);
    assert_eq!(saturate(i64::MAX as i128 + 1), i64::MAX);
    assert_eq!(saturate(i64::MIN as i128 - 1), i64::MIN);
    assert_eq!(saturate(i64::MAX as i128), i64::MAX);
    assert_eq!(saturate(i64::MIN as i128), i64::MIN);
}

#[test]
fn blend_weighs_the_first_value_by_the_share() {
    // 2.0 * 0.75 + 4.0 * 0.25 = 2.5
    assert_eq!(blend(2 * ONE, 4 * ONE, 750_000_000), 2_500_000_000);
    assert_eq!(blend(2 * ONE, 4 * ONE, ONE as u64), 2 * ONE);
    assert_eq!(blend(2 * ONE, 4 * ONE, 0), 4 * ONE);
    // -1.0 * 0.95 + 1.0 * 0.05 = -0.9
    assert_eq!(blend(-ONE, ONE, 950_000_000), -900_000_000);
}

#[test]
fn blend_rounds_toward_zero() {
    // (1 * 550_000_000 + 0) / 1_000_000_000 = 0.55 units -> 0
    assert_eq!(blend(1, 0, 550_000_000), 0);
    assert_eq!(blend(-1, 0, 550_000_000), 0);
    assert_eq!(blend(3, 0, 550_000_000), 1);
    assert_eq!(blend(-3, 0, 550_000_000), -1);
}

#[test]
fn blend_of_extremes_stays_in_range() {
    assert_eq!(blend(i64::MAX, i64::MAX, 550_000_000), i64::MAX);
    assert_eq!(blend(i64::MIN, i64::MIN, 550_000_000), i64::MIN);
}

#[test]
fn schedule_drop_lowers_by_one_step() {
    let mut schedule = Schedule::new(1000, 100, 300);
    schedule.drop();
    assert_eq!(schedule.current, 700);
    assert!(!schedule.min_reached());
    schedule.drop();
    assert_eq!(schedule.current, 400);
    schedule.drop();
    assert_eq!(schedule.current, 100);
    assert!(schedule.min_reached());
    schedule.drop();
    assert_eq!(schedule.current, 100);
}

#[test]
fn schedule_drop_is_clamped_to_the_floor() {
    let mut schedule = Schedule::new(1000, 100, 400);
    schedule.drop();
    schedule.drop();
    assert_eq!(schedule.current, 200);
    schedule.drop();
    assert_eq!(schedule.current, 100);
}

#[test]
fn schedule_reaches_floor_within_the_bound() {
    for step in 1..=40u64 {
        let mut schedule = Schedule::new(1000, 10, step);
        let bound = (990 + step - 1) / step;
        let mut drops = 0;
        while !schedule.min_reached() {
            schedule.drop();
            drops += 1;
        }
        assert!(drops <= bound);
        assert_eq!(drops, bound);
    }
}

#[test]
fn schedule_reset_lowers_the_ceiling() {
    let mut schedule = Schedule::new(1000, 100, 300);
    schedule.drop();
    schedule.drop();
    schedule.reset_to_adjusted_max();
    assert_eq!(schedule.ceiling, 700);
    assert_eq!(schedule.current, 700);
    assert!(!schedule.min_ceiling_reached());
    schedule.reset_to_adjusted_max();
    schedule.reset_to_adjusted_max();
    assert_eq!(schedule.ceiling, 100);
    assert_eq!(schedule.current, 100);
    assert!(schedule.min_ceiling_reached());
    schedule.reset_to_adjusted_max();
    assert_eq!(schedule.ceiling, 100);
}

#[test]
fn schedule_total_reset_restores_the_maximum() {
    let mut schedule = Schedule::new(1000, 100, 300);
    schedule.reset_to_adjusted_max();
    schedule.drop();
    schedule.total_reset();
    assert_eq!(schedule.ceiling, 1000);
    assert_eq!(schedule.current, 1000);
    assert_eq!(schedule.max, 1000);
    assert_eq!(schedule.min, 100);
    assert_eq!(schedule.step, 300);
}

#[test]
fn schedule_with_step_zero_never_moves() {
    let mut schedule = Schedule::new(10, 5, 0);
    schedule.drop();
    schedule.reset_to_adjusted_max();
    assert_eq!(schedule.current, 10);
    assert_eq!(schedule.ceiling, 10);
}

#[test]
fn schedule_step_rounds_up() {
    assert_eq!(schedule_step(990_000_000, 10), 99_000_000);
    assert_eq!(schedule_step(990_000_000, 7), 141_428_572);
    assert_eq!(schedule_step(400_000_000, 3), 133_333_334);
    assert_eq!(schedule_step(990_000_000, 0), 990_000_000);
    assert_eq!(schedule_step(990_000_000, 2_000_000_000), 1);
}

#[test]
fn breeder_starts_at_the_maxima() {
    let breeder = Breeder::new(99_000_000, 100_000_000);
    assert_eq!(breeder.current_annealing_temp(), MAX_ANNEALING_TEMP);
    assert_eq!(breeder.current_p1_favourability(), MAX_P1_FAVOURABILITY);
    assert_eq!(breeder.generation_count(), 0);
    assert_eq!(breeder.current_config_id(), 0);
    assert!(!breeder.min_temp_reached());
    assert!(!breeder.min_current_p1_fav_reached());
    assert!(!breeder.min_sa_mutations_reached());
    assert!(!breeder.min_ga_mutations_reached());
    let gates = breeder.gates();
    assert!(gates.learning_rate && gates.bias && gates.momentum);
    assert!(gates.upper_weight_limit && gates.lower_weight_limit);
}

#[test]
fn breeder_temperature_reaches_floor_after_ten_drops() {
    let mut breeder = Breeder::new(99_000_000, 100_000_000);
    for drop in 0..10 {
        assert!(!breeder.min_temp_reached(), "at floor before drop {}", drop);
        breeder.drop_temp();
    }
    assert!(breeder.min_temp_reached());
    assert_eq!(breeder.current_annealing_temp(), MIN_ANNEALING_TEMP);
}

#[test]
fn breeder_favourability_reaches_floor_after_four_drops() {
    let mut breeder = Breeder::new(99_000_000, 100_000_000);
    breeder.drop_p1_favourability();
    assert_eq!(breeder.current_p1_favourability(), 850_000_000);
    breeder.drop_p1_favourability();
    breeder.drop_p1_favourability();
    assert!(!breeder.min_current_p1_fav_reached());
    breeder.drop_p1_favourability();
    assert!(breeder.min_current_p1_fav_reached());
    assert_eq!(breeder.current_p1_favourability(), MIN_P1_FAVOURABILITY);
}

#[test]
fn breeder_ceilings_ratchet_down_and_total_reset_restores() {
    let mut breeder = Breeder::new(500_000_000, 300_000_000);
    breeder.reset_temp_to_adjusted_max();
    assert_eq!(breeder.current_annealing_temp(), 500_000_000);
    assert!(!breeder.min_sa_mutations_reached());
    breeder.reset_temp_to_adjusted_max();
    assert_eq!(breeder.current_annealing_temp(), MIN_ANNEALING_TEMP);
    assert!(breeder.min_sa_mutations_reached());
    breeder.reset_p1_fav_to_adjusted_max();
    assert_eq!(breeder.current_p1_favourability(), 650_000_000);
    breeder.reset_p1_fav_to_adjusted_max();
    assert!(breeder.min_ga_mutations_reached());
    breeder.total_reset();
    assert_eq!(breeder.current_annealing_temp(), MAX_ANNEALING_TEMP);
    assert_eq!(breeder.current_p1_favourability(), MAX_P1_FAVOURABILITY);
    assert!(!breeder.min_sa_mutations_reached());
    assert!(!breeder.min_ga_mutations_reached());
}

#[test]
fn breeder_counts_generations() {
    let mut breeder = Breeder::new(1, 1);
    breeder.inc_generation_count();
    breeder.inc_generation_count();
    assert_eq!(breeder.generation_count(), 2);
}

#[test]
fn breeder_gates_can_be_set() {
    let mut breeder = Breeder::new(1, 1);
    let gates = HyperParameterGates {
        learning_rate: false,
        bias: true,
        momentum: false,
        upper_weight_limit: true,
        lower_weight_limit: false,
    };
    breeder.set_gates(gates);
    assert_eq!(breeder.gates(), gates);
}
