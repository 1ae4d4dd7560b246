use conway_life::simulation::should_advance;
use conway_life::{Grid, InvalidSpeedError, Simulation, SpeedFactor};

fn blinker() -> Grid {
    Grid::from_rows(vec![vec![0, 0, 0], vec![1, 1, 1], vec![0, 0, 0]]).unwrap()
}

fn turned() -> Grid {
    Grid::from_rows(vec![vec![0, 1, 0], vec![0, 1, 0], vec![0, 1, 0]]).unwrap()
}

#[test]
fn speed_levels_have_their_divisors() {
    assert_eq!(SpeedFactor::parse("1").unwrap().divisor(), 7);
    assert_eq!(SpeedFactor::parse("2").unwrap().divisor(), 5);
    assert_eq!(SpeedFactor::parse("3").unwrap().divisor(), 3);
    assert_eq!(SpeedFactor::parse("4").unwrap().divisor(), 2);
    assert_eq!(SpeedFactor::parse("5").unwrap().divisor(), 1);
}

#[test]
fn speed_parse_gives_the_level() {
    assert_eq!(SpeedFactor::parse("1"), Ok(SpeedFactor::Level1));
    assert_eq!(SpeedFactor::parse("3"), Ok(SpeedFactor::Level3));
    assert_eq!(SpeedFactor::parse("5"), Ok(SpeedFactor::Level5));
    assert_eq!(SpeedFactor::parse("4").unwrap().level(), 4);
}

#[test]
fn speed_parse_rejects_everything_else() {
    for text in ["", "0", "6", "9", "12", "55", " 1", "1 ", "+1", "one", "\u{661}"] {
        assert_eq!(SpeedFactor::parse(text), Err(InvalidSpeedError));
    }
}

#[test]
fn speed_from_level() {
    assert_eq!(SpeedFactor::from_level(0), Err(InvalidSpeedError));
    assert_eq!(SpeedFactor::from_level(1), Ok(SpeedFactor::Level1));
    assert_eq!(SpeedFactor::from_level(2), Ok(SpeedFactor::Level2));
    assert_eq!(SpeedFactor::from_level(3), Ok(SpeedFactor::Level3));
    assert_eq!(SpeedFactor::from_level(4), Ok(SpeedFactor::Level4));
    assert_eq!(SpeedFactor::from_level(5), Ok(SpeedFactor::Level5));
    assert_eq!(SpeedFactor::from_level(6), Err(InvalidSpeedError));
    assert_eq!(SpeedFactor::from_level(255), Err(InvalidSpeedError));
    for level in 1u8..=5 {
        assert_eq!(SpeedFactor::from_level(level).unwrap().level(), level);
    }
}

#[test]
fn should_advance_when_divisor_divides_the_tick() {
    assert!(should_advance(7, SpeedFactor::Level1));
    assert!(should_advance(14, SpeedFactor::Level1));
    assert!(!should_advance(6, SpeedFactor::Level1));
    assert!(!should_advance(8, SpeedFactor::Level1));
    assert!(should_advance(10, SpeedFactor::Level2));
    assert!(!should_advance(11, SpeedFactor::Level2));
    assert!(should_advance(9, SpeedFactor::Level3));
    assert!(!should_advance(9, SpeedFactor::Level4));
    assert!(should_advance(9, SpeedFactor::Level5));
    assert!(should_advance(0, SpeedFactor::Level1));
    assert!(!should_advance(u64::MAX, SpeedFactor::Level4));
}

#[test]
fn new_run_starts_at_tick_zero() {
    let run = Simulation::new(blinker(), SpeedFactor::Level2);
    assert_eq!(run.ticks(), 0);
    assert_eq!(run.speed(), SpeedFactor::Level2);
    assert_eq!(*run.grid(), blinker());
}

#[test]
fn throttled_tick_leaves_the_grid_as_it_was() {
    let mut run = Simulation::new(blinker(), SpeedFactor::Level1);
    for tick in 1u64..=6 {
        assert!(!run.tick());
        assert_eq!(run.ticks(), tick);
        assert_eq!(*run.grid(), blinker());
    }
    assert!(run.tick());
    assert_eq!(run.ticks(), 7);
    assert_eq!(*run.grid(), turned());
    for _ in 8..=13 {
        assert!(!run.tick());
        assert_eq!(*run.grid(), turned());
    }
    assert!(run.tick());
    assert_eq!(*run.grid(), blinker());
}

#[test]
fn fastest_speed_advances_on_every_tick() {
    let mut run = Simulation::new(blinker(), SpeedFactor::Level5);
    assert!(run.tick());
    assert_eq!(*run.grid(), turned());
    assert!(run.tick());
    assert_eq!(*run.grid(), blinker());
    assert_eq!(run.ticks(), 2);
}

#[test]
fn counter_counts_ticks_not_generations() {
    let mut run = Simulation::new(blinker(), SpeedFactor::Level3);
    let mut advances = 0;
    for _ in 0..10 {
        if run.tick() {
            advances += 1;
        }
    }
    assert_eq!(run.ticks(), 10);
    assert_eq!(advances, 3);
    assert_eq!(*run.grid(), turned());
}

#[test]
fn speed_four_advances_on_even_ticks() {
    let mut run = Simulation::new(blinker(), SpeedFactor::Level4);
    assert!(!run.tick());
    assert!(run.tick());
    assert!(!run.tick());
    assert!(run.tick());
    assert_eq!(*run.grid(), blinker());
}
