use faery::game_clock::{split_ticks, DayPhase, GameClock, GameTicker};

#[test]
fn split_ticks_keeps_the_remainder() {
    assert_eq!(split_ticks(50_000_001), (3, 0));
    assert_eq!(split_ticks(16_666_666), (0, 16_666_666));
    assert_eq!(split_ticks(16_666_668), (1, 1));
}

#[test]
fn wall_clock_round_trip() {
    let mut clock = GameClock::new();
    assert_eq!((clock.total_ticks, clock.game_ticks, clock.paused), (0, 0, false));
    clock.set_game_wall_clock(1, 6, 30);
    assert_eq!(clock.game_ticks, 30500);
    assert_eq!(clock.get_game_wall_clock(), (1, 6, 30));
    assert_eq!(clock.get_game_days(), 1);
    assert_eq!(clock.get_day_phase(), DayPhase::Midnight);
}

#[test]
fn advancing_the_wall_clock() {
    let mut clock = GameClock::new();
    clock.set_game_wall_clock(1, 6, 30);
    // 05:00 has passed today, so the clock moves to tomorrow
    clock.advance_game_wall_clock_to(5, 0);
    assert_eq!(clock.game_ticks, 53000);
    assert_eq!(clock.get_game_wall_clock(), (2, 5, 0));
    // 12:00 is still ahead today
    clock.advance_game_wall_clock_to(12, 0);
    assert_eq!(clock.get_game_wall_clock(), (2, 12, 0));
    assert_eq!(clock.get_day_phase(), DayPhase::Midday);
    clock.advance_game_wall_clock_by(1, 30);
    assert_eq!(clock.get_game_wall_clock(), (2, 13, 30));
    clock.advance_game_wall_clock_by(6, 0);
    assert_eq!(clock.get_day_phase(), DayPhase::Evening);
    clock.set_game_wall_clock(0, 9, 0);
    assert_eq!(clock.get_day_phase(), DayPhase::Morning);
}

#[test]
fn pausing_stops_the_counts() {
    let mut clock = GameClock::new();
    clock.add_ticks(10);
    assert_eq!((clock.total_ticks, clock.game_ticks), (10, 10));
    clock.reset_game_ticks();
    assert_eq!((clock.total_ticks, clock.game_ticks), (10, 0));
    clock.pause();
    assert!(clock.paused);
    let before = (clock.total_ticks, clock.game_ticks);
    clock.update();
    assert_eq!((clock.total_ticks, clock.game_ticks), before);
    clock.resume();
    assert!(!clock.paused);
    clock.add_ticks(u64::MAX);
    assert_eq!(clock.total_ticks, u64::MAX);
}

#[test]
fn ticker_hands_out_whole_ticks() {
    let mut t = GameTicker::new();
    assert_eq!(t.accumulated_nanos, 0);
    t.accumulated_nanos = 40_000_000;
    let ticks = t.get_elapsed_ticks();
    assert!(ticks >= 2);
    assert!(t.accumulated_nanos < 16_666_667);
    t.reset();
    assert_eq!(t.accumulated_nanos, 0);
}
