//! The game clock: real time counted in ticks of a sixtieth of a second, and
//! the in-game time of day that those ticks make.
use vstd::prelude::*;

verus! {

/// `std::time::Instant`, a reading of the monotonic clock, carried through
/// opaque.
#[verifier::external_type_specification]
#[verifier::external_body]
pub struct ExInstant(std::time::Instant);

/// Relies on `Instant::now`: a reading of the monotonic clock. Nothing is
/// known of its value.
#[verifier::external_body]
fn instant_now() -> (r: std::time::Instant) {
    std::time::Instant::now()
}

/// Relies on `Instant::duration_since`: the time from `earlier` to `later`,
/// zero where `later` is not after `earlier`.
#[verifier::external_body]
fn duration_since(later: &std::time::Instant, earlier: &std::time::Instant) -> (r:
    core::time::Duration) {
    later.duration_since(*earlier)
}

/// Relies on `Duration::as_nanos`: the whole nanoseconds of a duration.
#[verifier::external_body]
fn duration_nanos(d: &core::time::Duration) -> (r: u128) {
    d.as_nanos()
}

/// Nanoseconds per tick: sixty ticks a second.
pub const NANOS_PER_TICK: u128 = 16_666_667;

/// Ticks in a game day.
pub const TICKS_PER_DAY: u64 = 24000;

/// Ticks in a game hour.
pub const TICKS_PER_HOUR: u64 = 1000;

/// Whole ticks in `nanos`, and the nanoseconds left over.
pub fn split_ticks(nanos: u128) -> (r: (u64, u128))
    ensures
        r.0 == (nanos / NANOS_PER_TICK) as u64,
        r.1 == nanos % NANOS_PER_TICK,
{
    ((nanos / NANOS_PER_TICK) as u64, nanos % NANOS_PER_TICK)
}

/// Counts elapsed real time in ticks.
#[derive(Debug)]
pub struct GameTicker {
    pub last_update: std::time::Instant,
    /// Nanoseconds not yet handed out as ticks.
    pub accumulated_nanos: u128,
}

impl GameTicker {
    /// A ticker starting now with nothing accumulated.
    pub fn new() -> (r: GameTicker)
        ensures
            r.accumulated_nanos == 0,
    {
        GameTicker { last_update: instant_now(), accumulated_nanos: 0 }
    }

    /// Adds the time since the last update.
    pub fn update(&mut self)
        ensures
            final(self).accumulated_nanos >= old(self).accumulated_nanos,
    {
        let now = instant_now();
        let elapsed = duration_nanos(&duration_since(&now, &self.last_update));
        self.accumulated_nanos = self.accumulated_nanos.saturating_add(elapsed);
        self.last_update = now;
    }

    /// Starts counting afresh from now.
    pub fn reset(&mut self)
        ensures
            final(self).accumulated_nanos == 0,
    {
        self.last_update = instant_now();
        self.accumulated_nanos = 0;
    }

    /// Hands out the whole ticks accumulated up to now, keeping the remainder.
    pub fn get_elapsed_ticks(&mut self) -> (r: u64)
        ensures
            final(self).accumulated_nanos < NANOS_PER_TICK,
    {
        self.update();
        let (ticks, rest) = split_ticks(self.accumulated_nanos);
        self.accumulated_nanos = rest;
        ticks
    }
}

/// The four parts of a game day.
#[derive(Debug, Clone, Copy, PartialEq, Eq, Structural)]
pub enum DayPhase {
    /// 00:00 to 07:59.
    Midnight,
    /// 08:00 to 11:59.
    Morning,
    /// 12:00 to 17:59.
    Midday,
    /// 18:00 to 23:59.
    Evening,
}

/// The phase of the day at `hour`.
pub open spec fn phase_of_hour(hour: int) -> DayPhase {
    if hour <= 7 {
        DayPhase::Midnight
    } else if hour <= 11 {
        DayPhase::Morning
    } else if hour <= 17 {
        DayPhase::Midday
    } else {
        DayPhase::Evening
    }
}

/// Ticks in `minutes` game minutes, rounded down: an hour is a thousand ticks.
pub open spec fn minutes_to_ticks(minutes: int) -> int {
    minutes * 1000 / 60
}

/// The clock of a game: total ticks since start, and game ticks, which
/// restart on a new game.
#[derive(Debug)]
pub struct GameClock {
    pub ticker: GameTicker,
    pub total_ticks: u64,
    pub game_ticks: u64,
    pub paused: bool,
}

impl GameClock {
    /// A running clock at zero.
    pub fn new() -> (r: GameClock)
        ensures
            r.total_ticks == 0 && r.game_ticks == 0 && !r.paused,
    {
        GameClock { ticker: GameTicker::new(), total_ticks: 0, game_ticks: 0, paused: false }
    }

    /// Adds the ticks elapsed since the last update, unless paused. The
    /// counts stop at their maximum.
    pub fn update(&mut self)
        ensures
            final(self).paused == old(self).paused,
            old(self).paused ==> final(self).total_ticks == old(self).total_ticks
                && final(self).game_ticks == old(self).game_ticks,
            final(self).total_ticks >= old(self).total_ticks,
            final(self).game_ticks >= old(self).game_ticks,
    {
        if self.paused {
            return ;
        }
        let elapsed = self.ticker.get_elapsed_ticks();
        self.add_ticks(elapsed);
    }

    /// Counts `elapsed` ticks in both counts, which stop at their maximum.
    pub fn add_ticks(&mut self, elapsed: u64)
        ensures
            final(self).total_ticks == if old(self).total_ticks + elapsed > u64::MAX {
                u64::MAX as int
            } else {
                old(self).total_ticks + elapsed
            },
            final(self).game_ticks == if old(self).game_ticks + elapsed > u64::MAX {
                u64::MAX as int
            } else {
                old(self).game_ticks + elapsed
            },
            final(self).paused == old(self).paused,
    {
        self.total_ticks = self.total_ticks.saturating_add(elapsed);
        self.game_ticks = self.game_ticks.saturating_add(elapsed);
    }

    /// Restarts the game ticks at zero.
    pub fn reset_game_ticks(&mut self)
        ensures
            final(self).game_ticks == 0,
            final(self).total_ticks == old(self).total_ticks,
            final(self).paused == old(self).paused,
    {
        self.game_ticks = 0;
        self.ticker.reset();
    }

    /// Brings the counts up to date, then stops them.
    pub fn pause(&mut self)
        ensures
            final(self).paused,
            final(self).total_ticks >= old(self).total_ticks,
            final(self).game_ticks >= old(self).game_ticks,
    {
        self.update();
        self.paused = true;
    }

    /// Starts the counts again; the paused time is not counted.
    pub fn resume(&mut self)
        ensures
            !final(self).paused,
            final(self).total_ticks == old(self).total_ticks,
            final(self).game_ticks == old(self).game_ticks,
    {
        self.ticker.reset();
        self.paused = false;
    }

    /// Whole game days passed.
    pub fn get_game_days(&self) -> (r: u64)
        ensures
            r == self.game_ticks / TICKS_PER_DAY,
    {
        self.game_ticks / TICKS_PER_DAY
    }

    /// The game's wall clock: day, hour and whole minute.
    pub fn get_game_wall_clock(&self) -> (r: (u32, u32, u32))
        ensures
            r.0 == (self.game_ticks / TICKS_PER_DAY) as u32,
            r.1 == (self.game_ticks % TICKS_PER_DAY) / TICKS_PER_HOUR,
            r.2 == (self.game_ticks % TICKS_PER_HOUR) * 60 / 1000,
    {
        let day_ticks = self.game_ticks % TICKS_PER_DAY;
        let hour = day_ticks / TICKS_PER_HOUR;
        let minute = (day_ticks % TICKS_PER_HOUR) * 60 / 1000;
        assert(day_ticks % TICKS_PER_HOUR == self.game_ticks % TICKS_PER_HOUR);
        let day = self.game_ticks / TICKS_PER_DAY;
        (day as u32, hour as u32, minute as u32)
    }

    /// Sets the game's wall clock to a day, hour and minute.
    pub fn set_game_wall_clock(&mut self, day: u32, hour: u32, minute: u32)
        ensures
            final(self).game_ticks == minutes_to_ticks(day * 1440 + hour * 60 + minute),
            final(self).total_ticks == old(self).total_ticks,
            final(self).paused == old(self).paused,
    {
        let total_minutes: u64 = (day as u64) * 1440 + (hour as u64) * 60 + (minute as u64);
        self.game_ticks = total_minutes * 1000 / 60;
        self.ticker.reset();
    }

    /// Moves the game's wall clock forward to the next time it shows
    /// `hour:minute`: today if that is still ahead, else tomorrow.
    pub fn advance_game_wall_clock_to(&mut self, hour: u32, minute: u32)
        ensures
            ({
                let day = (old(self).game_ticks / TICKS_PER_DAY) as u32;
                let h = (old(self).game_ticks % TICKS_PER_DAY) / TICKS_PER_HOUR;
                let m = (old(self).game_ticks % TICKS_PER_HOUR) * 60 / 1000;
                let next = if h > hour || (h == hour && m >= minute) {
                    if day < u32::MAX {
                        day + 1
                    } else {
                        day as int
                    }
                } else {
                    day as int
                };
                final(self).game_ticks == minutes_to_ticks(next * 1440 + hour * 60 + minute)
            }),
            final(self).total_ticks == old(self).total_ticks,
            final(self).paused == old(self).paused,
    {
        let (day, current_hour, current_minute) = self.get_game_wall_clock();
        let mut next_day = day;
        if current_hour > hour || (current_hour == hour && current_minute >= minute) {
            if day < u32::MAX {
                next_day = day + 1;
            }
        }
        self.set_game_wall_clock(next_day, hour, minute);
    }

    /// Moves the game's wall clock forward by hours and minutes; the count
    /// stops at its maximum.
    pub fn advance_game_wall_clock_by(&mut self, hours: u32, minutes: u32)
        ensures
            final(self).game_ticks == if old(self).game_ticks + minutes_to_ticks(hours * 60 + minutes)
                > u64::MAX {
                u64::MAX as int
            } else {
                old(self).game_ticks + minutes_to_ticks(hours * 60 + minutes)
            },
            final(self).total_ticks == old(self).total_ticks,
            final(self).paused == old(self).paused,
    {
        let delta_minutes: u64 = (hours as u64) * 60 + (minutes as u64);
        let delta_ticks = delta_minutes * 1000 / 60;
        self.game_ticks = self.game_ticks.saturating_add(delta_ticks);
        self.ticker.reset();
    }

    /// The phase of the game day.
    pub fn get_day_phase(&self) -> (r: DayPhase)
        ensures
            r == phase_of_hour(((self.game_ticks % TICKS_PER_DAY) / TICKS_PER_HOUR) as int),
    {
        let hour = (self.game_ticks % TICKS_PER_DAY) / TICKS_PER_HOUR;
        if hour <= 7 {
            DayPhase::Midnight
        } else if hour <= 11 {
            DayPhase::Morning
        } else if hour <= 17 {
            DayPhase::Midday
        } else {
            DayPhase::Evening
        }
    }
}

} // verus!
