use vstd::prelude::*;

verus! {

/// Game time counted in ticks: a turn is 1000 ticks and a minute 100 ticks.
/// The clock also remembers how many ticks passed since it was last
/// consumed, and whether an update was requested regardless.
pub struct Clock {
    tick: u32,
    tick_delta: u32,
    force_update: bool,
}

/// The contents of a [`Clock`].
pub struct ClockView {
    pub tick: u32,
    pub tick_delta: u32,
    pub force_update: bool,
}

impl View for Clock {
    type V = ClockView;

    closed spec fn view(&self) -> ClockView {
        ClockView { tick: self.tick, tick_delta: self.tick_delta, force_update: self.force_update }
    }
}

pub open spec fn minute_of(tick: u32) -> int {
    tick as int / 100
}

impl Default for Clock {
    fn default() -> (c: Self)
        ensures
            c@.tick == 0,
            c@.tick_delta == 0,
            !c@.force_update,
    {
        Clock { tick: 0, tick_delta: 0, force_update: false }
    }
}

impl Clock {
    /// A clock at `tick` that reports an update on its first frame.
    pub fn new(tick: u32) -> (c: Self)
        ensures
            c@.tick == tick,
            c@.tick_delta == 0,
            c@.force_update,
    {
        Clock { tick, tick_delta: 0, force_update: true }
    }

    /// No time passed and no update was requested.
    pub fn is_frozen(&self) -> (b: bool)
        ensures
            b == (self@.tick_delta == 0 && !self@.force_update),
    {
        self.tick_delta == 0 && !self.force_update
    }

    /// Advances the clock by `amount` ticks.
    pub fn increment_tick(&mut self, amount: u32)
        requires
            old(self)@.tick + amount <= u32::MAX,
            old(self)@.tick_delta + amount <= u32::MAX,
        ensures
            final(self)@.tick == old(self)@.tick + amount,
            final(self)@.tick_delta == old(self)@.tick_delta + amount,
            final(self)@.force_update == old(self)@.force_update,
    {
        self.tick = self.tick + amount;
        self.tick_delta = self.tick_delta + amount;
    }

    /// Ticks passed since the elapsed ticks were last consumed.
    pub fn tick_delta(&self) -> (d: u32)
        ensures
            d == self@.tick_delta,
    {
        self.tick_delta
    }

    /// The current time in ticks.
    pub fn current_tick(&self) -> (t: u32)
        ensures
            t == self@.tick,
    {
        self.tick
    }

    /// Marks the elapsed ticks as consumed and drops any requested update.
    pub fn clear_tick_delta(&mut self)
        ensures
            final(self)@.tick == old(self)@.tick,
            final(self)@.tick_delta == 0,
            !final(self)@.force_update,
    {
        self.tick_delta = 0;
        self.force_update = false;
    }

    /// Requests an update although no time passed.
    pub fn force_update(&mut self)
        ensures
            final(self)@.tick == old(self)@.tick,
            final(self)@.tick_delta == old(self)@.tick_delta,
            final(self)@.force_update,
    {
        self.force_update = true;
    }

    /// Sets the time and requests an update.
    pub fn set_tick(&mut self, value: u32)
        ensures
            final(self)@.tick == value,
            final(self)@.tick_delta == old(self)@.tick_delta,
            final(self)@.force_update,
    {
        self.tick = value;
        self.force_update = true;
    }

    /// Whole turns elapsed.
    pub fn current_turn(&self) -> (t: u32)
        ensures
            t as int == self@.tick as int / 1000,
    {
        self.tick / 1000
    }

    /// Ticks into the current turn.
    pub fn sub_turn(&self) -> (t: u32)
        ensures
            t as int == self@.tick as int % 1000,
    {
        self.tick % 1000
    }

    /// Whole minutes elapsed.
    pub fn get_minute(&self) -> (m: u32)
        ensures
            m as int == minute_of(self@.tick),
    {
        self.tick / 100
    }

    /// Hour of the day, 0 to 23.
    pub fn get_hour(&self) -> (h: u32)
        ensures
            h as int == (minute_of(self@.tick) / 60) % 24,
    {
        (self.get_minute() / 60) % 24
    }

    /// Days elapsed since tick 0.
    pub fn get_day(&self) -> (d: u32)
        ensures
            d as int == minute_of(self@.tick) / 1440,
    {
        self.get_minute() / 1440
    }

    /// Minute within the current day, 0 to 1439.
    pub fn get_minute_of_day(&self) -> (m: u32)
        ensures
            m as int == minute_of(self@.tick) % 1440,
    {
        self.get_minute() % 1440
    }

    /// The span of the daylight cycle the clock is in (see `daylight_span`).
    pub fn get_daylight_span(&self) -> (i: usize)
        ensures
            i == daylight_span_spec(minute_of(self@.tick) % 1440),
    {
        daylight_span(self.get_minute_of_day())
    }
}

/// Colors of the daylight phases, which fall at 0%, 21%, 50%, 83% and 100%
/// of the day: night blue, dawn teal, noon white, dusk teal, night blue.
pub open spec fn daylight_phase_color_spec(i: int) -> u32 {
    if i == 0 || i == 4 {
        0x14556E
    } else if i == 1 || i == 3 {
        0x6AA5A7
    } else {
        0xFFFFFF
    }
}

/// The span between daylight phases `i` and `i + 1` that holds minute `m`
/// of the day, the first one when `m` lies on a phase: the phases fall at
/// minutes 0, 302.4, 720, 1195.2 and 1440.
pub open spec fn daylight_span_spec(m: int) -> usize {
    if m <= 302 {
        0
    } else if m <= 720 {
        1
    } else if m <= 1195 {
        2
    } else {
        3
    }
}

/// The color of daylight phase `i`.
pub fn daylight_phase_color(i: usize) -> (c: u32)
    requires
        i < 5,
    ensures
        c == daylight_phase_color_spec(i as int),
{
    if i == 0 || i == 4 {
        0x14556E
    } else if i == 1 || i == 3 {
        0x6AA5A7
    } else {
        0xFFFFFF
    }
}

/// The daylight span that minute `minute_of_day` of the day lies in: the
/// light then blends from phase `i` to phase `i + 1`.
pub fn daylight_span(minute_of_day: u32) -> (i: usize)
    ensures
        i == daylight_span_spec(minute_of_day as int),
        i < 4,
{
    if minute_of_day <= 302 {
        0
    } else if minute_of_day <= 720 {
        1
    } else if minute_of_day <= 1195 {
        2
    } else {
        3
    }
}

/// A tick splits into whole turns and the ticks of the current turn, and its
/// minute into whole days and the minute of the day; the hour is the minute
/// of the day in whole hours.
pub proof fn lemma_clock_decomposition(tick: u32)
    ensures
        (tick as int / 1000) * 1000 + tick as int % 1000 == tick,
        0 <= tick as int % 1000 < 1000,
        (minute_of(tick) / 1440) * 1440 + minute_of(tick) % 1440 == minute_of(tick),
        0 <= minute_of(tick) % 1440 < 1440,
        (minute_of(tick) / 60) % 24 == (minute_of(tick) % 1440) / 60,
        0 <= (minute_of(tick) / 60) % 24 < 24,
{
    let m = minute_of(tick);
    assert((m / 60) % 24 == (m % 1440) / 60) by (nonlinear_arith)
        requires 0 <= m;
}

} // verus!
