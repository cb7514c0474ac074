use vstd::prelude::*;

verus! {

/// The protocol's game version.
pub const VERSION: &'static str = "1.15.2";

#[verifier::external_type_specification]
#[verifier::external_body]
pub struct ExSystemTime(std::time::SystemTime);

/// `std::time::SystemTime::now`: the current time, which nothing here can predict.
#[verifier::external_body]
fn system_time_now() -> std::time::SystemTime {
    std::time::SystemTime::now()
}

/// `std::time::SystemTime::elapsed`, in nanoseconds: how long ago `time` was, or `None` when
/// the clock has gone backwards past it. It reads the clock, so nothing can be promised of it.
#[verifier::external_body]
fn nanos_since(time: &std::time::SystemTime) -> Option<u128> {
    match time.elapsed() {
        Ok(d) => Some(d.as_nanos()),
        Err(_) => None,
    }
}

/// How long to sleep after a tick that took `elapsed` nanoseconds (`None` when the clock
/// went backwards), for a tick of `tick_millis` milliseconds.
pub open spec fn sleep_after(tick_millis: u128, elapsed: Option<u128>) -> u128 {
    let full = (tick_millis as u64) as u128 * 1_000_000;
    match elapsed {
        Some(d) => if d / 1_000_000 < tick_millis {
            (full - d) as u128
        } else {
            0
        },
        None => full as u128,
    }
}

/// The sum of a run of readings.
pub open spec fn total(s: Seq<u32>) -> nat
    decreases s.len(),
{
    if s.len() == 0 {
        0
    } else {
        total(s.drop_last()) + s.last() as nat
    }
}

/// Keeps the server's ticks to their length and records how long recent ticks took.
pub struct ServerClock {
    micros_readings: Vec<u32>,
    micros_index: usize,
    full_tick_millis: u128,
    time: std::time::SystemTime,
}

impl ServerClock {
    /// The durations of the last hundred ticks, in microseconds.
    pub closed spec fn readings(&self) -> Seq<u32> {
        self.micros_readings@
    }

    /// Where the next reading goes.
    pub closed spec fn index(&self) -> nat {
        self.micros_index as nat
    }

    /// The length of a tick in milliseconds.
    pub closed spec fn tick_millis(&self) -> u128 {
        self.full_tick_millis
    }

    /// A hundred readings, and the index of the next one among them.
    pub closed spec fn wf(&self) -> bool {
        self.micros_readings@.len() == 100 && self.micros_index < 100
    }

    /// A clock for ticks of `tick_length` milliseconds, started now.
    pub fn new(tick_length: u128) -> (c: Self)
        ensures
            c.wf(),
            c.readings() == Seq::new(100, |i: int| 0u32),
            c.index() == 0,
            c.tick_millis() == tick_length,
    {
        let c = ServerClock {
            micros_readings: vec![0u32; 100],
            micros_index: 0,
            full_tick_millis: tick_length,
            time: system_time_now(),
        };
        assert(c.readings() =~= Seq::new(100, |i: int| 0u32));
        c
    }

    /// Marks the start of a tick: the clock is read now. The time read is not part of the model,
    /// so the contract speaks only of what stays.
    pub fn start(&mut self)
        ensures
            final(self).readings() == old(self).readings(),
            final(self).index() == old(self).index(),
            final(self).tick_millis() == old(self).tick_millis(),
            final(self).wf() == old(self).wf(),
    {
        self.time = system_time_now();
    }

    /// Records a tick that took `elapsed` nanoseconds (`None` when the clock went backwards):
    /// its microseconds, truncated to 32 bits, go to the next reading. Returns how many
    /// nanoseconds to sleep to fill the tick.
    pub fn record_tick(&mut self, elapsed: Option<u128>) -> (sleep: u128)
        requires
            old(self).wf(),
            elapsed matches Some(d) ==> (d / 1_000_000 < old(self).tick_millis() ==> d <= (
            old(self).tick_millis() as u64) as u128 * 1_000_000),
        ensures
            final(self).wf(),
            final(self).tick_millis() == old(self).tick_millis(),
            sleep == sleep_after(old(self).tick_millis(), elapsed),
            elapsed matches Some(d) ==> final(self).readings() == old(self).readings().update(
                old(self).index() as int,
                (d / 1000) as u32,
            ) && final(self).index() == (old(self).index() + 1) % 100,
            elapsed is None ==> final(self).readings() == old(self).readings()
                && final(self).index() == old(self).index(),
    {
        let full: u128 = (self.full_tick_millis as u64) as u128 * 1_000_000;
        match elapsed {
            Some(d) => {
                self.micros_readings.set(self.micros_index, (d / 1000) as u32);
                self.micros_index = (self.micros_index + 1) % 100;
                if d / 1_000_000 < self.full_tick_millis {
                    full - d
                } else {
                    0
                }
            },
            None => full,
        }
    }

    /// Ends a tick: records how long it took and returns how many nanoseconds to sleep.
    pub fn finish_tick(&mut self) -> (sleep: u128)
        requires
            old(self).wf(),
            old(self).tick_millis() <= u64::MAX,
        ensures
            final(self).wf(),
            final(self).tick_millis() == old(self).tick_millis(),
            exists|e: Option<u128>|
                sleep == #[trigger] sleep_after(old(self).tick_millis(), e) && (e matches Some(d)
                    ==> final(self).readings() == old(self).readings().update(
                    old(self).index() as int,
                    (d / 1000) as u32,
                ) && final(self).index() == (old(self).index() + 1) % 100) && (e is None
                    ==> final(self).readings() == old(self).readings() && final(self).index()
                    == old(self).index()),
    {
        let e = nanos_since(&self.time);
        let s = self.record_tick(e);
        assert(s == sleep_after(old(self).tick_millis(), e));
        s
    }

    /// The sum of the recorded tick durations, in microseconds.
    pub fn micros_total(&self) -> (t: u64)
        requires
            self.wf(),
        ensures
            t == total(self.readings()),
    {
        let mut sum: u64 = 0;
        let mut i: usize = 0;
        while i < 100
            invariant
                self.micros_readings@.len() == 100,
                0 <= i <= 100,
                sum == total(self.readings().take(i as int)),
                sum <= i * 0xFFFF_FFFFu64,
            decreases 100 - i,
        {
            proof {
                let s = self.readings().take(i + 1);
                assert(s.drop_last() =~= self.readings().take(i as int));
            }
            sum = sum + self.micros_readings[i] as u64;
            i += 1;
        }
        assert(self.readings().take(100) =~= self.readings());
        sum
    }
}

} // verus!
