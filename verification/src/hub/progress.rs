//! A progress meter for operations measured in gigabytes.
//!
//! Redraws are throttled, and the meter degrades to periodic lines when the
//! output is not a terminal. Times are nanoseconds on some clock that only moves
//! forward; the rates, which are floating-point, are worked out by the caller.

use crate::text;
use vstd::prelude::*;

verus! {

pub const SECOND: u64 = 1_000_000_000;

/// What to show.
#[derive(Debug, Clone, Copy, PartialEq, Eq, Structural)]
pub enum Frame {
    /// Nothing: the last frame is too recent, or it is not time for a line.
    Nothing,
    /// A line of its own.
    Line,
    /// The bar, and whether bytes have stopped arriving.
    Bar { stalled: bool },
}

/// Bytes since the last speed sample and the time they took.
#[derive(Debug, Clone, Copy, PartialEq, Eq, Structural)]
pub struct Sample {
    pub bytes: u64,
    pub nanos: u64,
}

/// The meter's state.
#[derive(Debug, Clone, Copy, PartialEq, Eq, Structural)]
pub struct Progress {
    pub total: u64,
    pub done: u64,
    pub start: u64,
    /// When a frame was last drawn; `None` before the first.
    pub last_draw: Option<u64>,
    /// Bytes and time at the previous speed sample.
    pub mark_bytes: u64,
    pub mark_time: u64,
    /// When bytes last actually arrived, so a stall is visible rather than looking
    /// like a slow download.
    pub last_progress: u64,
    pub tty: bool,
    pub finished: bool,
}

impl Progress {
    pub open spec fn wf(&self) -> bool {
        self.mark_bytes <= self.done
    }

    pub fn new(total: u64, tty: bool, now: u64) -> (m: Progress)
        ensures
            m.wf(),
            m == (Progress {
                total,
                done: 0,
                start: now,
                last_draw: None,
                mark_bytes: 0,
                mark_time: now,
                last_progress: now,
                tty,
                finished: false,
            }),
    {
        Progress {
            total,
            done: 0,
            start: now,
            last_draw: None,
            mark_bytes: 0,
            mark_time: now,
            last_progress: now,
            tty,
            finished: false,
        }
    }

    /// Start partway in, for a resumed transfer.
    pub fn at(self, done: u64, now: u64) -> (m: Progress)
        ensures
            m.wf(),
            m == (Progress { done, mark_bytes: done, mark_time: now, ..self }),
    {
        Progress {
            total: self.total,
            done,
            start: self.start,
            last_draw: self.last_draw,
            mark_bytes: done,
            mark_time: now,
            last_progress: self.last_progress,
            tty: self.tty,
            finished: self.finished,
        }
    }

    /// Count bytes.
    pub fn add(&mut self, n: u64, now: u64)
        requires
            old(self).wf(),
            old(self).done + n <= u64::MAX,
        ensures
            final(self).wf(),
            *final(self) == (Progress {
                done: (old(self).done + n) as u64,
                last_progress: if n > 0 {
                    now
                } else {
                    old(self).last_progress
                },
                ..*old(self)
            }),
    {
        self.done = self.done + n;
        if n > 0 {
            self.last_progress = now;
        }
    }

    /// A frame is drawn at most ten times a second, unless it is forced.
    pub open spec fn due(&self, force: bool, now: u64) -> bool {
        force || self.last_draw is None || now - self.last_draw->0 >= 100_000_000
    }

    /// The frame that is due. Not on a terminal, one line every few seconds.
    pub open spec fn frame(&self, force: bool, now: u64) -> Frame {
        if !self.due(force, now) {
            Frame::Nothing
        } else if !self.tty {
            if force || (now - self.start) / SECOND as int % 5 == 0 {
                Frame::Line
            } else {
                Frame::Nothing
            }
        } else {
            Frame::Bar { stalled: now - self.last_progress > 5 * SECOND }
        }
    }

    /// The speed is sampled at most twice a second.
    pub open spec fn sampled(&self, force: bool, now: u64) -> bool {
        self.due(force, now) && now - self.mark_time >= 500_000_000
    }

    /// Decide what to draw, and whether there is a speed sample to take.
    pub fn draw(&mut self, force: bool, now: u64) -> (r: (Frame, Option<Sample>))
        requires
            old(self).wf(),
            old(self).start <= now,
            old(self).mark_time <= now,
            old(self).last_progress <= now,
            old(self).last_draw is Some ==> old(self).last_draw->0 <= now,
        ensures
            final(self).wf(),
            r.0 == old(self).frame(force, now),
            r.1 == if old(self).sampled(force, now) {
                Some(
                    Sample {
                        bytes: (old(self).done - old(self).mark_bytes) as u64,
                        nanos: (now - old(self).mark_time) as u64,
                    },
                )
            } else {
                None
            },
            *final(self) == (Progress {
                last_draw: if old(self).due(force, now) {
                    Some(now)
                } else {
                    old(self).last_draw
                },
                mark_bytes: if old(self).sampled(force, now) {
                    old(self).done
                } else {
                    old(self).mark_bytes
                },
                mark_time: if old(self).sampled(force, now) {
                    now
                } else {
                    old(self).mark_time
                },
                ..*old(self)
            }),
    {
        let recent: bool = match self.last_draw {
            Some(t) => now - t < 100_000_000,
            None => false,
        };
        if !force && recent {
            return (Frame::Nothing, None);
        }
        self.last_draw = Some(now);
        let nanos: u64 = now - self.mark_time;
        let sample = if nanos >= 500_000_000 {
            let s = Sample { bytes: self.done - self.mark_bytes, nanos };
            self.mark_bytes = self.done;
            self.mark_time = now;
            Some(s)
        } else {
            None
        };
        let frame = if !self.tty {
            if force || (now - self.start) / SECOND % 5 == 0 {
                Frame::Line
            } else {
                Frame::Nothing
            }
        } else {
            Frame::Bar { stalled: now - self.last_progress > 5_000_000_000 }
        };
        (frame, sample)
    }

    /// Whether a last line is still to be drawn; only once.
    pub fn finish(&mut self) -> (r: bool)
        ensures
            r == !old(self).finished,
            *final(self) == (Progress { finished: true, ..*old(self) }),
    {
        let first: bool = !self.finished;
        self.finished = true;
        first
    }
}

/// Columns for the bar: what the label and the numbers leave, within reason.
pub fn bar_width(width: usize, label: usize, tail: usize) -> (r: usize)
    requires
        label + tail + 4 <= usize::MAX,
    ensures
        r == crate::gpu::grid::clamp(width - (label + tail + 4), 8, 40),
{
    let used: usize = label + tail + 4;
    if width < used || width - used < 8 {
        8
    } else if width - used > 40 {
        40
    } else {
        width - used
    }
}

/// Columns of a terminal that says it has `col`: 80 where that is too few to be
/// true.
pub fn term_width(col: Option<u16>) -> (r: usize)
    ensures
        r == match col {
            Some(c) => if c >= 40 {
                c as usize
            } else {
                80
            },
            None => 80,
        },
{
    match col {
        Some(c) => if c >= 40 {
            c as usize
        } else {
            80
        },
        None => 80,
    }
}

/// Two digits, with a leading zero.
pub open spec fn two(n: nat) -> Seq<char> {
    if n < 10 {
        seq!['0'] + text::decimal(n)
    } else {
        text::decimal(n)
    }
}

fn push_two(s: &mut String, n: u64)
    ensures
        final(s)@ == old(s)@ + two(n as nat),
{
    if n < 10 {
        s.push('0');
    }
    s.push_str(text::decimal_string(n).as_str());
    assert(s@ =~= old(s)@ + two(n as nat));
}

/// Seconds as hours, minutes and seconds; the hours only where there are any.
pub open spec fn clock_of(secs: nat) -> Seq<char> {
    let (h, m, s) = (secs / 3600, secs % 3600 / 60, secs % 60);
    if h > 0 {
        text::decimal(h) + seq![':'] + two(m) + seq![':'] + two(s)
    } else {
        text::decimal(m) + seq![':'] + two(s)
    }
}

/// Seconds as hours, minutes and seconds; the hours only where there are any.
pub fn clock(secs: u64) -> (r: String)
    ensures
        r@ == clock_of(secs as nat),
{
    let h: u64 = secs / 3600;
    let m: u64 = secs % 3600 / 60;
    let s: u64 = secs % 60;
    if h > 0 {
        let mut r = text::decimal_string(h);
        r.push(':');
        push_two(&mut r, m);
        r.push(':');
        push_two(&mut r, s);
        assert(r@ =~= clock_of(secs as nat));
        r
    } else {
        let mut r = text::decimal_string(m);
        r.push(':');
        push_two(&mut r, s);
        assert(r@ =~= clock_of(secs as nat));
        r
    }
}

/// The unit for a count of bytes, and how many bytes it is.
pub open spec fn unit_of(n: u64) -> (Seq<char>, u64) {
    if n < 1_000 {
        ("B"@, 1)
    } else if n < 1_000_000 {
        ("KB"@, 1_000)
    } else if n < 1_000_000_000 {
        ("MB"@, 1_000_000)
    } else if n < 1_000_000_000_000 {
        ("GB"@, 1_000_000_000)
    } else {
        ("TB"@, 1_000_000_000_000)
    }
}

/// The unit for a count of bytes, and how many bytes it is.
pub fn unit(n: u64) -> (r: (&'static str, u64))
    ensures
        r.0@ == unit_of(n).0,
        r.1 == unit_of(n).1,
{
    if n < 1_000 {
        ("B", 1)
    } else if n < 1_000_000 {
        ("KB", 1_000)
    } else if n < 1_000_000_000 {
        ("MB", 1_000_000)
    } else if n < 1_000_000_000_000 {
        ("GB", 1_000_000_000)
    } else {
        ("TB", 1_000_000_000_000)
    }
}

/// The unit leaves fewer than a thousand of it, unless there is no larger one.
pub proof fn units_keep_numbers_short(n: u64)
    ensures
        unit_of(n).1 <= n || unit_of(n).1 == 1,
        n < 1000 * unit_of(n).1 || unit_of(n).1 == 1_000_000_000_000,
{
}

} // verus!
