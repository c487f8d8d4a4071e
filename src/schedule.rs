//! Cadence of the device loop: how long to pause, when to sample the
//! sensors, and when to ask the server for the advertised image.

use vstd::prelude::*;

verus! {

/// Pause between turns while downloading.
pub const DOWNLOADING_PAUSE_MS: u64 = 100;

/// Pause between turns otherwise.
pub const IDLE_PAUSE_MS: u64 = 5000;

/// Turns outside a download between two requests for the advertised image.
pub const INFO_REQUEST_TURNS: u32 = 6;

/// Turns of a download between two sensor samples.
pub const DOWNLOADING_SAMPLE_TURNS: u32 = 50;

/// What one turn of the loop does.
#[derive(PartialEq, Eq, Structural, Clone, Copy, Debug)]
pub struct LoopPlan {
    pub request_info: bool,
    pub sample_sensors: bool,
    pub pause_ms: u64,
}

/// Turn counters of the device loop.
pub struct Scheduler {
    pub turn: u32,
    pub idle_turns: u32,
}

impl Scheduler {
    pub fn new() -> (r: Scheduler)
        ensures
            r.turn == 0,
            r.idle_turns == 0,
    {
        Scheduler { turn: 0, idle_turns: 0 }
    }

    /// Plans the next turn. While downloading: a short pause, and a sensor
    /// sample every `DOWNLOADING_SAMPLE_TURNS` turns. Otherwise: a long
    /// pause, a sample every turn, and a request for the advertised image
    /// every `INFO_REQUEST_TURNS` turns.
    pub fn next(&mut self, downloading: bool) -> (r: LoopPlan)
        ensures
            final(self).turn == if old(self).turn < u32::MAX {
                (old(self).turn + 1) as u32
            } else {
                0
            },
            downloading ==> final(self).idle_turns == old(self).idle_turns && r == (LoopPlan {
                request_info: false,
                sample_sensors: final(self).turn % DOWNLOADING_SAMPLE_TURNS == 0,
                pause_ms: DOWNLOADING_PAUSE_MS,
            }),
            !downloading ==> {
                let due = old(self).idle_turns + 1 >= INFO_REQUEST_TURNS;
                &&& final(self).idle_turns == if due {
                    0
                } else {
                    old(self).idle_turns + 1
                }
                &&& r == (LoopPlan {
                    request_info: due,
                    sample_sensors: true,
                    pause_ms: IDLE_PAUSE_MS,
                })
            },
    {
        self.turn = if self.turn < u32::MAX {
            self.turn + 1
        } else {
            0
        };
        if downloading {
            return LoopPlan {
                request_info: false,
                sample_sensors: self.turn % DOWNLOADING_SAMPLE_TURNS == 0,
                pause_ms: DOWNLOADING_PAUSE_MS,
            };
        }
        let due = self.idle_turns >= INFO_REQUEST_TURNS - 1;
        self.idle_turns = if due {
            0
        } else {
            self.idle_turns + 1
        };
        LoopPlan { request_info: due, sample_sensors: true, pause_ms: IDLE_PAUSE_MS }
    }
}

} // verus!
