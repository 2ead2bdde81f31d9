//! The schedule of a parallel scan: which region to hand to a worker next,
//! and when to wait for workers instead. The driver decides; whoever runs the
//! workers carries the decisions out and reports back.

use vstd::prelude::*;

verus! {

/// The number of workers that may run at once where none is given.
pub const DEFAULT_WORKERS: u64 = 10;

/// How far below the limit the driver likes the number of running workers to
/// fall before it admits more.
pub const HEADROOM: u64 = 5;

/// What the driver is doing.
#[derive(Debug, Clone, Copy, PartialEq, Eq, Structural)]
pub enum Phase {
    /// Handing out regions as long as the limit allows.
    Admitting,
    /// At the limit: waiting for workers for one burst of time.
    FirstBurst,
    /// Still within the headroom after a burst: waiting for one burst more.
    SecondBurst,
    /// All regions handed out: waiting for the workers that are left.
    Finishing,
    /// All regions scanned.
    Done,
}

/// What is to be done next.
#[derive(Debug, Clone, Copy, PartialEq, Eq, Structural)]
pub enum Action {
    /// Start a worker on the region of this number.
    Spawn(usize),
    /// Wait for the worker that was started first among those running. Where
    /// `new_burst` is set, a new burst of time begins with this wait.
    Join { new_burst: bool },
    /// Nothing is left to do.
    Finish,
}

/// What has happened since the last action was given out.
#[derive(Debug, Clone, Copy, PartialEq, Eq, Structural)]
pub enum Event {
    /// The worker was started.
    Spawned,
    /// The worker waited for has ended; `burst_over` tells whether the time
    /// of the current burst has run out.
    Joined { burst_over: bool },
}

/// The state of a parallel scan.
#[derive(Debug, Clone, Copy, PartialEq, Eq, Structural)]
pub struct ParallelDriver {
    /// The number of regions to scan.
    pub regions: usize,
    /// The number of regions handed out so far; the next to hand out.
    pub next: usize,
    /// The number of workers running.
    pub in_flight: usize,
    /// The number of workers that may run at once.
    pub max_workers: usize,
    pub phase: Phase,
}

impl ParallelDriver {
    /// The limit in effect: at least one worker may always run.
    pub open spec fn cap(&self) -> int {
        if self.max_workers == 0 {
            1
        } else {
            self.max_workers as int
        }
    }

    /// The number of running workers above which the driver waits for a
    /// second burst: the limit less the headroom.
    pub open spec fn low_mark(&self) -> int {
        if self.cap() > HEADROOM {
            self.cap() - HEADROOM
        } else {
            0
        }
    }

    /// No more regions are handed out than there are, no more workers run
    /// than may, and workers run only for regions handed out; at the end
    /// every region was handed out and no worker runs.
    pub open spec fn wf(&self) -> bool {
        &&& self.next <= self.regions
        &&& self.in_flight <= self.cap()
        &&& self.in_flight <= self.next
        &&& self.phase == Phase::Finishing ==> self.next == self.regions
        &&& self.phase == Phase::Done ==> self.next == self.regions && self.in_flight == 0
        &&& (self.phase == Phase::FirstBurst || self.phase == Phase::SecondBurst) ==> self.next
            < self.regions
    }

    /// The decision of a driver that is not in the middle of a burst: hand
    /// out the next region where the limit allows; at the limit, begin a
    /// burst of waiting; with every region handed out, wait for the workers
    /// left, and finish when none is.
    pub open spec fn decide(self) -> (ParallelDriver, Action) {
        if self.next < self.regions {
            if self.in_flight < self.cap() {
                (
                    ParallelDriver {
                        next: (self.next + 1) as usize,
                        in_flight: (self.in_flight + 1) as usize,
                        phase: Phase::Admitting,
                        ..self
                    },
                    Action::Spawn(self.next),
                )
            } else {
                (ParallelDriver { phase: Phase::FirstBurst, ..self }, Action::Join { new_burst: true })
            }
        } else if self.in_flight > 0 {
            (
                ParallelDriver { phase: Phase::Finishing, ..self },
                Action::Join { new_burst: self.phase != Phase::Finishing },
            )
        } else {
            (ParallelDriver { phase: Phase::Done, ..self }, Action::Finish)
        }
    }

    /// The state after `event`, and the action to take then. A worker that
    /// has ended no longer runs. Within a burst the driver goes on waiting
    /// until no worker runs or the time of the burst is over; after a first
    /// burst it waits for a second one if more workers run than the low mark;
    /// otherwise it decides as `decide` says.
    pub open spec fn after(self, event: Event) -> (ParallelDriver, Action) {
        match event {
            Event::Spawned => self.decide(),
            Event::Joined { burst_over } => {
                let d = ParallelDriver {
                    in_flight: if self.in_flight > 0 {
                        (self.in_flight - 1) as usize
                    } else {
                        0
                    },
                    ..self
                };
                match self.phase {
                    Phase::FirstBurst => if d.in_flight == 0 {
                        d.decide()
                    } else if !burst_over {
                        (d, Action::Join { new_burst: false })
                    } else if d.in_flight > d.low_mark() {
                        (
                            ParallelDriver { phase: Phase::SecondBurst, ..d },
                            Action::Join { new_burst: true },
                        )
                    } else {
                        d.decide()
                    },
                    Phase::SecondBurst => if d.in_flight == 0 || burst_over {
                        d.decide()
                    } else {
                        (d, Action::Join { new_burst: false })
                    },
                    _ => d.decide(),
                }
            },
        }
    }

    /// What is left to do, as a number that every step lowers: a region not
    /// yet handed out weighs most, then a worker still running, then the
    /// progress within the phases.
    pub open spec fn remaining(self) -> int {
        6 * (self.regions - self.next) + 3 * self.in_flight + match self.phase {
            Phase::Admitting => 2int,
            Phase::FirstBurst => 1int,
            Phase::SecondBurst => 0int,
            Phase::Finishing => 1int,
            Phase::Done => 0int,
        }
    }

    /// A driver for `regions` regions with at most `num_threads` workers at
    /// once, or the default number where none is given.
    pub fn new(regions: usize, num_threads: Option<u64>) -> (d: Self)
        ensures
            d.wf(),
            d.regions == regions,
            d.next == 0,
            d.in_flight == 0,
            d.phase == Phase::Admitting,
            d.max_workers as int == match num_threads {
                Some(n) => if n <= usize::MAX {
                    n as int
                } else {
                    usize::MAX as int
                },
                None => DEFAULT_WORKERS as int,
            },
    {
        let wanted: u64 = match num_threads {
            Some(v) => v,
            None => DEFAULT_WORKERS,
        };
        let max_workers: usize = if wanted <= usize::MAX as u64 {
            wanted as usize
        } else {
            usize::MAX
        };
        ParallelDriver { regions, next: 0, in_flight: 0, max_workers, phase: Phase::Admitting }
    }

    fn limit(&self) -> (c: usize)
        ensures
            c == self.cap(),
    {
        if self.max_workers == 0 {
            1
        } else {
            self.max_workers
        }
    }

    /// The first action of a scan, and every action that follows a worker's
    /// start.
    pub fn begin(&mut self) -> (a: Action)
        requires
            old(self).wf(),
        ensures
            (*final(self), a) == old(self).decide(),
            final(self).wf(),
    {
        if self.next < self.regions {
            if self.in_flight < self.limit() {
                let region: usize = self.next;
                self.next = self.next + 1;
                self.in_flight = self.in_flight + 1;
                self.phase = Phase::Admitting;
                Action::Spawn(region)
            } else {
                self.phase = Phase::FirstBurst;
                Action::Join { new_burst: true }
            }
        } else if self.in_flight > 0 {
            let new_burst: bool = match self.phase {
                Phase::Finishing => false,
                _ => true,
            };
            self.phase = Phase::Finishing;
            Action::Join { new_burst }
        } else {
            self.phase = Phase::Done;
            Action::Finish
        }
    }

    /// Takes note of `event` and gives out the next action.
    pub fn step(&mut self, event: Event) -> (a: Action)
        requires
            old(self).wf(),
        ensures
            (*final(self), a) == old(self).after(event),
            final(self).wf(),
    {
        match event {
            Event::Spawned => self.begin(),
            Event::Joined { burst_over } => {
                if self.in_flight > 0 {
                    self.in_flight = self.in_flight - 1;
                }
                match self.phase {
                    Phase::FirstBurst => {
                        let cap: usize = self.limit();
                        let low: usize = if cap as u64 > HEADROOM {
                            cap - HEADROOM as usize
                        } else {
                            0
                        };
                        if self.in_flight == 0 {
                            self.begin()
                        } else if !burst_over {
                            Action::Join { new_burst: false }
                        } else if self.in_flight > low {
                            self.phase = Phase::SecondBurst;
                            Action::Join { new_burst: true }
                        } else {
                            self.begin()
                        }
                    },
                    Phase::SecondBurst => {
                        if self.in_flight == 0 || burst_over {
                            self.begin()
                        } else {
                            Action::Join { new_burst: false }
                        }
                    },
                    _ => self.begin(),
                }
            },
        }
    }
}

/// The driver hands out the regions in order, each once; it lets no more
/// workers run than may; it waits only for a worker that runs; and it
/// finishes only when every region was handed out and no worker runs.
pub proof fn lemma_decisions_are_sound(d: ParallelDriver, event: Event)
    requires
        d.wf(),
        event is Joined ==> d.in_flight > 0,
    ensures
        ({
            let (n, a) = d.after(event);
            &&& n.wf()
            &&& n.regions == d.regions
            &&& n.max_workers == d.max_workers
            &&& a matches Action::Spawn(i) ==> i == d.next && n.next == d.next + 1
            &&& !(a is Spawn) ==> n.next == d.next
            &&& a is Join ==> n.in_flight > 0
            &&& a is Finish ==> n.next == n.regions && n.in_flight == 0
        }),
{
}

/// Every step of the driver lowers what is left to do, so a scan ends:
/// after a worker's start as after a worker's end.
pub proof fn lemma_every_step_advances(d: ParallelDriver, event: Event)
    requires
        d.wf(),
        d.phase != Phase::Done,
        event is Joined ==> d.in_flight > 0,
        event is Spawned ==> d.phase == Phase::Admitting,
    ensures
        d.after(event).0.remaining() < d.remaining(),
{
}

/// With no region to scan the driver finishes at once: no worker is started
/// and none is waited for.
pub proof fn lemma_nothing_to_scan(d: ParallelDriver)
    requires
        d.wf(),
        d.regions == 0,
    ensures
        d.decide().1 == Action::Finish,
        d.decide().0.in_flight == 0,
{
}

} // verus!
