//! The loop of a shard worker: which command it takes up, which appends it
//! gathers into one group, and when it seals an aged pack.
//!
//! Commands go by the names that their owner gave them. Moments are nanoseconds
//! of a monotonic clock.
use vstd::prelude::*;

use crate::time::Duration;
use crate::worker::{min_nanos, AppendGroupTuner, MAX_APPEND_GROUP};

verus! {

/// The longest wait for a command, in nanoseconds.
pub const MAX_IDLE_NANOS: u64 = 100_000_000;

/// A command that a worker received.
#[derive(Debug, Clone, Copy, PartialEq, Eq, Structural)]
pub enum WorkerCommand {
    /// An append, which may join others in a group.
    Append(u64),
    /// Anything else, which is served alone.
    Request(u64),
}

/// What a worker does next.
#[derive(Debug, PartialEq, Eq)]
pub enum WorkerStep {
    /// Waits for a command, no longer than this.
    Receive(Duration),
    /// Serves a request.
    Serve(u64),
    /// Writes a group of appends.
    Write(Vec<u64>),
    /// Seals the active pack if it is old enough.
    SealAged,
    /// Ends.
    Stop,
}

/// The commands that a step takes up, in order.
pub open spec fn taken_up(step: WorkerStep) -> Seq<u64> {
    match step {
        WorkerStep::Serve(name) => seq![name],
        WorkerStep::Write(names) => names@,
        _ => Seq::empty(),
    }
}

/// The commands that a received command makes the worker take up.
pub open spec fn taken_up_at_once(step: Option<WorkerStep>) -> Seq<u64> {
    match step {
        Some(step) => taken_up(step),
        None => Seq::empty(),
    }
}

/// A worker between two steps.
pub struct WorkerLoop {
    pub tuner: AppendGroupTuner,
    pub max_pack_age: Duration,
    /// A request that ended a group and is served after it.
    pub deferred: Option<u64>,
    /// The appends of the group that is being gathered.
    pub group: Vec<u64>,
    /// When the group is written at the latest.
    pub deadline: u64,
}

impl WorkerLoop {
    /// The group is within its bound, and is written before a request is deferred.
    pub open spec fn wf(self) -> bool {
        &&& self.tuner.wf()
        &&& self.group@.len() <= MAX_APPEND_GROUP
        &&& self.deferred is Some ==> self.group@.len() == 0
    }

    /// The worker is ready for another command.
    pub open spec fn receiving(self) -> bool {
        self.deferred is None && self.group@.len() < MAX_APPEND_GROUP
    }

    /// The commands that were received and not taken up, in order.
    pub open spec fn waiting(self) -> Seq<u64> {
        match self.deferred {
            Some(name) => self.group@.push(name),
            None => self.group@,
        }
    }

    pub fn new(append_linger: Duration, max_pack_age: Duration) -> (worker: Self)
        ensures
            worker.wf(),
            worker.receiving(),
            worker.waiting() == Seq::<u64>::empty(),
            worker.max_pack_age == max_pack_age,
            worker.tuner.max_linger == append_linger,
    {
        let worker = WorkerLoop {
            tuner: AppendGroupTuner::new(append_linger),
            max_pack_age,
            deferred: None,
            group: Vec::new(),
            deadline: 0,
        };
        proof {
            assert(worker.waiting() =~= Seq::<u64>::empty());
        }
        worker
    }

    fn take_group(&mut self) -> (names: Vec<u64>)
        ensures
            names@ == old(self).group@,
            final(self).group@ == Seq::<u64>::empty(),
            final(self).tuner == old(self).tuner,
            final(self).max_pack_age == old(self).max_pack_age,
            final(self).deferred == old(self).deferred,
            final(self).deadline == old(self).deadline,
    {
        let mut names: Vec<u64> = Vec::new();
        names.append(&mut self.group);
        names
    }

    /// Finds what the worker does before it receives anything: it goes on with a
    /// group, serves a deferred request, or waits.
    pub fn next(&mut self, now: u64) -> (step: WorkerStep)
        requires
            old(self).wf(),
        ensures
            final(self).wf(),
            final(self).tuner == old(self).tuner,
            final(self).max_pack_age == old(self).max_pack_age,
            taken_up(step) + final(self).waiting() == old(self).waiting(),
            step is Receive ==> final(self).receiving() && *final(self) == *old(self),
            if old(self).group@.len() > 0 {
                if old(self).group@.len() < MAX_APPEND_GROUP && now < old(self).deadline {
                    step == WorkerStep::Receive(
                        Duration { nanos: (old(self).deadline - now) as u128 },
                    )
                } else {
                    step is Write && step->Write_0@ == old(self).group@
                }
            } else {
                match old(self).deferred {
                    Some(name) => step == WorkerStep::Serve(name),
                    None => step is Receive && step->Receive_0.nanos == min_nanos(
                        old(self).max_pack_age.nanos as int,
                        MAX_IDLE_NANOS as int,
                    ),
                }
            },
    {
        if self.group.len() > 0 {
            if self.group.len() < MAX_APPEND_GROUP && now < self.deadline {
                proof {
                    assert(Seq::<u64>::empty() + self.waiting() =~= self.waiting());
                }
                return WorkerStep::Receive(Duration { nanos: (self.deadline - now) as u128 });
            }
            let names = self.take_group();
            proof {
                assert(names@ + self.waiting() =~= old(self).waiting());
            }
            return WorkerStep::Write(names);
        }
        match self.deferred {
            Some(name) => {
                self.deferred = None;
                proof {
                    assert(seq![name] + self.waiting() =~= old(self).waiting());
                }
                WorkerStep::Serve(name)
            },
            None => {
                proof {
                    assert(Seq::<u64>::empty() + self.waiting() =~= self.waiting());
                }
                if self.max_pack_age.nanos <= MAX_IDLE_NANOS as u128 {
                    WorkerStep::Receive(self.max_pack_age)
                } else {
                    WorkerStep::Receive(Duration { nanos: MAX_IDLE_NANOS as u128 })
                }
            },
        }
    }

    /// Takes a command: an append starts or joins a group, a request is served,
    /// after the group if there is one.
    pub fn received(&mut self, command: WorkerCommand, now: u64) -> (step: Option<WorkerStep>)
        requires
            old(self).wf(),
            old(self).receiving(),
        ensures
            final(self).wf(),
            final(self).max_pack_age == old(self).max_pack_age,
            taken_up_at_once(step) + final(self).waiting() == old(self).waiting().push(
                match command {
                    WorkerCommand::Append(name) => name,
                    WorkerCommand::Request(name) => name,
                },
            ),
            match command {
                WorkerCommand::Append(name) => {
                    &&& step is None
                    &&& final(self).group@ == old(self).group@.push(name)
                    &&& final(self).deferred is None
                    &&& if old(self).group@.len() > 0 {
                        &&& final(self).deadline == old(self).deadline
                        &&& final(self).tuner == old(self).tuner
                    } else {
                        &&& final(self).tuner == (if old(self).tuner.rested(now) {
                            AppendGroupTuner {
                                linger: old(self).tuner.min_linger,
                                ..old(self).tuner
                            }
                        } else {
                            old(self).tuner
                        })
                        &&& final(self).deadline == min_nanos(
                            now + final(self).tuner.linger.nanos,
                            u64::MAX as int,
                        )
                    }
                },
                WorkerCommand::Request(name) => {
                    &&& final(self).tuner == old(self).tuner
                    &&& final(self).deadline == old(self).deadline
                    &&& if old(self).group@.len() > 0 {
                        &&& step is Some && step->0 is Write
                        &&& step->0->Write_0@ == old(self).group@
                        &&& final(self).deferred == Some(name)
                    } else {
                        &&& step == Some(WorkerStep::Serve(name))
                        &&& final(self).deferred is None
                    }
                },
            },
    {
        match command {
            WorkerCommand::Append(name) => {
                if self.group.len() == 0 {
                    let linger = self.tuner.begin_group(now);
                    self.deadline =
                    if linger.nanos <= (u64::MAX - now) as u128 {
                        now + linger.nanos as u64
                    } else {
                        u64::MAX
                    };
                }
                self.group.push(name);
                proof {
                    assert(Seq::<u64>::empty() + self.waiting() =~= self.waiting());
                }
                None
            },
            WorkerCommand::Request(name) => {
                if self.group.len() == 0 {
                    proof {
                        assert(seq![name] + self.waiting() =~= old(self).waiting().push(name));
                    }
                    return Some(WorkerStep::Serve(name));
                }
                let names = self.take_group();
                self.deferred = Some(name);
                proof {
                    assert(names@ + self.waiting() =~= old(self).waiting().push(name));
                }
                Some(WorkerStep::Write(names))
            },
        }
    }

    /// Goes on after no command came: a group is written as it is.
    pub fn lapsed(&mut self, disconnected: bool) -> (step: WorkerStep)
        requires
            old(self).wf(),
            old(self).receiving(),
        ensures
            final(self).wf(),
            final(self).tuner == old(self).tuner,
            final(self).max_pack_age == old(self).max_pack_age,
            final(self).waiting() == Seq::<u64>::empty(),
            taken_up(step) == old(self).waiting(),
            if old(self).group@.len() > 0 {
                step is Write && step->Write_0@ == old(self).group@
            } else if disconnected {
                step is Stop
            } else {
                step is SealAged
            },
    {
        if self.group.len() > 0 {
            let names = self.take_group();
            return WorkerStep::Write(names);
        }
        proof {
            assert(self.waiting() =~= Seq::<u64>::empty());
        }
        if disconnected {
            WorkerStep::Stop
        } else {
            WorkerStep::SealAged
        }
    }

    /// Learns from a group that was written.
    pub fn written(&mut self, now: u64, group_len: usize)
        requires
            old(self).wf(),
        ensures
            final(self).wf(),
            final(self).waiting() == old(self).waiting(),
            final(self).group == old(self).group,
            final(self).deferred == old(self).deferred,
            final(self).deadline == old(self).deadline,
            final(self).max_pack_age == old(self).max_pack_age,
            final(self).tuner.last_group_completed == Some(now),
            final(self).tuner.min_linger == old(self).tuner.min_linger,
            final(self).tuner.max_linger == old(self).tuner.max_linger,
            final(self).tuner.linger.nanos == old(self).tuner.learned(group_len),
    {
        self.tuner.complete_group(now, group_len);
    }
}

} // verus!
