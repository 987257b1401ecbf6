//! What the two engines share when they fetch: a bound on the requests that
//! are outstanding at once, and the rule that tells a failure worth another
//! try from one that is not.

use vstd::prelude::*;

verus! {

/// How many requests may be outstanding at once, unless the caller says
/// otherwise.
pub const CONCURRENT_REQUESTS: usize = 128;

/// How one attempt at a fetch went.
#[derive(Clone, Copy, Debug, PartialEq, Eq, Structural)]
pub enum Attempt {
    /// No answer came.
    Unreachable,
    /// An answer came with this HTTP status; `decoded` says whether its body
    /// has the expected shape.
    Answered { status: u16, decoded: bool },
}

/// Why an attempt failed.
#[derive(Clone, Copy, Debug, PartialEq, Eq, Structural)]
pub enum Failure {
    /// Another attempt may succeed.
    Transient,
    /// No attempt will succeed.
    Permanent,
}

/// What follows a failed attempt.
#[derive(Clone, Copy, Debug, PartialEq, Eq, Structural)]
pub enum Verdict {
    /// Try again after the pause that the backoff policy sets.
    Retry,
    /// Give the item up; it is left out of the results.
    Skip,
}

/// The status tells of an error, on the client's side or the server's.
pub open spec fn is_error_status(status: u16) -> bool {
    400 <= status <= 599
}

/// What an attempt came to: nothing where it succeeded, else the kind of
/// its failure. No answer, or an answer with an error status, is transient;
/// an answer without error whose body has not the expected shape is
/// permanent.
pub open spec fn spec_classify(attempt: Attempt) -> Option<Failure> {
    match attempt {
        Attempt::Unreachable => Some(Failure::Transient),
        Attempt::Answered { status, decoded } => if is_error_status(status) {
            Some(Failure::Transient)
        } else if !decoded {
            Some(Failure::Permanent)
        } else {
            None
        },
    }
}

/// Tells a failure worth another try from one that is not.
pub fn classify(attempt: Attempt) -> (failure: Option<Failure>)
    ensures
        failure == spec_classify(attempt),
{
    match attempt {
        Attempt::Unreachable => Some(Failure::Transient),
        Attempt::Answered { status, decoded } => if 400 <= status && status <= 599 {
            Some(Failure::Transient)
        } else if !decoded {
            Some(Failure::Permanent)
        } else {
            None
        },
    }
}

/// What follows a failure: a transient one is tried again until the backoff
/// policy is exhausted; a permanent one, or an exhausted policy, gives the
/// item up.
pub fn verdict(failure: Failure, exhausted: bool) -> (verdict: Verdict)
    ensures
        verdict == if failure == Failure::Transient && !exhausted {
            Verdict::Retry
        } else {
            Verdict::Skip
        },
{
    match failure {
        Failure::Transient => if exhausted {
            Verdict::Skip
        } else {
            Verdict::Retry
        },
        Failure::Permanent => Verdict::Skip,
    }
}

/// The progress of a set of fetches of which only so many may be
/// outstanding at once. The items are numbered from zero in the order in
/// which they were given; `issued` of them have been started, `outstanding`
/// of those have not come back, and `yielded` have come back with a result.
#[derive(Clone, Copy, Debug, PartialEq, Eq, Structural)]
pub struct FetchWindow {
    pub limit: usize,
    pub total: u64,
    pub issued: u64,
    pub outstanding: usize,
    pub yielded: u64,
}

impl FetchWindow {
    /// No more fetches are outstanding than the limit allows, and none that
    /// was not started.
    pub open spec fn wf(self) -> bool {
        &&& self.limit > 0
        &&& self.outstanding <= self.limit
        &&& self.outstanding <= self.issued <= self.total
        &&& self.yielded + self.outstanding <= self.issued
    }

    /// Every item was started and has come back.
    pub open spec fn spec_is_finished(self) -> bool {
        self.issued == self.total && self.outstanding == 0
    }

    /// Another fetch may be started.
    pub open spec fn has_room(self) -> bool {
        self.outstanding < self.limit && self.issued < self.total
    }

    /// A window over `total` items of which at most `limit` are fetched at
    /// once.
    pub fn new(total: u64, limit: usize) -> (window: FetchWindow)
        requires
            limit > 0,
        ensures
            window.wf(),
            window == (FetchWindow { limit, total, issued: 0, outstanding: 0, yielded: 0 }),
    {
        FetchWindow { limit, total, issued: 0, outstanding: 0, yielded: 0 }
    }

    /// The item whose fetch is to be started now, if one may be started:
    /// the first that was not started yet, as long as fewer fetches than the
    /// limit are outstanding.
    pub fn next(&mut self) -> (item: Option<u64>)
        requires
            old(self).wf(),
        ensures
            final(self).wf(),
            final(self).outstanding <= final(self).limit,
            item.is_some() <==> old(self).has_room(),
            item.is_some() ==> item.unwrap() == old(self).issued && *final(self) == (FetchWindow {
                issued: (old(self).issued + 1) as u64,
                outstanding: (old(self).outstanding + 1) as usize,
                ..*old(self)
            }),
            item.is_none() ==> *final(self) == *old(self),
    {
        if self.outstanding < self.limit && self.issued < self.total {
            let item = self.issued;
            self.issued = self.issued + 1;
            self.outstanding = self.outstanding + 1;
            Some(item)
        } else {
            None
        }
    }

    /// A fetch came back. It counts among the results only if it
    /// succeeded; a failed one is dropped.
    pub fn completed(&mut self, succeeded: bool)
        requires
            old(self).wf(),
            old(self).outstanding > 0,
        ensures
            final(self).wf(),
            final(self).outstanding <= final(self).limit,
            *final(self) == (FetchWindow {
                outstanding: (old(self).outstanding - 1) as usize,
                yielded: if succeeded {
                    (old(self).yielded + 1) as u64
                } else {
                    old(self).yielded
                },
                ..*old(self)
            }),
    {
        self.outstanding = self.outstanding - 1;
        if succeeded {
            self.yielded = self.yielded + 1;
        }
    }

    /// Every item was started and has come back.
    pub fn is_finished(&self) -> (finished: bool)
        ensures
            finished == self.spec_is_finished(),
    {
        self.issued == self.total && self.outstanding == 0
    }

    /// A window that is not finished never stalls: a fetch may be started,
    /// or one is outstanding and will come back.
    pub proof fn lemma_never_stalls(self)
        requires
            self.wf(),
            !self.spec_is_finished(),
        ensures
            self.has_room() || self.outstanding > 0,
    {
    }
}

/// What happens to a window: a fetch is started if one may be, or a fetch
/// comes back.
pub enum Event {
    Start,
    Complete { succeeded: bool },
}

impl FetchWindow {
    /// The window after an event. Starting where nothing may be started,
    /// and completing where nothing is outstanding, change nothing.
    pub open spec fn after(self, event: Event) -> FetchWindow {
        match event {
            Event::Start => if self.has_room() {
                FetchWindow {
                    issued: (self.issued + 1) as u64,
                    outstanding: (self.outstanding + 1) as usize,
                    ..self
                }
            } else {
                self
            },
            Event::Complete { succeeded } => if self.outstanding > 0 {
                FetchWindow {
                    outstanding: (self.outstanding - 1) as usize,
                    yielded: if succeeded {
                        (self.yielded + 1) as u64
                    } else {
                        self.yielded
                    },
                    ..self
                }
            } else {
                self
            },
        }
    }

    /// The window after a run of events.
    pub open spec fn after_all(self, events: Seq<Event>) -> FetchWindow
        decreases events.len(),
    {
        if events.len() == 0 {
            self
        } else {
            self.after_all(events.drop_last()).after(events.last())
        }
    }

    /// The bound holds throughout: whatever the number of items and however
    /// starts and completions interleave, no more fetches are outstanding
    /// than the limit allows.
    pub proof fn lemma_bound_holds(self, events: Seq<Event>)
        requires
            self.wf(),
        ensures
            self.after_all(events).wf(),
            self.after_all(events).outstanding <= self.limit,
            self.after_all(events).limit == self.limit,
        decreases events.len(),
    {
        if events.len() > 0 {
            self.lemma_bound_holds(events.drop_last());
        }
    }
}

} // verus!
