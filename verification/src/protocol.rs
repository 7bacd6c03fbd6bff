//! The live-mode producer/consumer handshake, as a pure state machine.
//!
//! One background thread repeatedly computes spring forces; one polling host
//! thread integrates and harvests frames.  The two share a [`Status`] under
//! a host-owned lock; the condition variable's wait predicate is
//! [`must_wait`].  The transitions here are the decisions of the two
//! participants; the lock, the condition variable and the threads themselves
//! live outside the library and only drive these functions.
//!
//! The single-slot back-pressure of the design is proved below: a frame,
//! once computed, blocks the background thread until the host consumes it,
//! so the simulation is never more than one un-consumed frame ahead, and a
//! cooperative shutdown is observed at the next wake-up.

use vstd::prelude::*;

verus! {

/// The shared flags of the handshake.  `data_ready` starts true so the
/// background thread does not race ahead before the host is ready.
#[derive(Clone, Copy, Debug, PartialEq, Eq, Structural)]
pub struct Status {
    pub data_ready: bool,
    pub force_shutdown: bool,
}

impl Status {
    pub fn new() -> (r: Status)
        ensures
            r.data_ready,
            !r.force_shutdown,
    {
        Status { data_ready: true, force_shutdown: false }
    }
}

/// What the background thread does after a wake-up.
#[derive(Clone, Copy, Debug, PartialEq, Eq, Structural)]
pub enum BackgroundAction {
    /// Run one spring-force accumulation pass and mark the frame ready.
    ComputeForces,
    /// Leave the simulation loop.
    Terminate,
}

/// The condition under which the background thread stays blocked on the
/// condition variable: the last frame is still un-consumed and no shutdown
/// was requested.
pub open spec fn must_wait(s: Status) -> bool {
    s.data_ready && !s.force_shutdown
}

/// The background thread's state after a wake-up.
pub open spec fn background_wake_spec(s: Status) -> Status {
    if s.force_shutdown {
        Status { data_ready: false, force_shutdown: s.force_shutdown }
    } else {
        Status { data_ready: true, force_shutdown: s.force_shutdown }
    }
}

/// The host's state after harvesting a frame: the slot is consumed.
pub open spec fn host_poll_spec(s: Status) -> Status {
    Status { data_ready: false, force_shutdown: s.force_shutdown }
}

/// The state after a shutdown request.
pub open spec fn request_shutdown_spec(s: Status) -> Status {
    Status { data_ready: s.data_ready, force_shutdown: true }
}

/// The background thread's decision on wake-up.  The caller holds the lock
/// and has already waited out [`must_wait`]; on `ComputeForces` it runs the
/// force pass before releasing the lock.
pub fn background_on_wake(status: &mut Status) -> (r: BackgroundAction)
    requires
        !must_wait(*old(status)),
    ensures
        *final(status) == background_wake_spec(*old(status)),
        r == if old(status).force_shutdown {
            BackgroundAction::Terminate
        } else {
            BackgroundAction::ComputeForces
        },
        r is ComputeForces ==> must_wait(*final(status)),
{
    if status.force_shutdown {
        status.data_ready = false;
        BackgroundAction::Terminate
    } else {
        status.data_ready = true;
        BackgroundAction::ComputeForces
    }
}

/// The host's flag update when a poll succeeds (the try-lock was won and
/// the frame was integrated): consume the slot, then signal one waiter.
pub fn host_on_poll(status: &mut Status)
    ensures
        *final(status) == host_poll_spec(*old(status)),
        !final(status).data_ready,
{
    status.data_ready = false;
}

/// The host's flag update for a cooperative shutdown; all waiters are
/// signalled afterwards and the background handle is joined.
pub fn host_request_shutdown(status: &mut Status)
    ensures
        *final(status) == request_shutdown_spec(*old(status)),
        final(status).force_shutdown,
{
    status.force_shutdown = true;
}

/// Single-slot back-pressure: once the background thread has computed a
/// frame, it is blocked until the host consumes that frame, so it can never
/// be two frames ahead; and after the host consumes, exactly one compute is
/// enabled again.
pub proof fn lemma_single_frame_ahead(s: Status)
    requires
        !s.force_shutdown,
    ensures
        !must_wait(s) ==> must_wait(background_wake_spec(s)),
        must_wait(background_wake_spec(s)) ==> background_wake_spec(s).data_ready,
        !must_wait(host_poll_spec(background_wake_spec(s))),
{
}

/// Alternation: in a run without shutdown, the background thread and the
/// host strictly take turns.  After a host poll the background thread is
/// runnable and the host's slot is empty; after the background computes,
/// the background thread is blocked and the slot is full.  Neither party
/// can act twice in a row.
pub proof fn lemma_alternation(s: Status)
    requires
        !s.force_shutdown,
        !must_wait(s),
    ensures
        ({
            let after_bg = background_wake_spec(s);
            let after_host = host_poll_spec(after_bg);
            &&& after_bg.data_ready
            &&& must_wait(after_bg)
            &&& !after_host.data_ready
            &&& !must_wait(after_host)
            &&& after_host == Status { data_ready: false, force_shutdown: false }
        }),
{
}

/// Cooperative shutdown is observed at the next wake-up: after a shutdown
/// request the background thread is no longer blocked, and its next wake
/// decides `Terminate`, whatever the slot state was.
pub proof fn lemma_shutdown_within_one_wake(s: Status)
    ensures
        !must_wait(request_shutdown_spec(s)),
        request_shutdown_spec(s).force_shutdown,
        !background_wake_spec(request_shutdown_spec(s)).data_ready,
{
}

} // verus!
