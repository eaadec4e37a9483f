//! The EP0 event stream.
//!
//! FunctionFS answers every standard control request itself, so EP0 only tells
//! when the host has enabled the interface -- and hands over the odd vendor
//! request addressed to it, which is stalled.
use vstd::prelude::*;

verus! {

/// `struct usb_functionfs_event` is a packed 8-byte `usb_ctrlrequest` union plus
/// a `type` byte and 3 pad bytes.
pub const FFS_EVENT_SIZE: usize = 12;

pub const FUNCTIONFS_UNBIND: u8 = 1;

pub const FUNCTIONFS_ENABLE: u8 = 2;

pub const FUNCTIONFS_DISABLE: u8 = 3;

pub const FUNCTIONFS_SETUP: u8 = 4;

/// What one event asks for.
#[derive(Clone, Copy, Debug, PartialEq, Eq, Structural)]
pub enum Ep0Action {
    /// Nothing.
    Quiet,
    /// The host has just configured the interface.
    Enabled,
    /// The host has just disabled the interface.
    Disabled,
    /// The gadget was unbound from its controller.
    Unbound,
    /// Stall the request with a zero-length write.
    StallByWriting,
    /// Stall the request with a zero-length read.
    StallByReading,
}

/// One event handled: whether the interface is enabled after it, and what it
/// asks for.
#[derive(Clone, Copy, Debug, PartialEq, Eq, Structural)]
pub struct Ep0Step {
    pub enabled: bool,
    pub action: Ep0Action,
}

/// How one event is handled.
///
/// A no-data request is confirmed with a zero-length transfer in the
/// data-stage direction; the same transfer in the opposite direction stalls it
/// instead. The direction is the top bit of the request type.
pub open spec fn ep0_step(enabled: bool, event_type: u8, request_type: u8) -> Ep0Step {
    if event_type == FUNCTIONFS_ENABLE {
        Ep0Step {
            enabled: true,
            action: if enabled { Ep0Action::Quiet } else { Ep0Action::Enabled },
        }
    } else if event_type == FUNCTIONFS_DISABLE {
        Ep0Step {
            enabled: false,
            action: if enabled { Ep0Action::Disabled } else { Ep0Action::Quiet },
        }
    } else if event_type == FUNCTIONFS_UNBIND {
        Ep0Step { enabled: false, action: Ep0Action::Unbound }
    } else if event_type == FUNCTIONFS_SETUP {
        Ep0Step {
            enabled,
            action: if request_type < 0x80 {
                Ep0Action::StallByWriting
            } else {
                Ep0Action::StallByReading
            },
        }
    } else {
        Ep0Step { enabled, action: Ep0Action::Quiet }
    }
}

/// How the whole events of one read are handled, in order. The event type is
/// the ninth byte of an event; a setup request's type is the first.
pub open spec fn ep0_steps(enabled: bool, ev: Seq<u8>) -> Seq<Ep0Step>
    decreases ev.len(),
{
    if ev.len() < FFS_EVENT_SIZE {
        Seq::empty()
    } else {
        let step = ep0_step(enabled, ev[8], ev[0]);
        seq![step] + ep0_steps(step.enabled, ev.skip(FFS_EVENT_SIZE as int))
    }
}

/// Whether the interface is enabled after the whole events of one read.
pub open spec fn enabled_after(enabled: bool, ev: Seq<u8>) -> bool {
    let steps = ep0_steps(enabled, ev);
    if steps.len() == 0 {
        enabled
    } else {
        steps.last().enabled
    }
}

/// Handle what one read of EP0 brought.
pub fn handle_events(enabled: bool, ev: &[u8]) -> (steps: Vec<Ep0Step>)
    ensures
        steps@ == ep0_steps(enabled, ev@),
{
    let mut steps: Vec<Ep0Step> = Vec::new();
    let mut now: bool = enabled;
    let mut base: usize = 0;
    assert(ev@.skip(0) =~= ev@);
    assert(steps@ + ep0_steps(enabled, ev@) =~= ep0_steps(enabled, ev@));
    while ev.len() - base >= FFS_EVENT_SIZE
        invariant
            base <= ev@.len(),
            ep0_steps(enabled, ev@) == steps@ + ep0_steps(now, ev@.skip(base as int)),
        decreases ev@.len() - base,
    {
        let event_type: u8 = ev[base + 8];
        let request_type: u8 = ev[base];
        let step: Ep0Step = if event_type == FUNCTIONFS_ENABLE {
            Ep0Step {
                enabled: true,
                action: if now { Ep0Action::Quiet } else { Ep0Action::Enabled },
            }
        } else if event_type == FUNCTIONFS_DISABLE {
            Ep0Step {
                enabled: false,
                action: if now { Ep0Action::Disabled } else { Ep0Action::Quiet },
            }
        } else if event_type == FUNCTIONFS_UNBIND {
            Ep0Step { enabled: false, action: Ep0Action::Unbound }
        } else if event_type == FUNCTIONFS_SETUP {
            Ep0Step {
                enabled: now,
                action: if request_type < 0x80 {
                    Ep0Action::StallByWriting
                } else {
                    Ep0Action::StallByReading
                },
            }
        } else {
            Ep0Step { enabled: now, action: Ep0Action::Quiet }
        };
        proof {
            let rest = ev@.skip(base as int);
            assert(rest.skip(FFS_EVENT_SIZE as int) =~= ev@.skip(base + FFS_EVENT_SIZE));
            let after = ep0_steps(step.enabled, ev@.skip(base + FFS_EVENT_SIZE));
            assert(steps@ + (seq![step] + after) =~= steps@.push(step) + after);
        }
        steps.push(step);
        now = step.enabled;
        base = base + FFS_EVENT_SIZE;
    }
    assert(steps@ + ep0_steps(now, ev@.skip(base as int)) =~= steps@);
    steps
}

/// It does not matter how the events are batched into reads: handling whole
/// events `a`, then `b` from where that left the interface, is handling `a`
/// followed by `b`.
pub proof fn law_ep0_batches(enabled: bool, a: Seq<u8>, b: Seq<u8>)
    requires
        a.len() % FFS_EVENT_SIZE as nat == 0,
    ensures
        ep0_steps(enabled, a + b) == ep0_steps(enabled, a) + ep0_steps(
            enabled_after(enabled, a),
            b,
        ),
    decreases a.len(),
{
    if a.len() < FFS_EVENT_SIZE {
        assert(a + b =~= b);
        assert(ep0_steps(enabled, a) + ep0_steps(enabled, b) =~= ep0_steps(enabled, b));
    } else {
        let step = ep0_step(enabled, a[8], a[0]);
        let rest = a.skip(FFS_EVENT_SIZE as int);
        assert((a + b).skip(FFS_EVENT_SIZE as int) =~= rest + b);
        law_ep0_batches(step.enabled, rest, b);
        let tail = ep0_steps(step.enabled, rest);
        assert(ep0_steps(enabled, a) == seq![step] + tail);
        assert(enabled_after(enabled, a) == enabled_after(step.enabled, rest));
        let after = ep0_steps(enabled_after(enabled, a), b);
        assert(seq![step] + (tail + after) =~= (seq![step] + tail) + after);
    }
}

/// A change is reported exactly when there is one: an event that leaves the
/// interface as it was is never reported as enabling or disabling it.
pub proof fn law_ep0_reports_changes(enabled: bool, event_type: u8, request_type: u8)
    ensures
        ({
            let step = ep0_step(enabled, event_type, request_type);
            &&& step.action == Ep0Action::Enabled <==> !enabled && step.enabled
            &&& step.action == Ep0Action::Disabled ==> enabled && !step.enabled
            &&& enabled && !step.enabled ==> step.action == Ep0Action::Disabled || step.action
                == Ep0Action::Unbound
        }),
{
}

/// An event is twelve bytes. The ninth says what it is: 1 unbinds, 2 enables, 3
/// disables, and 4 is a request, which is stalled against the direction that
/// the top bit of its first byte gives. Nothing else counts.
pub proof fn law_one_event(enabled: bool, ev: Seq<u8>)
    requires
        ev.len() == 12,
    ensures
        ({
            let steps = ep0_steps(enabled, ev);
            let step = steps[0];
            &&& steps.len() == 1
            &&& ev[8] == 1 ==> !step.enabled && step.action is Unbound
            &&& ev[8] == 2 ==> step.enabled && (step.action is Enabled <==> !enabled)
            &&& ev[8] == 3 ==> !step.enabled && (step.action is Disabled <==> enabled)
            &&& ev[8] == 4 && ev[0] <= 127 ==> step.enabled == enabled
                && step.action is StallByWriting
            &&& ev[8] == 4 && ev[0] >= 128 ==> step.enabled == enabled
                && step.action is StallByReading
            &&& ev[8] == 0 || ev[8] > 4 ==> step.enabled == enabled && step.action is Quiet
            &&& (ev[8] == 2 || ev[8] == 3) && step.enabled == enabled ==> step.action is Quiet
        }),
{
    assert(ev.skip(12) =~= Seq::empty());
    assert(ep0_steps(ep0_step(enabled, ev[8], ev[0]).enabled, ev.skip(12)) =~= Seq::empty());
}

/// Less than an event says nothing.
pub proof fn law_part_of_an_event(enabled: bool, ev: Seq<u8>)
    requires
        ev.len() < 12,
    ensures
        ep0_steps(enabled, ev).len() == 0,
        enabled_after(enabled, ev) == enabled,
{
}

} // verus!
