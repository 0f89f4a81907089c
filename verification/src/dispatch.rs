//! The event multiplexer: one dispatcher owns the active registry and, on
//! every wake cycle, drains three independent event sources in a fixed
//! priority order — the configuration-change signal, then a hotkey press,
//! then a tray or menu interaction — one event per source per wake, so a
//! burst on one source never starves another.
//!
//! Reconciliation itself needs the outside world (the file is re-read, the
//! OS is asked to register each combination), so a wake cycle is driven as
//! three calls in the fixed order: [`Dispatcher::take_change`] says whether
//! to reconcile now (the caller then loads the configuration, performs the
//! OS calls and hands the outcomes to [`Dispatcher::reconcile`]);
//! [`Dispatcher::dispatch_press`] resolves a press against the registry as
//! it then stands; [`Dispatcher::dispatch_interaction`] ends the loop on
//! the quit control. Change signals are treated as idempotent: reloading
//! twice in a row is harmless, each reload is a full rebuild.
use vstd::prelude::*;
use crate::combo::Combo;
use crate::config::Configuration;
use crate::registry::ActiveRegistry;
use crate::registry::SpecRegistered;
use crate::registry::distinct_outcome_ids;
use crate::registry::registry_wf;
use crate::registry::reload;
use crate::registry::spec_combos;
use crate::registry::spec_lookup;
use crate::registry::spec_plan;
use crate::registry::spec_register_all;

verus! {

/// A hotkey event as the OS reports it: the id of the registration it
/// belongs to, and whether it is a press (`true`) or a release.
#[derive(Clone, Copy, Debug, PartialEq, Eq, Structural)]
pub struct PressEvent {
    pub id: u32,
    pub pressed: bool,
}

/// The dispatcher: sole owner of the active registry, the id of the quit
/// control on the tray menu, and whether loop termination has begun.
pub struct Dispatcher {
    pub registry: ActiveRegistry,
    pub quit_id: u32,
    pub exiting: bool,
}

/// Mathematical image of a [`Dispatcher`].
pub struct SpecDispatcher {
    pub registry: Seq<SpecRegistered>,
    pub quit_id: u32,
    pub exiting: bool,
}

impl View for Dispatcher {
    type V = SpecDispatcher;

    open spec fn view(&self) -> SpecDispatcher {
        SpecDispatcher { registry: self.registry@, quit_id: self.quit_id, exiting: self.exiting }
    }
}

pub open spec fn dispatcher_wf(d: SpecDispatcher) -> bool {
    registry_wf(d.registry)
}

/// Priority step 1 of a wake cycle: whether a pending change signal is
/// acted on now.
pub open spec fn spec_take_change(st: SpecDispatcher, change_pending: bool) -> bool {
    change_pending && !st.exiting
}

/// The target a press event opens: the one bound to the event's id, for a
/// press that is not a release; a stale or unknown id, a release, and a
/// dispatcher that is already exiting open nothing.
pub open spec fn spec_press_target(st: SpecDispatcher, press: Option<PressEvent>) -> Option<
    Seq<u8>,
> {
    if st.exiting {
        None
    } else {
        match press {
            Some(ev) => if ev.pressed {
                match spec_lookup(st.registry, ev.id) {
                    Some(e) => Some(e.target),
                    None => None,
                }
            } else {
                None
            },
            None => None,
        }
    }
}

/// Priority step 3 of a wake cycle: the state afterwards and whether the
/// quit control was selected.
pub open spec fn spec_dispatch_interaction(st: SpecDispatcher, interaction: Option<u32>) -> (
    SpecDispatcher,
    bool,
) {
    if st.exiting {
        (st, false)
    } else {
        let quit = interaction == Some(st.quit_id);
        (
            SpecDispatcher { registry: st.registry, quit_id: st.quit_id, exiting: quit },
            quit,
        )
    }
}

impl Dispatcher {
    /// A dispatcher entering its single steady state, listening with the
    /// given initial registry.
    pub fn new(registry: ActiveRegistry, quit_id: u32) -> (d: Dispatcher)
        ensures
            d@.registry == registry@,
            d@.quit_id == quit_id,
            !d@.exiting,
    {
        Dispatcher { registry, quit_id, exiting: false }
    }

    /// Priority step 1: consume a pending change signal. When this returns
    /// `true` the caller reconciles — re-reads the configuration, performs
    /// the OS calls, and hands the outcomes to [`Dispatcher::reconcile`] —
    /// before the press step of the same wake cycle.
    pub fn take_change(&self, change_pending: bool) -> (r: bool)
        ensures
            r == spec_take_change(self@, change_pending),
    {
        change_pending && !self.exiting
    }

    /// Reconcile the owned registry against a newly loaded configuration:
    /// release everything, register the new configuration from scratch.
    /// `outcomes` reports the OS's answer for each planned combination;
    /// the returned combinations are the ones the caller releases with the
    /// OS. A failed or empty reload leaves a smaller — possibly empty —
    /// registry, never a stale one, and the loop goes on.
    pub fn reconcile(
        &mut self,
        new_config: &Configuration,
        outcomes: &Vec<Option<u32>>,
    ) -> (released: Vec<Combo>)
        requires
            outcomes@.len() == spec_plan(new_config@).len(),
            distinct_outcome_ids(outcomes@),
        ensures
            final(self)@.registry == spec_register_all(new_config@, outcomes@),
            dispatcher_wf(final(self)@),
            final(self)@.quit_id == old(self)@.quit_id,
            final(self)@.exiting == old(self)@.exiting,
            released@ == spec_combos(old(self)@.registry),
    {
        reload(&mut self.registry, new_config, outcomes)
    }

    /// Priority step 2: resolve a polled hotkey event. Exactly the presses
    /// of a currently registered id open their target; releases and stale
    /// ids — a press racing a just-finished reconciliation — are silently
    /// ignored.
    pub fn dispatch_press(&self, press: Option<PressEvent>) -> (r: Option<Vec<u8>>)
        ensures
            match spec_press_target(self@, press) {
                Some(t) => r matches Some(v) && v@ == t,
                None => r is None,
            },
    {
        if self.exiting {
            return None;
        }
        match press {
            Some(ev) => {
                if ev.pressed {
                    self.registry.find_target(ev.id)
                } else {
                    None
                }
            },
            None => None,
        }
    }

    /// Priority step 3: a polled tray or menu interaction. Selecting the
    /// quit control begins graceful termination; every other interaction
    /// is ignored.
    pub fn dispatch_interaction(&mut self, interaction: Option<u32>) -> (quit: bool)
        ensures
            (final(self)@, quit) == spec_dispatch_interaction(old(self)@, interaction),
    {
        if self.exiting {
            return false;
        }
        let quit = match interaction {
            Some(id) => id == self.quit_id,
            None => false,
        };
        if quit {
            self.exiting = true;
        }
        quit
    }
}

/// Quit precedence: whatever change or press events share the wake cycle,
/// a quit interaction begins termination, and from then on no further wake
/// cycle processes anything — no reconciliation is taken, no press opens a
/// target, no interaction changes the state again.
pub proof fn lemma_quit_precedence(
    st: SpecDispatcher,
    interaction: Option<u32>,
    change2: bool,
    press2: Option<PressEvent>,
    interaction2: Option<u32>,
)
    requires
        !st.exiting,
        interaction == Some(st.quit_id),
    ensures
        spec_dispatch_interaction(st, interaction).1,
        spec_dispatch_interaction(st, interaction).0.exiting,
        !spec_take_change(spec_dispatch_interaction(st, interaction).0, change2),
        spec_press_target(spec_dispatch_interaction(st, interaction).0, press2) is None,
        spec_dispatch_interaction(spec_dispatch_interaction(st, interaction).0, interaction2).0
            == spec_dispatch_interaction(st, interaction).0,
        !spec_dispatch_interaction(spec_dispatch_interaction(st, interaction).0, interaction2).1,
{
}

} // verus!
