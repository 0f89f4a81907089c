//! The hotkey registry: which key combinations are currently registered
//! with the OS, and how the active set is reconciled against a freshly
//! loaded configuration.
//!
//! The OS hotkey facility itself lives outside this crate. The caller
//! submits each planned combination to the OS and reports the outcomes
//! back: `Some(id)` with the OS-assigned identifier for an accepted
//! registration, `None` for a rejected one. Everything else — which
//! entries are attempted, in what order, and what the active set holds
//! afterwards — is decided and proved here.
use vstd::prelude::*;
use crate::combo::{Combo, combo_wf, parse_combo, spec_parse_combo};
use crate::config::Configuration;
use crate::config::SpecShortcut;

verus! {

/// A combination to register, with its target, after its string parsed.
pub struct PlannedHotkey {
    pub combo: Combo,
    pub target: Vec<u8>,
}

/// Mathematical image of a [`PlannedHotkey`].
pub struct SpecPlanned {
    pub combo: Combo,
    pub target: Seq<u8>,
}

impl View for PlannedHotkey {
    type V = SpecPlanned;

    open spec fn view(&self) -> SpecPlanned {
        SpecPlanned { combo: self.combo, target: self.target@ }
    }
}

/// One active registration: the OS-assigned identifier, the combination
/// it stands for, and the target to open when it is pressed.
pub struct RegisteredHotkey {
    pub id: u32,
    pub combo: Combo,
    pub target: Vec<u8>,
}

/// Mathematical image of a [`RegisteredHotkey`].
pub struct SpecRegistered {
    pub id: u32,
    pub combo: Combo,
    pub target: Seq<u8>,
}

impl View for RegisteredHotkey {
    type V = SpecRegistered;

    open spec fn view(&self) -> SpecRegistered {
        SpecRegistered { id: self.id, combo: self.combo, target: self.target@ }
    }
}

/// The set of currently active registrations, in registration order.
pub struct ActiveRegistry {
    pub entries: Vec<RegisteredHotkey>,
}

impl View for ActiveRegistry {
    type V = Seq<SpecRegistered>;

    open spec fn view(&self) -> Seq<SpecRegistered> {
        Seq::new(self.entries@.len(), |i: int| self.entries@[i]@)
    }
}

/// Well-formedness of an active set: no identifier occurs twice — every id
/// corresponds to exactly one registered combination — and every stored
/// combination is a real one.
pub open spec fn registry_wf(r: Seq<SpecRegistered>) -> bool {
    &&& forall|i: int, j: int| 0 <= i < j < r.len() ==> r[i].id != r[j].id
    &&& forall|i: int| 0 <= i < r.len() ==> combo_wf(#[trigger] r[i].combo)
}

/// The combinations a configuration asks to register: its entries in
/// order, each with its combination string parsed, the unparseable ones
/// skipped.
pub open spec fn spec_plan(cfg: Seq<SpecShortcut>) -> Seq<SpecPlanned>
    decreases cfg.len(),
{
    if cfg.len() == 0 {
        Seq::empty()
    } else {
        let rest = spec_plan(cfg.drop_first());
        match spec_parse_combo(cfg[0].combo) {
            Some(c) => seq![SpecPlanned { combo: c, target: cfg[0].target }] + rest,
            None => rest,
        }
    }
}

/// The active set that a plan and the OS's outcomes produce: each accepted
/// combination, keyed by the id the OS assigned it; rejected ones skipped.
pub open spec fn spec_apply_outcomes(plan: Seq<SpecPlanned>, outcomes: Seq<Option<u32>>) -> Seq<
    SpecRegistered,
>
    decreases plan.len(),
{
    if plan.len() == 0 {
        Seq::empty()
    } else {
        let rest = spec_apply_outcomes(plan.drop_first(), outcomes.drop_first());
        match outcomes[0] {
            Some(id) => seq![
                SpecRegistered { id, combo: plan[0].combo, target: plan[0].target },
            ] + rest,
            None => rest,
        }
    }
}

/// What registering a whole configuration yields, given the OS's outcomes
/// for its parseable entries in order.
pub open spec fn spec_register_all(cfg: Seq<SpecShortcut>, outcomes: Seq<Option<u32>>) -> Seq<
    SpecRegistered,
> {
    spec_apply_outcomes(spec_plan(cfg), outcomes)
}

/// What a reconciliation yields: the old active set is released in full
/// and the new configuration registered from scratch, so the result does
/// not depend on the old set at all.
pub open spec fn spec_reload(
    old_active: Seq<SpecRegistered>,
    cfg: Seq<SpecShortcut>,
    outcomes: Seq<Option<u32>>,
) -> Seq<SpecRegistered> {
    spec_register_all(cfg, outcomes)
}

/// The entry an id maps to, if any.
pub open spec fn spec_lookup(r: Seq<SpecRegistered>, id: u32) -> Option<SpecRegistered>
    decreases r.len(),
{
    if r.len() == 0 {
        None
    } else if r[0].id == id {
        Some(r[0])
    } else {
        spec_lookup(r.drop_first(), id)
    }
}

/// The set of targets an active set holds.
pub open spec fn spec_targets(r: Seq<SpecRegistered>) -> Set<Seq<u8>> {
    Set::new(|t: Seq<u8>| exists|i: int| 0 <= i < r.len() && r[i].target == t)
}

/// The combinations an active set holds, in order.
pub open spec fn spec_combos(r: Seq<SpecRegistered>) -> Seq<Combo> {
    Seq::new(r.len(), |i: int| r[i].combo)
}

/// Whether the accepted outcomes carry pairwise distinct identifiers, as
/// the OS owes: an id is unique per active registration.
pub open spec fn distinct_outcome_ids(outcomes: Seq<Option<u32>>) -> bool {
    forall|i: int, j: int|
        0 <= i < j < outcomes.len() && #[trigger] outcomes[i] is Some && #[trigger] outcomes[j] is Some
            ==> outcomes[i]->0 != outcomes[j]->0
}

/// An empty active set.
pub fn empty_registry() -> (r: ActiveRegistry)
    ensures
        r@ =~= Seq::<SpecRegistered>::empty(),
        registry_wf(r@),
{
    ActiveRegistry { entries: Vec::new() }
}

/// Parse every entry of the configuration in order, skipping — never
/// failing on — the ones whose combination string is outside the grammar.
pub fn plan_registrations(config: &Configuration) -> (r: Vec<PlannedHotkey>)
    ensures
        Seq::new(r@.len(), |i: int| r@[i]@) == spec_plan(config@),
        forall|i: int| 0 <= i < r@.len() ==> combo_wf(#[trigger] r@[i].combo),
{
    let ghost cfg = config@;
    let mut out: Vec<PlannedHotkey> = Vec::new();
    let n = config.hotkeys.len();
    proof {
        assert(cfg.skip(0) =~= cfg);
        assert(Seq::new(out@.len(), |i: int| out@[i]@) =~= Seq::<SpecPlanned>::empty());
    }
    let mut i: usize = 0;
    while i < n
        invariant
            n == config.hotkeys.len(),
            cfg == config@,
            i <= n,
            cfg.len() == n,
            spec_plan(cfg) == Seq::new(out@.len(), |k: int| out@[k]@) + spec_plan(
                cfg.skip(i as int),
            ),
            forall|k: int| 0 <= k < out@.len() ==> combo_wf(#[trigger] out@[k].combo),
        decreases n - i,
    {
        let entry = &config.hotkeys[i];
        proof {
            assert(cfg.skip(i as int)[0] == cfg[i as int]);
            assert(cfg.skip(i as int).drop_first() =~= cfg.skip(i as int + 1));
            assert(cfg[i as int] == entry@);
        }
        let ghost out_before = Seq::new(out@.len(), |k: int| out@[k]@);
        match parse_combo(entry.combo.as_slice()) {
            Some(c) => {
                let target: Vec<u8> = vstd::slice::slice_to_vec(entry.target.as_slice());
                out.push(PlannedHotkey { combo: c, target });
                proof {
                    assert(Seq::new(out@.len(), |k: int| out@[k]@) =~= out_before + seq![
                        SpecPlanned { combo: c, target: entry.target@ },
                    ]);
                    assert(out_before + seq![SpecPlanned { combo: c, target: entry.target@ }]
                        + spec_plan(cfg.skip(i as int + 1)) =~= out_before + (seq![
                        SpecPlanned { combo: c, target: entry.target@ },
                    ] + spec_plan(cfg.skip(i as int + 1))));
                }
            },
            None => {
            },
        }
        i = i + 1;
    }
    proof {
        assert(cfg.skip(n as int) =~= Seq::<SpecShortcut>::empty());
        assert(spec_plan(cfg) =~= Seq::new(out@.len(), |k: int| out@[k]@));
    }
    out
}

/// Register a whole configuration: parse each entry in order, skip the
/// unparseable and the rejected ones, and key each accepted combination by
/// the id the OS assigned it. One entry's failure never prevents the
/// later entries; the result may be empty.
///
/// `outcomes[i]` is the OS's answer for the `i`-th planned (parseable)
/// combination, as [`plan_registrations`] lists them.
pub fn register_all(config: &Configuration, outcomes: &Vec<Option<u32>>) -> (r: ActiveRegistry)
    requires
        outcomes@.len() == spec_plan(config@).len(),
        distinct_outcome_ids(outcomes@),
    ensures
        r@ == spec_register_all(config@, outcomes@),
        registry_wf(r@),
{
    let plan = plan_registrations(config);
    let ghost plan_v = Seq::new(plan@.len(), |i: int| plan@[i]@);
    let ghost o = outcomes@;
    let mut entries: Vec<RegisteredHotkey> = Vec::new();
    proof {
        assert(plan_v.skip(0) =~= plan_v);
        assert(o.skip(0) =~= o);
        assert(Seq::new(entries@.len(), |k: int| entries@[k]@) =~= Seq::<SpecRegistered>::empty());
    }
    let mut i: usize = 0;
    while i < plan.len()
        invariant
            plan_v == Seq::new(plan@.len(), |k: int| plan@[k]@),
            forall|k: int| 0 <= k < plan@.len() ==> combo_wf(#[trigger] plan@[k].combo),
            o == outcomes@,
            o.len() == plan_v.len(),
            distinct_outcome_ids(o),
            i <= plan@.len(),
            spec_apply_outcomes(plan_v, o) == Seq::new(entries@.len(), |k: int| entries@[k]@)
                + spec_apply_outcomes(plan_v.skip(i as int), o.skip(i as int)),
            forall|n: int|
                0 <= n < entries@.len() ==> exists|k: int|
                    0 <= k < i && o[k] == Some(#[trigger] entries@[n].id),
            forall|n: int| 0 <= n < entries@.len() ==> combo_wf(#[trigger] entries@[n].combo),
            forall|n: int, m: int|
                0 <= n < m < entries@.len() ==> entries@[n].id != entries@[m].id,
        decreases plan@.len() - i,
    {
        proof {
            assert(plan_v.skip(i as int)[0] == plan_v[i as int]);
            assert(plan_v.skip(i as int).drop_first() =~= plan_v.skip(i as int + 1));
            assert(o.skip(i as int)[0] == o[i as int]);
            assert(o.skip(i as int).drop_first() =~= o.skip(i as int + 1));
        }
        let ghost entries_before = Seq::new(entries@.len(), |k: int| entries@[k]@);
        let oc = outcomes[i];
        match oc {
            Some(id) => {
                let combo = plan[i].combo;
                let target: Vec<u8> = vstd::slice::slice_to_vec(plan[i].target.as_slice());
                proof {
                    assert forall|n: int| 0 <= n < entries@.len() implies entries@[n].id != id by {
                        let k = choose|k: int| 0 <= k < i && o[k] == Some(entries@[n].id);
                        assert(o[k] is Some && o[i as int] is Some);
                    }
                }
                entries.push(RegisteredHotkey { id, combo, target });
                proof {
                    assert(Seq::new(entries@.len(), |k: int| entries@[k]@) =~= entries_before
                        + seq![SpecRegistered { id, combo, target: plan_v[i as int].target }]);
                    assert(entries_before + seq![
                        SpecRegistered { id, combo, target: plan_v[i as int].target },
                    ] + spec_apply_outcomes(plan_v.skip(i as int + 1), o.skip(i as int + 1))
                        =~= entries_before + (seq![
                        SpecRegistered { id, combo, target: plan_v[i as int].target },
                    ] + spec_apply_outcomes(plan_v.skip(i as int + 1), o.skip(i as int + 1))));
                }
            },
            None => {
            },
        }
        i = i + 1;
    }
    proof {
        assert(plan_v.skip(plan@.len() as int) =~= Seq::<SpecPlanned>::empty());
        assert(spec_apply_outcomes(plan_v, o) =~= Seq::new(
            entries@.len(),
            |k: int| entries@[k]@,
        ));
    }
    let r = ActiveRegistry { entries };
    proof {
        assert(r@ =~= spec_register_all(config@, outcomes@));
    }
    r
}

/// Release the whole active set in one batch: the registry is cleared and
/// the combinations to hand back to the OS are returned, in order.
pub fn unregister_all(registry: &mut ActiveRegistry) -> (released: Vec<Combo>)
    ensures
        final(registry)@ =~= Seq::<SpecRegistered>::empty(),
        registry_wf(final(registry)@),
        released@ == spec_combos(old(registry)@),
{
    let mut released: Vec<Combo> = Vec::new();
    let n = registry.entries.len();
    let mut i: usize = 0;
    while i < n
        invariant
            n == registry.entries.len(),
            registry == old(registry),
            i <= n,
            released@.len() == i,
            forall|k: int| 0 <= k < i ==> released@[k] == old(registry)@[k].combo,
        decreases n - i,
    {
        released.push(registry.entries[i].combo);
        i = i + 1;
    }
    registry.entries.clear();
    proof {
        assert(released@ =~= spec_combos(old(registry)@));
    }
    released
}

/// Reconcile after a configuration change: release every currently held
/// combination, then register the new configuration from scratch. No
/// incremental diffing — no stale or duplicate binding survives. The
/// returned combinations are the ones to hand back to the OS.
pub fn reload(
    registry: &mut ActiveRegistry,
    new_config: &Configuration,
    outcomes: &Vec<Option<u32>>,
) -> (released: Vec<Combo>)
    requires
        outcomes@.len() == spec_plan(new_config@).len(),
        distinct_outcome_ids(outcomes@),
    ensures
        final(registry)@ == spec_reload(old(registry)@, new_config@, outcomes@),
        registry_wf(final(registry)@),
        released@ == spec_combos(old(registry)@),
{
    let released = unregister_all(registry);
    let fresh = register_all(new_config, outcomes);
    *registry = fresh;
    released
}

impl ActiveRegistry {
    /// The target bound to an id, or `None` for an id that is not (or no
    /// longer) registered.
    pub fn find_target(&self, id: u32) -> (r: Option<Vec<u8>>)
        ensures
            match spec_lookup(self@, id) {
                Some(e) => r matches Some(t) && t@ == e.target,
                None => r is None,
            },
    {
        let ghost whole = self@;
        proof {
            assert(whole.skip(0) =~= whole);
        }
        let n = self.entries.len();
        let mut i: usize = 0;
        while i < n
            invariant
                n == self.entries.len(),
                whole == self@,
                i <= n,
                spec_lookup(whole, id) == spec_lookup(whole.skip(i as int), id),
            decreases n - i,
        {
            proof {
                assert(whole.skip(i as int)[0] == whole[i as int]);
                assert(whole.skip(i as int).drop_first() =~= whole.skip(i as int + 1));
            }
            if self.entries[i].id == id {
                let t: Vec<u8> = vstd::slice::slice_to_vec(self.entries[i].target.as_slice());
                return Some(t);
            }
            i = i + 1;
        }
        proof {
            assert(whole.skip(n as int) =~= Seq::<SpecRegistered>::empty());
        }
        None
    }
}

/// Reload correctness: a reconciliation performed on top of any earlier
/// registration yields exactly what registering the new configuration
/// alone yields — the old active set leaves no residue — and its set of
/// targets is exactly the targets of the new configuration's successfully
/// registerable entries: the ones whose combination parses and whose
/// registration the OS accepted.
pub proof fn lemma_reload_correct(
    c1: Seq<SpecShortcut>,
    o1: Seq<Option<u32>>,
    c2: Seq<SpecShortcut>,
    o2: Seq<Option<u32>>,
)
    requires
        o2.len() == spec_plan(c2).len(),
    ensures
        spec_reload(spec_register_all(c1, o1), c2, o2) == spec_register_all(c2, o2),
        forall|t: Seq<u8>|
            spec_targets(spec_reload(spec_register_all(c1, o1), c2, o2)).contains(t) <==> exists|
                i: int,
            |
                0 <= i < spec_plan(c2).len() && #[trigger] o2[i] is Some && spec_plan(
                    c2,
                )[i].target == t,
{
    lemma_apply_outcomes_targets(spec_plan(c2), o2);
}

/// Which targets survive the outcome filter: exactly those planned at an
/// index whose registration the OS accepted.
proof fn lemma_apply_outcomes_targets(plan: Seq<SpecPlanned>, o: Seq<Option<u32>>)
    requires
        o.len() == plan.len(),
    ensures
        forall|t: Seq<u8>|
            spec_targets(spec_apply_outcomes(plan, o)).contains(t) <==> exists|i: int|
                0 <= i < plan.len() && #[trigger] o[i] is Some && plan[i].target == t,
    decreases plan.len(),
{
    if plan.len() == 0 {
    } else {
        lemma_apply_outcomes_targets(plan.drop_first(), o.drop_first());
        let rest = spec_apply_outcomes(plan.drop_first(), o.drop_first());
        assert forall|t: Seq<u8>|
            spec_targets(spec_apply_outcomes(plan, o)).contains(t) implies exists|i: int|
            0 <= i < plan.len() && #[trigger] o[i] is Some && plan[i].target == t by {
            let n = choose|n: int|
                0 <= n < spec_apply_outcomes(plan, o).len() && spec_apply_outcomes(plan, o)[n].target
                    == t;
            match o[0] {
                Some(id) => {
                    if n == 0 {
                        assert(o[0] is Some && plan[0].target == t);
                    } else {
                        assert(spec_targets(rest).contains(t));
                        let i = choose|i: int|
                            0 <= i < plan.drop_first().len() && #[trigger] o.drop_first()[i] is Some
                                && plan.drop_first()[i].target == t;
                        assert(o[i + 1] is Some && plan[i + 1].target == t);
                    }
                },
                None => {
                    assert(spec_targets(rest).contains(t));
                    let i = choose|i: int|
                        0 <= i < plan.drop_first().len() && #[trigger] o.drop_first()[i] is Some
                            && plan.drop_first()[i].target == t;
                    assert(o[i + 1] is Some && plan[i + 1].target == t);
                },
            }
        }
        assert forall|t: Seq<u8>|
            (exists|i: int| 0 <= i < plan.len() && #[trigger] o[i] is Some && plan[i].target == t)
            implies spec_targets(spec_apply_outcomes(plan, o)).contains(t) by {
            let i = choose|i: int|
                0 <= i < plan.len() && #[trigger] o[i] is Some && plan[i].target == t;
            if i == 0 {
                assert(spec_apply_outcomes(plan, o)[0].target == t);
            } else {
                assert(o.drop_first()[i - 1] is Some && plan.drop_first()[i - 1].target == t);
                assert(spec_targets(rest).contains(t));
                let n = choose|n: int| 0 <= n < rest.len() && rest[n].target == t;
                match o[0] {
                    Some(id) => {
                        assert(spec_apply_outcomes(plan, o)[n + 1].target == t);
                    },
                    None => {
                        assert(spec_apply_outcomes(plan, o)[n].target == t);
                    },
                }
            }
        }
    }
}

/// Skip-on-error: an entry whose combination string is outside the
/// grammar contributes nothing — registering a configuration with it
/// yields exactly what registering the configuration without it yields,
/// and the load never fails on its account.
pub proof fn lemma_skip_on_error(cfg: Seq<SpecShortcut>, outcomes: Seq<Option<u32>>, i: int)
    requires
        0 <= i < cfg.len(),
        spec_parse_combo(cfg[i].combo) is None,
    ensures
        spec_register_all(cfg, outcomes) == spec_register_all(cfg.remove(i), outcomes),
{
    lemma_plan_remove_unparseable(cfg, i);
}

/// Removing an unparseable entry leaves the plan unchanged.
proof fn lemma_plan_remove_unparseable(cfg: Seq<SpecShortcut>, i: int)
    requires
        0 <= i < cfg.len(),
        spec_parse_combo(cfg[i].combo) is None,
    ensures
        spec_plan(cfg.remove(i)) == spec_plan(cfg),
    decreases cfg.len(),
{
    if i == 0 {
        assert(cfg.remove(0) =~= cfg.drop_first());
    } else {
        lemma_plan_remove_unparseable(cfg.drop_first(), i - 1);
        assert(cfg.remove(i).drop_first() =~= cfg.drop_first().remove(i - 1));
        assert(cfg.remove(i)[0] == cfg[0]);
    }
}

} // verus!
