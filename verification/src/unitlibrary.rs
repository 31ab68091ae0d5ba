//! The unit library: the rescan engine that turns filesystem events into
//! loaded, selected and activated units. It owns the description stores, the
//! status table, the per-kind dirty sets, the event bus and the unit manager.

use vstd::prelude::*;

use crate::config::Config;
use crate::description::{description_spec, Description, DescriptionView};
use crate::interface::{
    desc_error_msg, entries_match, interface_desc_spec, section_name, unit_file_section,
    InterfaceDescription, InterfaceDescriptionView, UnitDescriptionErrorView,
};
use crate::protocol::ManagerControlMessage;
use crate::storage::{
    lemma_entries_ok_preserved, map_entries_ok, NameMap, NameSet,
};
use crate::strutil::{dec_spec, u64_dec_string};
use crate::unit::{UnitKind, UnitName, UnitNameView};
use crate::unitbroadcaster::{
    UnitBroadcaster, UnitCategoryEvent, UnitCategoryEventView, UnitEvent, UnitEventView,
    UnitStatus, UnitStatusEvent, UnitStatusEventView, UnitStatusView,
};
use crate::unitmanager::{ManagerAction, ManagerActionView, UnitManager};

verus! {

/// The status table holds a load or update mark for the name.
pub open spec fn is_lu(st: NameMap<UnitStatus>, n: UnitNameView) -> bool {
    st.get_spec(n) matches Some(s) && (s@ is LoadStarted || s@ is UpdateStarted)
}

/// The status table marks the name as removed or rejected: the rescan's
/// eviction sweep clears such units out.
pub open spec fn evictable(st: NameMap<UnitStatus>, n: UnitNameView) -> bool {
    st.get_spec(n) matches Some(s) && (s@ is UnloadStarted || s@ is LoadFailed)
}

/// No kind of the manager holds the name.
pub open spec fn not_loaded_any(m: UnitManager, n: UnitNameView) -> bool {
    &&& !m.jig_loaded(n)
    &&& !m.test_loaded(n)
    &&& !m.logger_loaded(n)
    &&& !m.trigger_loaded(n)
    &&& !m.scenario_loaded(n)
    &&& !m.interface_loaded(n)
}

/// The manager's per-name state is the same in both.
pub open spec fn mgr_same_at(a: UnitManager, b: UnitManager, n: UnitNameView) -> bool {
    &&& a.jig_loaded(n) == b.jig_loaded(n)
    &&& a.test_loaded(n) == b.test_loaded(n)
    &&& a.logger_loaded(n) == b.logger_loaded(n)
    &&& a.trigger_loaded(n) == b.trigger_loaded(n)
    &&& a.scenario_loaded(n) == b.scenario_loaded(n)
    &&& a.interface_loaded(n) == b.interface_loaded(n)
    &&& a.interface_child(n) == b.interface_child(n)
}

/// Marks dirty every unit of one store that supports the jig.
fn mark_supporters(store: &NameMap<Description>, dirty: &mut NameSet, jig: &UnitName)
    requires
        store.wf(),
        old(dirty).wf(),
    ensures
        final(dirty).wf(),
        forall|n: UnitNameView|
            #[trigger] final(dirty).has(n) <==> old(dirty).has(n) || (store.get_spec(n) matches Some(
                d,
            ) && d@.jigs.contains(jig@)),
        forall|n: UnitNameView|
            !old(dirty).has(n) && #[trigger] final(dirty).has(n) ==> store.contains_key(n),
{
    let mut i: usize = 0;
    while i < store.len()
        invariant
            store.wf(),
            dirty.wf(),
            i <= store.keys().len(),
            forall|n: UnitNameView|
                #[trigger] dirty.has(n) ==> old(dirty).has(n) || (store.get_spec(n) matches Some(d)
                    && d@.jigs.contains(jig@) && store.contains_key(n)),
            forall|n: UnitNameView| old(dirty).has(n) ==> #[trigger] dirty.has(n),
            forall|j: int|
                0 <= j < i ==> (store.get_spec(#[trigger] store.keys()[j]) matches Some(d)
                    && d@.jigs.contains(jig@) ==> dirty.has(store.keys()[j])),
        decreases store.keys().len() - i,
    {
        proof {
            store.lemma_at(i as int);
        }
        if store.val_at(i).supports_jig(jig) {
            let n = store.key_at(i).dup();
            dirty.insert(n);
        }
        i = i + 1;
    }
    proof {
        assert forall|n: UnitNameView| #[trigger] dirty.has(n) <==> old(dirty).has(n) || (
        store.get_spec(n) matches Some(d) && d@.jigs.contains(jig@)) by {
            if store.get_spec(n) matches Some(d) && d@.jigs.contains(jig@) {
                let j = choose|j: int| 0 <= j < store.keys().len() && store.keys()[j] == n;
                assert(store.keys()[j] == n);
            }
        }
    }
}

/// The same sweep for the interface store.
fn mark_interface_supporters(
    store: &NameMap<InterfaceDescription>,
    dirty: &mut NameSet,
    jig: &UnitName,
)
    requires
        store.wf(),
        old(dirty).wf(),
    ensures
        final(dirty).wf(),
        forall|n: UnitNameView|
            #[trigger] final(dirty).has(n) <==> old(dirty).has(n) || (store.get_spec(n) matches Some(
                d,
            ) && d@.jigs.contains(jig@)),
        forall|n: UnitNameView|
            !old(dirty).has(n) && #[trigger] final(dirty).has(n) ==> store.contains_key(n),
{
    let mut i: usize = 0;
    while i < store.len()
        invariant
            store.wf(),
            dirty.wf(),
            i <= store.keys().len(),
            forall|n: UnitNameView|
                #[trigger] dirty.has(n) ==> old(dirty).has(n) || (store.get_spec(n) matches Some(d)
                    && d@.jigs.contains(jig@) && store.contains_key(n)),
            forall|n: UnitNameView| old(dirty).has(n) ==> #[trigger] dirty.has(n),
            forall|j: int|
                0 <= j < i ==> (store.get_spec(#[trigger] store.keys()[j]) matches Some(d)
                    && d@.jigs.contains(jig@) ==> dirty.has(store.keys()[j])),
        decreases store.keys().len() - i,
    {
        proof {
            store.lemma_at(i as int);
        }
        if store.val_at(i).supports_jig(jig) {
            let n = store.key_at(i).dup();
            dirty.insert(n);
        }
        i = i + 1;
    }
    proof {
        assert forall|n: UnitNameView| #[trigger] dirty.has(n) <==> old(dirty).has(n) || (
        store.get_spec(n) matches Some(d) && d@.jigs.contains(jig@)) by {
            if store.get_spec(n) matches Some(d) && d@.jigs.contains(jig@) {
                let j = choose|j: int| 0 <= j < store.keys().len() && store.keys()[j] == n;
                assert(store.keys()[j] == n);
            }
        }
    }
}

/// Removes from one kind's store, status table, manager and dirty set every
/// dirty unit whose status says it was removed or rejected.
fn evict_units<V>(
    store: &mut NameMap<V>,
    dirty: &mut NameSet,
    statuses: &mut NameMap<UnitStatus>,
    manager: &mut UnitManager,
)
    requires
        old(store).wf(),
        old(dirty).wf(),
        old(statuses).wf(),
        old(manager).wf(),
    ensures
        final(store).wf(),
        final(dirty).wf(),
        final(statuses).wf(),
        final(manager).wf(),
        forall|n: UnitNameView|
            #[trigger] final(dirty).has(n) <==> old(dirty).has(n) && !evictable(*old(statuses), n),
        forall|n: UnitNameView|
            old(dirty).has(n) && evictable(*old(statuses), n) ==> #[trigger] final(statuses).get_spec(n) is None && !final(statuses).contains_key(n),
        forall|n: UnitNameView|
            old(dirty).has(n) && evictable(*old(statuses), n) ==> !(#[trigger] final(store).contains_key(n)),
        forall|n: UnitNameView|
            old(dirty).has(n) && evictable(*old(statuses), n) ==> not_loaded_any(*final(manager), n) && !(#[trigger] final(manager).is_selected(n)),
        forall|n: UnitNameView|
            !(old(dirty).has(n) && evictable(*old(statuses), n)) ==> #[trigger] final(store).get_spec(n) == old(store).get_spec(n),
        forall|n: UnitNameView|
            !(old(dirty).has(n) && evictable(*old(statuses), n)) ==> #[trigger] final(store).contains_key(n) == old(store).contains_key(n),
        forall|n: UnitNameView|
            !(old(dirty).has(n) && evictable(*old(statuses), n)) ==> #[trigger] final(statuses).get_spec(n) == old(statuses).get_spec(n) && final(statuses).contains_key(n) == old(statuses).contains_key(n),
        forall|n: UnitNameView|
            !(old(dirty).has(n) && evictable(*old(statuses), n)) ==> mgr_same_at(
                *final(manager),
                *old(manager),
                n,
            ) && #[trigger] final(manager).is_selected(n) == old(manager).is_selected(n),
        forall|n: UnitNameView|
            !(old(dirty).has(n) && evictable(*old(statuses), n)) ==> #[trigger] final(manager).jig_loaded(n) == old(manager).jig_loaded(n) && final(manager).test_loaded(n) == old(manager).test_loaded(n) && final(manager).logger_loaded(n) == old(manager).logger_loaded(n) && final(manager).trigger_loaded(n) == old(manager).trigger_loaded(n) && final(manager).scenario_loaded(n) == old(manager).scenario_loaded(n) && final(manager).interface_loaded(n) == old(manager).interface_loaded(n) && final(manager).interface_child(n) == old(manager).interface_child(n),
        old(manager).action_log().is_prefix_of(final(manager).action_log()),
        final(manager).control_log() == old(manager).control_log(),
        final(manager).active_jig_view() == old(manager).active_jig_view(),
        final(manager).default_jig_view() == old(manager).default_jig_view(),
        final(manager).default_scenario_view() == old(manager).default_scenario_view(),
        old(dirty).names().len() == 0 ==> *final(store) == *old(store) && *final(dirty) == *old(dirty) && *final(statuses) == *old(statuses) && *final(manager) == *old(manager),
{
    let mut to_remove: Vec<UnitName> = Vec::new();
    let mut i: usize = 0;
    while i < dirty.len()
        invariant
            store.wf(),
            dirty.wf(),
            statuses.wf(),
            manager.wf(),
            i <= dirty.names().len(),
            *store == *old(store),
            *dirty == *old(dirty),
            *statuses == *old(statuses),
            *manager == *old(manager),
            forall|k: int|
                0 <= k < to_remove@.len() ==> old(dirty).has(#[trigger] to_remove@[k]@) && evictable(
                    *old(statuses),
                    to_remove@[k]@,
                ),
            forall|j: int|
                0 <= j < i && evictable(*old(statuses), #[trigger] dirty.names()[j])
                    ==> exists|k: int| 0 <= k < to_remove@.len() && to_remove@[k]@
                    == dirty.names()[j],
        decreases dirty.names().len() - i,
    {
        let n = dirty.name_at(i);
        let mut evict = false;
        match statuses.get(n) {
            Some(UnitStatus::UnloadStarted(_)) => {
                evict = true;
            },
            Some(UnitStatus::LoadFailed(_)) => {
                evict = true;
            },
            Some(UnitStatus::LoadStarted(_)) => {},
            Some(UnitStatus::UpdateStarted(_)) => {},
            None => {},
        }
        proof {
            if !evict {
                assert(!evictable(*old(statuses), dirty.names()[i as int]));
            }
        }
        if evict {
            let nd = n.dup();
            let ghost prev_tr = to_remove@;
            to_remove.push(nd);
            proof {
                assert(to_remove@[prev_tr.len() as int]@ == dirty.names()[i as int]);
                assert forall|j: int|
                    0 <= j < i + 1 && evictable(
                        *old(statuses),
                        #[trigger] dirty.names()[j],
                    ) implies exists|k: int|
                    0 <= k < to_remove@.len() && to_remove@[k]@ == dirty.names()[j] by {
                    if j < i {
                        let k = choose|k: int|
                            0 <= k < prev_tr.len() && prev_tr[k]@ == dirty.names()[j];
                        assert(to_remove@[k]@ == dirty.names()[j]);
                    } else {
                        assert(to_remove@[prev_tr.len() as int]@ == dirty.names()[j]);
                    }
                }
            }
        }
        i = i + 1;
    }
    proof {
        if old(dirty).names().len() == 0 && to_remove@.len() > 0 {
            assert(old(dirty).has(to_remove@[0]@));
        }
    }
    let ghost entry_dirty = *dirty;
    let ghost entry_st = *statuses;
    let ghost entry_store = *store;
    let ghost entry_mgr = *manager;
    let mut k: usize = 0;
    while k < to_remove.len()
        invariant
            store.wf(),
            dirty.wf(),
            statuses.wf(),
            manager.wf(),
            k <= to_remove@.len(),
            entry_dirty == *old(dirty),
            entry_st == *old(statuses),
            forall|j: int|
                0 <= j < to_remove@.len() ==> old(dirty).has(#[trigger] to_remove@[j]@)
                    && evictable(*old(statuses), to_remove@[j]@),
            forall|n: UnitNameView|
                old(dirty).has(n) && evictable(*old(statuses), n) ==> exists|j: int|
                    0 <= j < to_remove@.len() && to_remove@[j]@ == n,
            forall|n: UnitNameView|
                (exists|j: int| 0 <= j < k && #[trigger] to_remove@[j]@ == n) ==> !store.contains_key(
                    n,
                ) && statuses.get_spec(n) is None && !statuses.contains_key(n) && not_loaded_any(
                    *manager,
                    n,
                ) && !manager.is_selected(n) && !dirty.has(n),
            forall|n: UnitNameView|
                !(exists|j: int| 0 <= j < k && #[trigger] to_remove@[j]@ == n) ==> store.get_spec(n)
                    == old(store).get_spec(n) && store.contains_key(n) == old(store).contains_key(n)
                    && statuses.get_spec(n) == old(statuses).get_spec(n) && statuses.contains_key(n)
                    == old(statuses).contains_key(n) && mgr_same_at(*manager, *old(manager), n)
                    && manager.is_selected(n) == old(manager).is_selected(n) && dirty.has(n) == old(dirty).has(n),
            old(manager).action_log().is_prefix_of(manager.action_log()),
            manager.control_log() == old(manager).control_log(),
            manager.active_jig_view() == old(manager).active_jig_view(),
            manager.default_jig_view() == old(manager).default_jig_view(),
            manager.default_scenario_view() == old(manager).default_scenario_view(),
            to_remove@.len() == 0 ==> *store == *old(store) && *dirty == *old(dirty) && *statuses
                == *old(statuses) && *manager == *old(manager),
        decreases to_remove@.len() - k,
    {
        let n = &to_remove[k];
        store.remove(n);
        manager.unload(n);
        statuses.remove(n);
        dirty.remove(n);
        k = k + 1;
        proof {
            assert(manager.action_log().len() >= old(manager).action_log().len());
        }
    }
    proof {
        assert forall|n: UnitNameView| #[trigger] dirty.has(n) <==> old(dirty).has(n) && !evictable(
            *old(statuses),
            n,
        ) by {
            if old(dirty).has(n) && evictable(*old(statuses), n) {
                assert(exists|j: int| 0 <= j < to_remove@.len() && to_remove@[j]@ == n);
            }
        }
    }
}

/// The queued work includes a spawn of this unit.
pub open spec fn has_spawn(log: Seq<ManagerActionView>, n: UnitNameView) -> bool {
    exists|i: int|
        0 <= i < log.len() && ((#[trigger] log[i]) matches ManagerActionView::Spawn(r) && r.id
            == n)
}

/// A queued spawn stays queued while the log only grows.
proof fn lemma_has_spawn_extends(l1: Seq<ManagerActionView>, l2: Seq<ManagerActionView>, n: UnitNameView)
    requires
        l1.len() <= l2.len(),
        forall|ix: int| 0 <= ix < l1.len() ==> l2[ix] == l1[ix],
        has_spawn(l1, n),
    ensures
        has_spawn(l2, n),
{
    let ix = choose|ix: int|
        0 <= ix < l1.len() && ((#[trigger] l1[ix]) matches ManagerActionView::Spawn(r) && r.id
            == n);
    assert(l2[ix] == l1[ix]);
}

/// One phase of the select and activate sweep: every unit still dirty after
/// its load is selected and then activated, and the set is cleared.
fn select_and_activate(dirty: &mut NameSet, manager: &mut UnitManager)
    requires
        old(dirty).wf(),
        old(manager).wf(),
    ensures
        final(dirty).wf(),
        final(manager).wf(),
        final(dirty).names().len() == 0,
        forall|n: UnitNameView| !final(dirty).has(n),
        forall|n: UnitNameView| old(dirty).has(n) ==> #[trigger] final(manager).is_selected(n),
        forall|n: UnitNameView|
            !old(dirty).has(n) ==> #[trigger] final(manager).is_selected(n) == old(manager).is_selected(n),
        forall|n: UnitNameView| old(manager).is_selected(n) ==> #[trigger] final(manager).is_selected(n),
        forall|n: UnitNameView|
            (old(dirty).has(n) && n.kind == UnitKind::Interface && old(manager).interface_loaded(
                n,
            )) ==> has_spawn(final(manager).action_log(), n),
        final(manager).same_loaded(*old(manager)),
        final(manager).control_log() == old(manager).control_log(),
        final(manager).scenario_names() == old(manager).scenario_names(),
        final(manager).default_jig_view() == old(manager).default_jig_view(),
        final(manager).default_scenario_view() == old(manager).default_scenario_view(),
        old(manager).action_log().is_prefix_of(final(manager).action_log()),
        old(dirty).names().len() == 0 ==> *final(manager) == *old(manager),
{
    let mut i: usize = 0;
    while i < dirty.len()
        invariant
            dirty.wf(),
            manager.wf(),
            i <= dirty.names().len(),
            *dirty == *old(dirty),
            forall|j: int| 0 <= j < i ==> manager.is_selected(#[trigger] dirty.names()[j]),
            forall|n: UnitNameView| old(manager).is_selected(n) ==> manager.is_selected(n),
            forall|n: UnitNameView|
                !old(dirty).has(n) ==> #[trigger] manager.is_selected(n) == old(manager).is_selected(n),
            forall|j: int|
                (0 <= j < i && (#[trigger] dirty.names()[j]).kind == UnitKind::Interface
                    && old(manager).interface_loaded(dirty.names()[j])) ==> has_spawn(
                    manager.action_log(),
                    dirty.names()[j],
                ),
            manager.same_loaded(*old(manager)),
            manager.control_log() == old(manager).control_log(),
            manager.scenario_names() == old(manager).scenario_names(),
            manager.default_jig_view() == old(manager).default_jig_view(),
            manager.default_scenario_view() == old(manager).default_scenario_view(),
            old(manager).action_log().is_prefix_of(manager.action_log()),
            i == 0 ==> *manager == *old(manager),
        decreases dirty.names().len() - i,
    {
        let n = dirty.name_at(i).dup();
        let ghost prev_log = manager.action_log();
        manager.select(&n);
        manager.activate(&n);
        proof {
            assert(prev_log.len() <= manager.action_log().len());
            assert(forall|ix: int|
                0 <= ix < prev_log.len() ==> #[trigger] manager.action_log()[ix] == prev_log[ix]);
            assert forall|j: int|
                (0 <= j < i + 1 && (#[trigger] dirty.names()[j]).kind == UnitKind::Interface
                    && old(manager).interface_loaded(dirty.names()[j])) implies has_spawn(
                manager.action_log(),
                dirty.names()[j],
            ) by {
                if j < i {
                    lemma_has_spawn_extends(prev_log, manager.action_log(), dirty.names()[j]);
                } else {
                    assert(manager.interface_loaded(n@) == old(manager).interface_loaded(n@));
                    let lastix = manager.action_log().len() - 1;
                    assert(manager.action_log()[lastix] matches ManagerActionView::Spawn(r) && r.id
                        == n@);
                }
            }
        }
        i = i + 1;
    }
    proof {
        assert forall|n: UnitNameView| old(dirty).has(n) implies #[trigger] manager.is_selected(
            n,
        ) by {
            let j = choose|j: int| 0 <= j < old(dirty).names().len() && old(dirty).names()[j] == n;
            assert(manager.is_selected(dirty.names()[j]));
        }
        assert forall|n: UnitNameView|
            (old(dirty).has(n) && n.kind == UnitKind::Interface && old(manager).interface_loaded(
                n,
            )) implies has_spawn(manager.action_log(), n) by {
            let j = choose|j: int| 0 <= j < old(dirty).names().len() && old(dirty).names()[j] == n;
            assert(dirty.names()[j].kind == UnitKind::Interface && old(manager).interface_loaded(dirty.names()[j]));
            assert(has_spawn(manager.action_log(), dirty.names()[j]));
        }
    }
    dirty.clear();
}

/// The per-kind property a description store keeps: every entry sits under
/// its own id, and the id has the store's kind.
pub open spec fn desc_entry_ok(kind: UnitKind) -> spec_fn(UnitNameView, Description) -> bool {
    |k: UnitNameView, v: Description| k.kind == kind && v@.id == k
}

/// The same property for the interface store.
pub open spec fn iface_entry_ok() -> spec_fn(UnitNameView, InterfaceDescription) -> bool {
    |k: UnitNameView, v: InterfaceDescription| k.kind == UnitKind::Interface && v@.id == k
}

/// Loads every remaining dirty jig: the unit is unloaded and reloaded from
/// its current description. A dirty jig whose status or description has
/// vanished, or whose status is not a load or update mark, is dropped from
/// the set.
fn load_jigs(
    store: &NameMap<Description>,
    dirty: &mut NameSet,
    statuses: &NameMap<UnitStatus>,
    manager: &mut UnitManager,
)
    requires
        store.wf(),
        old(dirty).wf(),
        statuses.wf(),
        old(manager).wf(),
        map_entries_ok(*store, desc_entry_ok(UnitKind::Jig)),
        forall|n: UnitNameView| old(dirty).has(n) ==> n.kind == UnitKind::Jig,
    ensures
        final(dirty).wf(),
        final(manager).wf(),
        forall|n: UnitNameView|
            old(dirty).has(n) && is_lu(*statuses, n) && store.contains_key(n) ==> #[trigger] final(manager).jig_loaded(n),
        forall|n: UnitNameView|
            #[trigger] final(dirty).has(n) <==> old(dirty).has(n) && is_lu(*statuses, n)
                && store.contains_key(n),
        forall|n: UnitNameView|
            !(old(dirty).has(n) && is_lu(*statuses, n) && store.contains_key(n)) ==> #[trigger] final(manager).jig_loaded(n) == old(manager).jig_loaded(n) && final(manager).is_selected(n) == old(manager).is_selected(n),
        forall|n: UnitNameView| #[trigger] final(manager).test_loaded(n) == old(manager).test_loaded(n),
        forall|n: UnitNameView|
            #[trigger] final(manager).logger_loaded(n) == old(manager).logger_loaded(n),
        forall|n: UnitNameView|
            #[trigger] final(manager).trigger_loaded(n) == old(manager).trigger_loaded(n),
        forall|n: UnitNameView|
            #[trigger] final(manager).scenario_loaded(n) == old(manager).scenario_loaded(n),
        forall|n: UnitNameView|
            #[trigger] final(manager).interface_loaded(n) == old(manager).interface_loaded(n),
        forall|n: UnitNameView|
            #[trigger] final(manager).interface_child(n) == old(manager).interface_child(n),
        final(manager).action_log() == old(manager).action_log(),
        final(manager).control_log() == old(manager).control_log(),
        final(manager).scenario_names() == old(manager).scenario_names(),
        final(manager).active_jig_view() == old(manager).active_jig_view(),
        final(manager).default_jig_view() == old(manager).default_jig_view(),
        final(manager).default_scenario_view() == old(manager).default_scenario_view(),
        old(dirty).names().len() == 0 ==> *final(manager) == *old(manager) && *final(dirty) == *old(dirty),
{
    let ghost keep = |n: UnitNameView| is_lu(*statuses, n) && store.contains_key(n);
    let mut to_remove: Vec<UnitName> = Vec::new();
    let mut i: usize = 0;
    while i < dirty.len()
        invariant
            store.wf(),
            dirty.wf(),
            statuses.wf(),
            manager.wf(),
            map_entries_ok(*store, desc_entry_ok(UnitKind::Jig)),
            forall|n: UnitNameView| dirty.has(n) ==> n.kind == UnitKind::Jig,
            keep == (|n: UnitNameView| is_lu(*statuses, n) && store.contains_key(n)),
            i <= dirty.names().len(),
            *dirty == *old(dirty),
            forall|j: int|
                0 <= j < i && keep(#[trigger] dirty.names()[j]) ==> manager.jig_loaded(
                    dirty.names()[j],
                ),
            forall|k: int|
                0 <= k < to_remove@.len() ==> old(dirty).has(#[trigger] to_remove@[k]@) && !keep(
                    to_remove@[k]@,
                ),
            forall|j: int|
                0 <= j < i && !keep(#[trigger] dirty.names()[j]) ==> exists|k: int|
                    0 <= k < to_remove@.len() && to_remove@[k]@ == dirty.names()[j],
            forall|n: UnitNameView|
                !(old(dirty).has(n) && is_lu(*statuses, n) && store.contains_key(n))
                    ==> #[trigger] manager.jig_loaded(n) == old(manager).jig_loaded(n)
                    && manager.is_selected(n) == old(manager).is_selected(n),
            forall|n: UnitNameView|
                #[trigger] manager.test_loaded(n) == old(manager).test_loaded(n),
            forall|n: UnitNameView|
                #[trigger] manager.logger_loaded(n) == old(manager).logger_loaded(n),
            forall|n: UnitNameView|
                #[trigger] manager.trigger_loaded(n) == old(manager).trigger_loaded(n),
            forall|n: UnitNameView|
                #[trigger] manager.scenario_loaded(n) == old(manager).scenario_loaded(n),
            forall|n: UnitNameView|
                #[trigger] manager.interface_loaded(n) == old(manager).interface_loaded(n),
            forall|n: UnitNameView|
                #[trigger] manager.interface_child(n) == old(manager).interface_child(n),
            manager.action_log() == old(manager).action_log(),
            manager.control_log() == old(manager).control_log(),
            manager.scenario_names() == old(manager).scenario_names(),
            manager.active_jig_view() == old(manager).active_jig_view(),
            manager.default_jig_view() == old(manager).default_jig_view(),
            manager.default_scenario_view() == old(manager).default_scenario_view(),
            i == 0 ==> *manager == *old(manager),
        decreases dirty.names().len() - i,
    {
        let n = dirty.name_at(i).dup();
        let mut drop_it = false;
        match statuses.get(&n) {
            Some(UnitStatus::LoadStarted(_)) => {},
            Some(UnitStatus::UpdateStarted(_)) => {},
            _ => {
                drop_it = true;
            },
        }
        if !drop_it {
            match store.get(&n) {
                None => {
                    drop_it = true;
                },
                Some(desc) => {
                    proof {
                        crate::storage::lemma_entries_ok_at(
                            *store,
                            desc_entry_ok(UnitKind::Jig),
                            n@,
                        );
                        manager.lemma_loaded_kinds();
                        assert(!manager.test_loaded(n@));
                        assert(!manager.logger_loaded(n@));
                        assert(!manager.trigger_loaded(n@));
                        assert(!manager.scenario_loaded(n@));
                        assert(!manager.interface_loaded(n@));
                        assert(manager.interface_child(n@) is None);
                    }
                    manager.unload(&n);
                    let _loaded = manager.load_jig(desc);
                },
            }
        }
        if drop_it {
            proof {
                assert(!keep(dirty.names()[i as int]));
            }
            let ghost prev_tr = to_remove@;
            to_remove.push(n);
            proof {
                assert(to_remove@[prev_tr.len() as int]@ == dirty.names()[i as int]);
                assert forall|j: int|
                    0 <= j < i + 1 && !keep(#[trigger] dirty.names()[j]) implies exists|k: int|
                    0 <= k < to_remove@.len() && to_remove@[k]@ == dirty.names()[j] by {
                    if j < i {
                        let k = choose|k: int|
                            0 <= k < prev_tr.len() && prev_tr[k]@ == dirty.names()[j];
                        assert(to_remove@[k]@ == dirty.names()[j]);
                    } else {
                        assert(to_remove@[prev_tr.len() as int]@ == dirty.names()[j]);
                    }
                }
            }
        }
        i = i + 1;
    }
    proof {
        if old(dirty).names().len() == 0 && to_remove@.len() > 0 {
            assert(old(dirty).has(to_remove@[0]@));
        }
        assert(forall|j: int|
            0 <= j < old(dirty).names().len() && keep(#[trigger] old(dirty).names()[j])
                ==> manager.jig_loaded(old(dirty).names()[j]));
    }
    let mut k: usize = 0;
    while k < to_remove.len()
        invariant
            dirty.wf(),
            k <= to_remove@.len(),
            forall|j: int|
                0 <= j < old(dirty).names().len() && keep(#[trigger] old(dirty).names()[j])
                    ==> manager.jig_loaded(old(dirty).names()[j]),
            forall|j: int|
                0 <= j < to_remove@.len() ==> old(dirty).has(#[trigger] to_remove@[j]@) && !keep(
                    to_remove@[j]@,
                ),
            forall|n: UnitNameView|
                old(dirty).has(n) && !keep(n) ==> exists|j: int|
                    0 <= j < to_remove@.len() && to_remove@[j]@ == n,
            forall|n: UnitNameView|
                #[trigger] dirty.has(n) <==> old(dirty).has(n) && !(exists|j: int|
                    0 <= j < k && to_remove@[j]@ == n),
            to_remove@.len() == 0 ==> *dirty == *old(dirty),
        decreases to_remove@.len() - k,
    {
        let n = &to_remove[k];
        dirty.remove(n);
        k = k + 1;
        proof {
            assert forall|n2: UnitNameView| #[trigger] dirty.has(n2) <==> old(dirty).has(n2) && !(
            exists|j: int| 0 <= j < k && to_remove@[j]@ == n2) by {
                if exists|j: int| 0 <= j < k && to_remove@[j]@ == n2 {
                    let j = choose|j: int| 0 <= j < k && to_remove@[j]@ == n2;
                }
            }
        }
    }
    proof {
        assert forall|n: UnitNameView| #[trigger] dirty.has(n) <==> old(dirty).has(n) && is_lu(
            *statuses,
            n,
        ) && store.contains_key(n) by {
            if old(dirty).has(n) && !keep(n) {
                assert(exists|j: int| 0 <= j < to_remove@.len() && to_remove@[j]@ == n);
            }
            if dirty.has(n) {
                if exists|j: int| 0 <= j < to_remove@.len() && to_remove@[j]@ == n {
                    assert(false);
                }
            }
        }
        assert forall|n: UnitNameView|
            old(dirty).has(n) && is_lu(*statuses, n) && store.contains_key(n) implies #[trigger]
        final(manager).jig_loaded(n) by {
            let j = choose|j: int|
                0 <= j < old(dirty).names().len() && old(dirty).names()[j] == n;
            assert(keep(old(dirty).names()[j]) ==> manager.jig_loaded(old(dirty).names()[j]));
        }
    }
}

/// Loads every remaining dirty unit of one compatibility-checked kind
/// (tests, loggers, triggers and scenarios). A unit none of whose listed
/// jigs is loaded is rejected: its status becomes `LoadFailed` and it leaves
/// the dirty set. Vanished or stale entries are dropped.
fn load_compat_kind(
    kind: UnitKind,
    store: &NameMap<Description>,
    dirty: &mut NameSet,
    statuses: &mut NameMap<UnitStatus>,
    manager: &mut UnitManager,
)
    requires
        store.wf(),
        old(dirty).wf(),
        old(statuses).wf(),
        old(manager).wf(),
        kind == UnitKind::Test || kind == UnitKind::Logger || kind == UnitKind::Trigger || kind
            == UnitKind::Scenario,
        map_entries_ok(*store, desc_entry_ok(kind)),
        forall|n: UnitNameView| old(dirty).has(n) ==> n.kind == kind,
    ensures
        final(dirty).wf(),
        final(statuses).wf(),
        final(manager).wf(),
        forall|n: UnitNameView|
            (old(dirty).has(n) && is_lu(*old(statuses), n) && (#[trigger] store.get_spec(n)) is Some)
                ==> {
                let d = store.get_spec(n)->Some_0;
                if crate::unitmanager::jigs_compatible(d@.jigs, *old(manager)) {
                    (match kind {
                        UnitKind::Test => final(manager).test_loaded(n),
                        UnitKind::Logger => final(manager).logger_loaded(n),
                        UnitKind::Trigger => final(manager).trigger_loaded(n),
                        UnitKind::Scenario => final(manager).scenario_loaded(n),
                        _ => true,
                    })
                } else {
                    (final(statuses).get_spec(n) matches Some(s) && s@
                        == crate::unitbroadcaster::UnitStatusView::LoadFailed("incompatible jig"@))
                        && !final(manager).is_selected(n)
                }
            },
        forall|n: UnitNameView|
            #[trigger] final(dirty).has(n) <==> old(dirty).has(n) && is_lu(*old(statuses), n) && (
            store.get_spec(n) matches Some(d) && crate::unitmanager::jigs_compatible(
                d@.jigs,
                *old(manager),
            )),
        forall|n: UnitNameView|
            !(old(dirty).has(n) && is_lu(*old(statuses), n) && store.contains_key(n) && (
            store.get_spec(n) matches Some(d) && !crate::unitmanager::jigs_compatible(
                d@.jigs,
                *old(manager),
            ))) ==> #[trigger] final(statuses).get_spec(n) == old(statuses).get_spec(n) && final(statuses).contains_key(n) == old(statuses).contains_key(n),
        forall|n: UnitNameView|
            ((#[trigger] final(statuses).get_spec(n)) matches Some(s) && s@ is UnloadStarted) ==> old(statuses).get_spec(n) == final(statuses).get_spec(n),
        forall|n: UnitNameView| #[trigger] final(manager).jig_loaded(n) == old(manager).jig_loaded(n),
        forall|n: UnitNameView|
            !(old(dirty).has(n) && is_lu(*old(statuses), n) && store.contains_key(n)) ==> #[trigger] final(manager).is_selected(n) == old(manager).is_selected(n),
        forall|n: UnitNameView|
            (kind != UnitKind::Test || !(old(dirty).has(n) && is_lu(*old(statuses), n) && store.contains_key(n))) ==> #[trigger] final(manager).test_loaded(n) == old(manager).test_loaded(n),
        forall|n: UnitNameView|
            (kind != UnitKind::Logger || !(old(dirty).has(n) && is_lu(*old(statuses), n) && store.contains_key(n))) ==> #[trigger] final(manager).logger_loaded(n) == old(manager).logger_loaded(n),
        forall|n: UnitNameView|
            (kind != UnitKind::Trigger || !(old(dirty).has(n) && is_lu(*old(statuses), n) && store.contains_key(n))) ==> #[trigger] final(manager).trigger_loaded(n) == old(manager).trigger_loaded(n),
        forall|n: UnitNameView|
            (kind != UnitKind::Scenario || !(old(dirty).has(n) && is_lu(*old(statuses), n) && store.contains_key(n))) ==> #[trigger] final(manager).scenario_loaded(n) == old(manager).scenario_loaded(n),
        forall|n: UnitNameView|
            #[trigger] final(manager).interface_loaded(n) == old(manager).interface_loaded(n),
        forall|n: UnitNameView|
            #[trigger] final(manager).interface_child(n) == old(manager).interface_child(n),
        final(manager).action_log() == old(manager).action_log(),
        final(manager).control_log() == old(manager).control_log(),
        final(manager).jig_names() == old(manager).jig_names(),
        kind != UnitKind::Scenario ==> final(manager).scenario_names() == old(manager).scenario_names(),
        final(manager).active_jig_view() == old(manager).active_jig_view(),
        final(manager).default_jig_view() == old(manager).default_jig_view(),
        final(manager).default_scenario_view() == old(manager).default_scenario_view(),
        old(dirty).names().len() == 0 ==> *final(manager) == *old(manager) && *final(dirty) == *old(dirty) && *final(statuses) == *old(statuses),
{
    let ghost keep = |n: UnitNameView|
        is_lu(*old(statuses), n) && (store.get_spec(n) matches Some(d)
            && crate::unitmanager::jigs_compatible(d@.jigs, *old(manager)));
    let ghost failing = |n: UnitNameView|
        old(dirty).has(n) && is_lu(*old(statuses), n) && (store.get_spec(n) matches Some(d)
            && !crate::unitmanager::jigs_compatible(d@.jigs, *old(manager)));
    let mut to_remove: Vec<UnitName> = Vec::new();
    let mut i: usize = 0;
    while i < dirty.len()
        invariant
            store.wf(),
            dirty.wf(),
            statuses.wf(),
            manager.wf(),
            kind == UnitKind::Test || kind == UnitKind::Logger || kind == UnitKind::Trigger || kind
                == UnitKind::Scenario,
            map_entries_ok(*store, desc_entry_ok(kind)),
            forall|n: UnitNameView| old(dirty).has(n) ==> n.kind == kind,
            keep == (|n: UnitNameView|
                is_lu(*old(statuses), n) && (store.get_spec(n) matches Some(d)
                    && crate::unitmanager::jigs_compatible(d@.jigs, *old(manager)))),
            failing == (|n: UnitNameView|
                old(dirty).has(n) && is_lu(*old(statuses), n) && (store.get_spec(n) matches Some(d)
                    && !crate::unitmanager::jigs_compatible(d@.jigs, *old(manager)))),
            i <= old(dirty).names().len(),
            *dirty == *old(dirty),
            forall|j: int|
                0 <= j < i && keep(#[trigger] old(dirty).names()[j]) ==> (match kind {
                    UnitKind::Test => manager.test_loaded(old(dirty).names()[j]),
                    UnitKind::Logger => manager.logger_loaded(old(dirty).names()[j]),
                    UnitKind::Trigger => manager.trigger_loaded(old(dirty).names()[j]),
                    UnitKind::Scenario => manager.scenario_loaded(old(dirty).names()[j]),
                    _ => true,
                }),
            forall|j: int|
                (0 <= j < i && failing(#[trigger] old(dirty).names()[j])) ==> (statuses.get_spec(
                    old(dirty).names()[j],
                ) matches Some(s) && s@ == crate::unitbroadcaster::UnitStatusView::LoadFailed(
                    "incompatible jig"@,
                )),
            forall|k: int|
                0 <= k < to_remove@.len() ==> old(dirty).has(#[trigger] to_remove@[k]@) && !keep(
                    to_remove@[k]@,
                ),
            forall|j: int|
                0 <= j < i && !keep(#[trigger] old(dirty).names()[j]) ==> exists|k: int|
                    0 <= k < to_remove@.len() && to_remove@[k]@ == old(dirty).names()[j],
            forall|n: UnitNameView|
                !((exists|j: int| 0 <= j < i && #[trigger] old(dirty).names()[j] == n) && failing(
                    n,
                )) ==> #[trigger] statuses.get_spec(n) == old(statuses).get_spec(n)
                    && statuses.contains_key(n) == old(statuses).contains_key(n),
            forall|n: UnitNameView|
                #[trigger] statuses.get_spec(n) == old(statuses).get_spec(n) || (statuses.get_spec(
                    n,
                ) matches Some(s) && s@ == crate::unitbroadcaster::UnitStatusView::LoadFailed(
                    "incompatible jig"@,
                )),
            forall|n: UnitNameView|
                #[trigger] manager.jig_loaded(n) == old(manager).jig_loaded(n),
            forall|n: UnitNameView|
                !(old(dirty).has(n) && is_lu(*old(statuses), n) && store.contains_key(n))
                    ==> #[trigger] manager.is_selected(n) == old(manager).is_selected(n),
            forall|j: int|
                (0 <= j < i && failing(#[trigger] old(dirty).names()[j]))
                    ==> !manager.is_selected(old(dirty).names()[j]),
            forall|n: UnitNameView|
                (kind != UnitKind::Test || !(old(dirty).has(n) && is_lu(*old(statuses), n)
                    && store.contains_key(n))) ==> #[trigger] manager.test_loaded(n)
                    == old(manager).test_loaded(n),
            forall|n: UnitNameView|
                (kind != UnitKind::Logger || !(old(dirty).has(n) && is_lu(*old(statuses), n)
                    && store.contains_key(n))) ==> #[trigger] manager.logger_loaded(n)
                    == old(manager).logger_loaded(n),
            forall|n: UnitNameView|
                (kind != UnitKind::Trigger || !(old(dirty).has(n) && is_lu(*old(statuses), n)
                    && store.contains_key(n))) ==> #[trigger] manager.trigger_loaded(n)
                    == old(manager).trigger_loaded(n),
            forall|n: UnitNameView|
                (kind != UnitKind::Scenario || !(old(dirty).has(n) && is_lu(*old(statuses), n)
                    && store.contains_key(n))) ==> #[trigger] manager.scenario_loaded(n)
                    == old(manager).scenario_loaded(n),
            forall|n: UnitNameView|
                #[trigger] manager.interface_loaded(n) == old(manager).interface_loaded(n),
            forall|n: UnitNameView|
                #[trigger] manager.interface_child(n) == old(manager).interface_child(n),
            manager.action_log() == old(manager).action_log(),
            manager.control_log() == old(manager).control_log(),
            manager.jig_names() == old(manager).jig_names(),
            kind != UnitKind::Scenario ==> manager.scenario_names() == old(manager).scenario_names(),
            manager.active_jig_view() == old(manager).active_jig_view(),
            manager.default_jig_view() == old(manager).default_jig_view(),
            manager.default_scenario_view() == old(manager).default_scenario_view(),
            i == 0 ==> *manager == *old(manager) && *statuses == *old(statuses),
        decreases old(dirty).names().len() - i,
    {
        let n = dirty.name_at(i).dup();
        proof {
            crate::storage::lemma_set_distinct(*dirty);
            assert forall|j: int| 0 <= j < i implies old(dirty).names()[j] != n@ by {
                if old(dirty).names()[j] == n@ {
                    assert(dirty.names()[j] != dirty.names()[i as int]);
                }
            }
            if failing(n@) {
                let j = choose|j: int|
                    0 <= j < old(dirty).names().len() && old(dirty).names()[j] == n@;
                if j < i {
                    assert(false);
                } else {
                }
            }
            assert(statuses.get_spec(n@) == old(statuses).get_spec(n@));
        }
        let mut drop_it = false;
        match statuses.get(&n) {
            Some(UnitStatus::LoadStarted(_)) => {},
            Some(UnitStatus::UpdateStarted(_)) => {},
            _ => {
                drop_it = true;
            },
        }
        if !drop_it {
            match store.get(&n) {
                None => {
                    drop_it = true;
                },
                Some(desc) => {
                    proof {
                        crate::storage::lemma_entries_ok_at(*store, desc_entry_ok(kind), n@);
                        manager.lemma_loaded_kinds();
                        assert(!manager.jig_loaded(n@));
                        assert(!manager.interface_loaded(n@));
                        assert(manager.interface_child(n@) is None);
                        assert(kind != UnitKind::Test ==> !manager.test_loaded(n@));
                        assert(kind != UnitKind::Logger ==> !manager.logger_loaded(n@));
                        assert(kind != UnitKind::Trigger ==> !manager.trigger_loaded(n@));
                        assert(kind != UnitKind::Scenario ==> !manager.scenario_loaded(n@));
                        crate::unitmanager::lemma_compat_same(desc@.jigs, *manager, *old(manager));
                    }
                    manager.unload(&n);
                    proof {
                        crate::unitmanager::lemma_compat_same(desc@.jigs, *manager, *old(manager));
                    }
                    let outcome = match kind {
                        UnitKind::Test => manager.load_test(desc),
                        UnitKind::Logger => manager.load_logger(desc),
                        UnitKind::Trigger => manager.load_trigger(desc),
                        _ => manager.load_scenario(desc),
                    };
                    match outcome {
                        Ok(()) => {},
                        Err(e) => {
                            proof {
                                assert(failing(n@));
                            }
                            let msg = e.message();
                            statuses.insert(n.dup(), UnitStatus::LoadFailed(msg));
                            drop_it = true;
                        },
                    }
                },
            }
        }
        if drop_it {
            proof {
                assert(!keep(old(dirty).names()[i as int]));
            }
            let ghost prev_tr = to_remove@;
            to_remove.push(n);
            proof {
                assert(to_remove@[prev_tr.len() as int]@ == old(dirty).names()[i as int]);
                assert forall|j: int|
                    0 <= j < i + 1 && !keep(#[trigger] old(dirty).names()[j]) implies exists|
                    k: int,
                |
                    0 <= k < to_remove@.len() && to_remove@[k]@ == old(dirty).names()[j] by {
                    if j < i {
                        let k = choose|k: int|
                            0 <= k < prev_tr.len() && prev_tr[k]@ == old(dirty).names()[j];
                        assert(to_remove@[k]@ == old(dirty).names()[j]);
                    } else {
                        assert(to_remove@[prev_tr.len() as int]@ == old(dirty).names()[j]);
                    }
                }
            }
        }
        i = i + 1;
    }
    proof {
        if old(dirty).names().len() == 0 && to_remove@.len() > 0 {
            assert(old(dirty).has(to_remove@[0]@));
        }
    }
    let mut k: usize = 0;
    while k < to_remove.len()
        invariant
            dirty.wf(),
            k <= to_remove@.len(),
            forall|j: int|
                0 <= j < to_remove@.len() ==> old(dirty).has(#[trigger] to_remove@[j]@) && !keep(
                    to_remove@[j]@,
                ),
            forall|n: UnitNameView|
                old(dirty).has(n) && !keep(n) ==> exists|j: int|
                    0 <= j < to_remove@.len() && to_remove@[j]@ == n,
            forall|n: UnitNameView|
                #[trigger] dirty.has(n) <==> old(dirty).has(n) && !(exists|j: int|
                    0 <= j < k && to_remove@[j]@ == n),
            to_remove@.len() == 0 ==> *dirty == *old(dirty),
        decreases to_remove@.len() - k,
    {
        let n = &to_remove[k];
        dirty.remove(n);
        k = k + 1;
        proof {
            assert forall|n2: UnitNameView| #[trigger] dirty.has(n2) <==> old(dirty).has(n2) && !(
            exists|j: int| 0 <= j < k && to_remove@[j]@ == n2) by {
                if exists|j: int| 0 <= j < k && to_remove@[j]@ == n2 {
                    let j = choose|j: int| 0 <= j < k && to_remove@[j]@ == n2;
                }
            }
        }
    }
    proof {
        assert forall|n: UnitNameView| #[trigger] dirty.has(n) <==> old(dirty).has(n) && keep(
            n,
        ) by {
            if old(dirty).has(n) && !keep(n) {
                assert(exists|j: int| 0 <= j < to_remove@.len() && to_remove@[j]@ == n);
            }
            if dirty.has(n) {
                if exists|j: int| 0 <= j < to_remove@.len() && to_remove@[j]@ == n {
                    assert(false);
                }
            }
        }
        assert forall|n: UnitNameView|
            !(old(dirty).has(n) && is_lu(*old(statuses), n) && store.contains_key(n) && (
            store.get_spec(n) matches Some(d) && !crate::unitmanager::jigs_compatible(
                d@.jigs,
                *old(manager),
            ))) implies #[trigger] final(statuses).get_spec(n) == old(statuses).get_spec(n)
            && final(statuses).contains_key(n) == old(statuses).contains_key(n) by {
            assert(!failing(n));
        }
        assert forall|n: UnitNameView|
            (old(dirty).has(n) && is_lu(*old(statuses), n) && (#[trigger] store.get_spec(
                n,
            )) is Some) implies {
            let d = store.get_spec(n)->Some_0;
            if crate::unitmanager::jigs_compatible(d@.jigs, *old(manager)) {
                (match kind {
                    UnitKind::Test => final(manager).test_loaded(n),
                    UnitKind::Logger => final(manager).logger_loaded(n),
                    UnitKind::Trigger => final(manager).trigger_loaded(n),
                    UnitKind::Scenario => final(manager).scenario_loaded(n),
                    _ => true,
                })
            } else {
                (final(statuses).get_spec(n) matches Some(s) && s@
                    == crate::unitbroadcaster::UnitStatusView::LoadFailed("incompatible jig"@))
                    && !final(manager).is_selected(n)
            }
        } by {
            let j = choose|j: int|
                0 <= j < old(dirty).names().len() && old(dirty).names()[j] == n;
            let d = store.get_spec(n)->Some_0;
            if crate::unitmanager::jigs_compatible(d@.jigs, *old(manager)) {
                assert(keep(old(dirty).names()[j]));
            } else {
                assert(failing(old(dirty).names()[j]));
            }
        }
    }
}

/// Loads every remaining dirty interface: the previous instance is unloaded
/// (terminating its child if one is attached) and a fresh, childless
/// instance is created when a listed jig is loaded. Incompatible interfaces
/// are rejected with a `LoadFailed` status; vanished or stale entries are
/// dropped.
fn load_interfaces(
    store: &NameMap<InterfaceDescription>,
    dirty: &mut NameSet,
    statuses: &mut NameMap<UnitStatus>,
    manager: &mut UnitManager,
)
    requires
        store.wf(),
        old(dirty).wf(),
        old(statuses).wf(),
        old(manager).wf(),
        map_entries_ok(*store, iface_entry_ok()),
        forall|n: UnitNameView| old(dirty).has(n) ==> n.kind == UnitKind::Interface,
    ensures
        final(dirty).wf(),
        final(statuses).wf(),
        final(manager).wf(),
        forall|n: UnitNameView|
            (old(dirty).has(n) && is_lu(*old(statuses), n) && (#[trigger] store.get_spec(n)) is Some)
                ==> {
                let d = store.get_spec(n)->Some_0;
                if crate::unitmanager::jigs_compatible(d@.jigs, *old(manager)) {
                    final(manager).interface_loaded(n) && final(manager).interface_child(n) is None
                } else {
                    (final(statuses).get_spec(n) matches Some(s) && s@
                        == crate::unitbroadcaster::UnitStatusView::LoadFailed("incompatible jig"@))
                        && !final(manager).is_selected(n)
                }
            },
        forall|n: UnitNameView|
            #[trigger] final(dirty).has(n) <==> old(dirty).has(n) && is_lu(*old(statuses), n) && (
            store.get_spec(n) matches Some(d) && crate::unitmanager::jigs_compatible(
                d@.jigs,
                *old(manager),
            )),
        forall|n: UnitNameView|
            !(old(dirty).has(n) && is_lu(*old(statuses), n) && store.contains_key(n) && (
            store.get_spec(n) matches Some(d) && !crate::unitmanager::jigs_compatible(
                d@.jigs,
                *old(manager),
            ))) ==> #[trigger] final(statuses).get_spec(n) == old(statuses).get_spec(n) && final(statuses).contains_key(n) == old(statuses).contains_key(n),
        forall|n: UnitNameView|
            ((#[trigger] final(statuses).get_spec(n)) matches Some(s) && s@ is UnloadStarted) ==> old(statuses).get_spec(n) == final(statuses).get_spec(n),
        forall|n: UnitNameView| #[trigger] final(manager).jig_loaded(n) == old(manager).jig_loaded(n),
        forall|n: UnitNameView|
            !old(dirty).has(n) ==> #[trigger] final(manager).is_selected(n) == old(manager).is_selected(n),
        forall|n: UnitNameView|
            !old(dirty).has(n) ==> #[trigger] final(manager).interface_loaded(n) == old(manager).interface_loaded(n) && final(manager).interface_child(n) == old(manager).interface_child(n),
        forall|n: UnitNameView| #[trigger] final(manager).test_loaded(n) == old(manager).test_loaded(n),
        forall|n: UnitNameView|
            #[trigger] final(manager).logger_loaded(n) == old(manager).logger_loaded(n),
        forall|n: UnitNameView|
            #[trigger] final(manager).trigger_loaded(n) == old(manager).trigger_loaded(n),
        forall|n: UnitNameView|
            #[trigger] final(manager).scenario_loaded(n) == old(manager).scenario_loaded(n),
        old(manager).action_log().is_prefix_of(final(manager).action_log()),
        final(manager).control_log() == old(manager).control_log(),
        final(manager).jig_names() == old(manager).jig_names(),
        final(manager).scenario_names() == old(manager).scenario_names(),
        final(manager).active_jig_view() == old(manager).active_jig_view(),
        final(manager).default_jig_view() == old(manager).default_jig_view(),
        final(manager).default_scenario_view() == old(manager).default_scenario_view(),
        old(dirty).names().len() == 0 ==> *final(manager) == *old(manager) && *final(dirty) == *old(dirty) && *final(statuses) == *old(statuses),
{
    let ghost keep = |n: UnitNameView|
        is_lu(*old(statuses), n) && (store.get_spec(n) matches Some(d)
            && crate::unitmanager::jigs_compatible(d@.jigs, *old(manager)));
    let ghost failing = |n: UnitNameView|
        old(dirty).has(n) && is_lu(*old(statuses), n) && (store.get_spec(n) matches Some(d)
            && !crate::unitmanager::jigs_compatible(d@.jigs, *old(manager)));
    let mut to_remove: Vec<UnitName> = Vec::new();
    let mut i: usize = 0;
    while i < dirty.len()
        invariant
            store.wf(),
            dirty.wf(),
            statuses.wf(),
            manager.wf(),
            map_entries_ok(*store, iface_entry_ok()),
            forall|n: UnitNameView| old(dirty).has(n) ==> n.kind == UnitKind::Interface,
            keep == (|n: UnitNameView|
                is_lu(*old(statuses), n) && (store.get_spec(n) matches Some(d)
                    && crate::unitmanager::jigs_compatible(d@.jigs, *old(manager)))),
            failing == (|n: UnitNameView|
                old(dirty).has(n) && is_lu(*old(statuses), n) && (store.get_spec(n) matches Some(d)
                    && !crate::unitmanager::jigs_compatible(d@.jigs, *old(manager)))),
            i <= old(dirty).names().len(),
            *dirty == *old(dirty),
            forall|j: int|
                0 <= j < i && keep(#[trigger] old(dirty).names()[j]) ==> manager.interface_loaded(
                    old(dirty).names()[j],
                ) && manager.interface_child(old(dirty).names()[j]) is None,
            forall|j: int|
                (0 <= j < i && failing(#[trigger] old(dirty).names()[j])) ==> (statuses.get_spec(
                    old(dirty).names()[j],
                ) matches Some(s) && s@ == crate::unitbroadcaster::UnitStatusView::LoadFailed(
                    "incompatible jig"@,
                )),
            forall|k: int|
                0 <= k < to_remove@.len() ==> old(dirty).has(#[trigger] to_remove@[k]@) && !keep(
                    to_remove@[k]@,
                ),
            forall|j: int|
                0 <= j < i && !keep(#[trigger] old(dirty).names()[j]) ==> exists|k: int|
                    0 <= k < to_remove@.len() && to_remove@[k]@ == old(dirty).names()[j],
            forall|n: UnitNameView|
                !((exists|j: int| 0 <= j < i && #[trigger] old(dirty).names()[j] == n) && failing(
                    n,
                )) ==> #[trigger] statuses.get_spec(n) == old(statuses).get_spec(n)
                    && statuses.contains_key(n) == old(statuses).contains_key(n),
            forall|n: UnitNameView|
                #[trigger] statuses.get_spec(n) == old(statuses).get_spec(n) || (statuses.get_spec(
                    n,
                ) matches Some(s) && s@ == crate::unitbroadcaster::UnitStatusView::LoadFailed(
                    "incompatible jig"@,
                )),
            forall|n: UnitNameView|
                #[trigger] manager.jig_loaded(n) == old(manager).jig_loaded(n),
            forall|n: UnitNameView|
                !(old(dirty).has(n) && is_lu(*old(statuses), n) && store.contains_key(n))
                    ==> #[trigger] manager.is_selected(n) == old(manager).is_selected(n),
            forall|j: int|
                (0 <= j < i && failing(#[trigger] old(dirty).names()[j]))
                    ==> !manager.is_selected(old(dirty).names()[j]),
            forall|n: UnitNameView|
                !(old(dirty).has(n) && is_lu(*old(statuses), n) && store.contains_key(n))
                    ==> #[trigger] manager.interface_loaded(n) == old(manager).interface_loaded(n)
                    && manager.interface_child(n) == old(manager).interface_child(n),
            forall|n: UnitNameView|
                #[trigger] manager.test_loaded(n) == old(manager).test_loaded(n),
            forall|n: UnitNameView|
                #[trigger] manager.logger_loaded(n) == old(manager).logger_loaded(n),
            forall|n: UnitNameView|
                #[trigger] manager.trigger_loaded(n) == old(manager).trigger_loaded(n),
            forall|n: UnitNameView|
                #[trigger] manager.scenario_loaded(n) == old(manager).scenario_loaded(n),
            old(manager).action_log().is_prefix_of(manager.action_log()),
            manager.control_log() == old(manager).control_log(),
            manager.jig_names() == old(manager).jig_names(),
            manager.scenario_names() == old(manager).scenario_names(),
            manager.active_jig_view() == old(manager).active_jig_view(),
            manager.default_jig_view() == old(manager).default_jig_view(),
            manager.default_scenario_view() == old(manager).default_scenario_view(),
            i == 0 ==> *manager == *old(manager) && *statuses == *old(statuses),
        decreases old(dirty).names().len() - i,
    {
        let n = dirty.name_at(i).dup();
        proof {
            crate::storage::lemma_set_distinct(*dirty);
            assert forall|j: int| 0 <= j < i implies old(dirty).names()[j] != n@ by {
                if old(dirty).names()[j] == n@ {
                    assert(dirty.names()[j] != dirty.names()[i as int]);
                }
            }
            if failing(n@) {
                let j = choose|j: int|
                    0 <= j < old(dirty).names().len() && old(dirty).names()[j] == n@;
                if j < i {
                    assert(false);
                } else {
                }
            }
            assert(statuses.get_spec(n@) == old(statuses).get_spec(n@));
        }
        let mut drop_it = false;
        match statuses.get(&n) {
            Some(UnitStatus::LoadStarted(_)) => {},
            Some(UnitStatus::UpdateStarted(_)) => {},
            _ => {
                drop_it = true;
            },
        }
        if !drop_it {
            match store.get(&n) {
                None => {
                    drop_it = true;
                },
                Some(desc) => {
                    proof {
                        crate::storage::lemma_entries_ok_at(*store, iface_entry_ok(), n@);
                        manager.lemma_loaded_kinds();
                        assert(!manager.jig_loaded(n@));
                        assert(!manager.test_loaded(n@));
                        assert(!manager.logger_loaded(n@));
                        assert(!manager.trigger_loaded(n@));
                        assert(!manager.scenario_loaded(n@));
                        crate::unitmanager::lemma_compat_same(desc@.jigs, *manager, *old(manager));
                    }
                    manager.unload(&n);
                    proof {
                        crate::unitmanager::lemma_compat_same(desc@.jigs, *manager, *old(manager));
                    }
                    match manager.load_interface(desc) {
                        Ok(()) => {},
                        Err(e) => {
                            proof {
                                assert(failing(n@));
                            }
                            let msg = e.message();
                            statuses.insert(n.dup(), UnitStatus::LoadFailed(msg));
                            drop_it = true;
                        },
                    }
                },
            }
        }
        if drop_it {
            proof {
                assert(!keep(old(dirty).names()[i as int]));
            }
            let ghost prev_tr = to_remove@;
            to_remove.push(n);
            proof {
                assert(to_remove@[prev_tr.len() as int]@ == old(dirty).names()[i as int]);
                assert forall|j: int|
                    0 <= j < i + 1 && !keep(#[trigger] old(dirty).names()[j]) implies exists|
                    k: int,
                |
                    0 <= k < to_remove@.len() && to_remove@[k]@ == old(dirty).names()[j] by {
                    if j < i {
                        let k = choose|k: int|
                            0 <= k < prev_tr.len() && prev_tr[k]@ == old(dirty).names()[j];
                        assert(to_remove@[k]@ == old(dirty).names()[j]);
                    } else {
                        assert(to_remove@[prev_tr.len() as int]@ == old(dirty).names()[j]);
                    }
                }
            }
        }
        i = i + 1;
    }
    proof {
        if old(dirty).names().len() == 0 && to_remove@.len() > 0 {
            assert(old(dirty).has(to_remove@[0]@));
        }
    }
    let mut k: usize = 0;
    while k < to_remove.len()
        invariant
            dirty.wf(),
            k <= to_remove@.len(),
            forall|j: int|
                0 <= j < to_remove@.len() ==> old(dirty).has(#[trigger] to_remove@[j]@) && !keep(
                    to_remove@[j]@,
                ),
            forall|n: UnitNameView|
                old(dirty).has(n) && !keep(n) ==> exists|j: int|
                    0 <= j < to_remove@.len() && to_remove@[j]@ == n,
            forall|n: UnitNameView|
                #[trigger] dirty.has(n) <==> old(dirty).has(n) && !(exists|j: int|
                    0 <= j < k && to_remove@[j]@ == n),
            to_remove@.len() == 0 ==> *dirty == *old(dirty),
        decreases to_remove@.len() - k,
    {
        let n = &to_remove[k];
        dirty.remove(n);
        k = k + 1;
        proof {
            assert forall|n2: UnitNameView| #[trigger] dirty.has(n2) <==> old(dirty).has(n2) && !(
            exists|j: int| 0 <= j < k && to_remove@[j]@ == n2) by {
                if exists|j: int| 0 <= j < k && to_remove@[j]@ == n2 {
                    let j = choose|j: int| 0 <= j < k && to_remove@[j]@ == n2;
                }
            }
        }
    }
    proof {
        assert forall|n: UnitNameView| #[trigger] dirty.has(n) <==> old(dirty).has(n) && keep(
            n,
        ) by {
            if old(dirty).has(n) && !keep(n) {
                assert(exists|j: int| 0 <= j < to_remove@.len() && to_remove@[j]@ == n);
            }
            if dirty.has(n) {
                if exists|j: int| 0 <= j < to_remove@.len() && to_remove@[j]@ == n {
                    assert(false);
                }
            }
        }
        assert forall|n: UnitNameView|
            !(old(dirty).has(n) && is_lu(*old(statuses), n) && store.contains_key(n) && (
            store.get_spec(n) matches Some(d) && !crate::unitmanager::jigs_compatible(
                d@.jigs,
                *old(manager),
            ))) implies #[trigger] final(statuses).get_spec(n) == old(statuses).get_spec(n)
            && final(statuses).contains_key(n) == old(statuses).contains_key(n) by {
            assert(!failing(n));
        }
        assert forall|n: UnitNameView|
            (old(dirty).has(n) && is_lu(*old(statuses), n) && (#[trigger] store.get_spec(
                n,
            )) is Some) implies {
            let d = store.get_spec(n)->Some_0;
            if crate::unitmanager::jigs_compatible(d@.jigs, *old(manager)) {
                final(manager).interface_loaded(n) && final(manager).interface_child(n) is None
            } else {
                (final(statuses).get_spec(n) matches Some(s) && s@
                    == crate::unitbroadcaster::UnitStatusView::LoadFailed("incompatible jig"@))
                    && !final(manager).is_selected(n)
            }
        } by {
            let j = choose|j: int|
                0 <= j < old(dirty).names().len() && old(dirty).names()[j] == n;
            let d = store.get_spec(n)->Some_0;
            if crate::unitmanager::jigs_compatible(d@.jigs, *old(manager)) {
                assert(keep(old(dirty).names()[j]));
            } else {
                assert(failing(old(dirty).names()[j]));
            }
        }
    }
}

/// The characters of a read file, or of the reason it could not be read.
pub open spec fn file_view(f: Result<String, String>) -> Result<Seq<char>, Seq<char>> {
    match f {
        Ok(t) => Ok(t@),
        Err(e) => Err(e@),
    }
}

/// The summary a kind's store change broadcasts.
pub open spec fn category_message(count: nat) -> Seq<char> {
    "Number of units on disk: "@ + dec_spec(count)
}

/// No description store changed at this name.
pub open spec fn stores_same_at(pre: UnitLibrary, post: UnitLibrary, n: UnitNameView) -> bool {
    &&& post.jig_store().get_spec(n) == pre.jig_store().get_spec(n)
    &&& post.interface_store().get_spec(n) == pre.interface_store().get_spec(n)
    &&& post.logger_store().get_spec(n) == pre.logger_store().get_spec(n)
    &&& post.scenario_store().get_spec(n) == pre.scenario_store().get_spec(n)
    &&& post.test_store().get_spec(n) == pre.test_store().get_spec(n)
    &&& post.trigger_store().get_spec(n) == pre.trigger_store().get_spec(n)
}

/// An ingest that rejected the unit: the status says why, the stores keep
/// whatever description they had, and the failure is broadcast verbatim.
pub open spec fn failed_ingest(
    pre: UnitLibrary,
    post: UnitLibrary,
    n: UnitNameView,
    reason: Seq<char>,
) -> bool {
    &&& post.status_of(n) == Some(UnitStatusView::LoadFailed(reason))
    &&& stores_same_at(pre, post, n)
    &&& post.log() == pre.log().push(
        UnitEventView::Status(
            UnitStatusEventView { name: n, status: UnitStatusView::LoadFailed(reason) },
        ),
    )
}

/// An ingest that accepted an interface: the parsed description replaces any
/// prior one, the status table holds the event's own status, the other
/// stores are untouched at this name, and the new on-disk count is
/// broadcast.
pub open spec fn stored_interface(
    pre: UnitLibrary,
    post: UnitLibrary,
    n: UnitNameView,
    sv: UnitStatusView,
    dv: InterfaceDescriptionView,
) -> bool {
    &&& post.interface_store().get_spec(n) matches Some(d) && d@ == dv
    &&& post.status_of(n) == Some(sv)
    &&& post.jig_store().get_spec(n) == pre.jig_store().get_spec(n)
    &&& post.logger_store().get_spec(n) == pre.logger_store().get_spec(n)
    &&& post.scenario_store().get_spec(n) == pre.scenario_store().get_spec(n)
    &&& post.test_store().get_spec(n) == pre.test_store().get_spec(n)
    &&& post.trigger_store().get_spec(n) == pre.trigger_store().get_spec(n)
    &&& post.log() == pre.log().push(
        UnitEventView::Category(
            UnitCategoryEventView {
                kind: UnitKind::Interface,
                message: category_message(post.interface_store().keys().len()),
            },
        ),
    )
}

/// The store of one non-interface kind, and its size.
pub open spec fn kind_store_get(lib: UnitLibrary, k: UnitKind, n: UnitNameView) -> Option<
    Description,
> {
    match k {
        UnitKind::Jig => lib.jig_store().get_spec(n),
        UnitKind::Logger => lib.logger_store().get_spec(n),
        UnitKind::Scenario => lib.scenario_store().get_spec(n),
        UnitKind::Test => lib.test_store().get_spec(n),
        UnitKind::Trigger => lib.trigger_store().get_spec(n),
        _ => None,
    }
}

pub open spec fn kind_store_len(lib: UnitLibrary, k: UnitKind) -> nat {
    match k {
        UnitKind::Jig => lib.jig_store().keys().len(),
        UnitKind::Logger => lib.logger_store().keys().len(),
        UnitKind::Scenario => lib.scenario_store().keys().len(),
        UnitKind::Test => lib.test_store().keys().len(),
        UnitKind::Trigger => lib.trigger_store().keys().len(),
        _ => 0,
    }
}

/// An ingest that accepted a non-interface unit, kind-dispatched as above.
pub open spec fn stored_description(
    pre: UnitLibrary,
    post: UnitLibrary,
    n: UnitNameView,
    sv: UnitStatusView,
    dv: DescriptionView,
) -> bool {
    &&& kind_store_get(post, n.kind, n) matches Some(d) && d@ == dv
    &&& post.status_of(n) == Some(sv)
    &&& (n.kind != UnitKind::Jig ==> post.jig_store().get_spec(n) == pre.jig_store().get_spec(n))
    &&& post.interface_store().get_spec(n) == pre.interface_store().get_spec(n)
    &&& (n.kind != UnitKind::Logger ==> post.logger_store().get_spec(n)
        == pre.logger_store().get_spec(n))
    &&& (n.kind != UnitKind::Scenario ==> post.scenario_store().get_spec(n)
        == pre.scenario_store().get_spec(n))
    &&& (n.kind != UnitKind::Test ==> post.test_store().get_spec(n) == pre.test_store().get_spec(
        n,
    ))
    &&& (n.kind != UnitKind::Trigger ==> post.trigger_store().get_spec(n)
        == pre.trigger_store().get_spec(n))
    &&& post.log() == pre.log().push(
        UnitEventView::Category(
            UnitCategoryEventView {
                kind: n.kind,
                message: category_message(kind_store_len(post, n.kind)),
            },
        ),
    )
}

/// What ingesting one load or update of a unit file means, exactly: an
/// unreadable file, a bad name, a file that does not parse, a missing
/// section, a rejected directive or a file naming some other unit all leave
/// a broadcast `LoadFailed`; otherwise the parsed description is stored and
/// the kind's new count is broadcast. The entry listing is one consistent
/// ordering of the parsed section.
/// Some consistent listing of the parsed interface section settles the
/// ingest: stored under its own id, or rejected with the exact reason.
pub open spec fn iface_ingest_done(
    pre: UnitLibrary,
    post: UnitLibrary,
    n: UnitNameView,
    sv: UnitStatusView,
    path: Seq<char>,
    dset: Set<(Seq<char>, Option<Seq<char>>)>,
) -> bool {
    exists|es: Seq<Option<(Seq<char>, Option<Seq<char>>)>>|
        {
            &&& #[trigger] entries_match(es, dset)
            &&& match interface_desc_spec(path, es) {
                Err(ev) => failed_ingest(pre, post, n, desc_error_msg(ev)),
                Ok(dv) => if dv.id == n {
                    stored_interface(pre, post, n, sv, dv)
                } else {
                    failed_ingest(pre, post, n, "unit file does not match its path"@)
                },
            }
        }
}

/// The same settlement for the other five kinds.
pub open spec fn desc_ingest_done(
    pre: UnitLibrary,
    post: UnitLibrary,
    n: UnitNameView,
    sv: UnitStatusView,
    path: Seq<char>,
    dset: Set<(Seq<char>, Option<Seq<char>>)>,
) -> bool {
    exists|es: Seq<Option<(Seq<char>, Option<Seq<char>>)>>|
        {
            &&& #[trigger] entries_match(es, dset)
            &&& match description_spec(path, es) {
                Err(ev) => failed_ingest(pre, post, n, desc_error_msg(ev)),
                Ok(dv) => if dv.id == n {
                    stored_description(pre, post, n, sv, dv)
                } else {
                    failed_ingest(pre, post, n, "unit file does not match its path"@)
                },
            }
        }
}

pub open spec fn ingest_spec(
    pre: UnitLibrary,
    post: UnitLibrary,
    n: UnitNameView,
    sv: UnitStatusView,
    path: Seq<char>,
    file: Result<Seq<char>, Seq<char>>,
) -> bool {
    match file {
        Err(io) => failed_ingest(pre, post, n, "unreadable unit file: "@ + io),
        Ok(text) => match crate::unit::from_path_spec(path) {
            Err(m) => failed_ingest(
                pre,
                post,
                n,
                desc_error_msg(UnitDescriptionErrorView::InvalidName(m)),
            ),
            Ok(nv) => {
                let section = if n.kind == UnitKind::Interface {
                    "Interface"@
                } else {
                    section_name(nv.kind)
                };
                match unit_file_section(text, section) {
                    Err(m) => failed_ingest(
                        pre,
                        post,
                        n,
                        desc_error_msg(UnitDescriptionErrorView::Parse(m)),
                    ),
                    Ok(o) => match o {
                        None => failed_ingest(
                            pre,
                            post,
                            n,
                            desc_error_msg(UnitDescriptionErrorView::MissingSection(section)),
                        ),
                        Some(dset) => if n.kind == UnitKind::Interface {
                            iface_ingest_done(pre, post, n, sv, path, dset)
                        } else {
                            desc_ingest_done(pre, post, n, sv, path, dset)
                        },
                    },
                }
            },
        },
    }
}


/// Assembles the ingest contract for an interface whose section parsed,
/// from one consistent entry listing and the per-case outcome.
proof fn lemma_ingest_iface(
    pre: UnitLibrary,
    post: UnitLibrary,
    n: UnitNameView,
    sv: UnitStatusView,
    path: Seq<char>,
    text: Seq<char>,
    dset: Set<(Seq<char>, Option<Seq<char>>)>,
    es0: Seq<Option<(Seq<char>, Option<Seq<char>>)>>,
)
    requires
        n.kind == UnitKind::Interface,
        crate::unit::from_path_spec(path) is Ok,
        unit_file_section(text, "Interface"@) == Ok::<
            Option<Set<(Seq<char>, Option<Seq<char>>)>>,
            Seq<char>,
        >(Some(dset)),
        entries_match(es0, dset),
        match interface_desc_spec(path, es0) {
            Err(ev) => failed_ingest(pre, post, n, desc_error_msg(ev)),
            Ok(dv) => if dv.id == n {
                stored_interface(pre, post, n, sv, dv)
            } else {
                failed_ingest(pre, post, n, "unit file does not match its path"@)
            },
        },
    ensures
        ingest_spec(pre, post, n, sv, path, Ok(text)),
{
    assert(iface_ingest_done(pre, post, n, sv, path, dset)) by {
        assert(entries_match(es0, dset));
    }

}

/// The same assembly for the other five kinds.
proof fn lemma_ingest_desc(
    pre: UnitLibrary,
    post: UnitLibrary,
    n: UnitNameView,
    sv: UnitStatusView,
    path: Seq<char>,
    text: Seq<char>,
    dset: Set<(Seq<char>, Option<Seq<char>>)>,
    es0: Seq<Option<(Seq<char>, Option<Seq<char>>)>>,
)
    requires
        n.kind != UnitKind::Interface,
        crate::unit::from_path_spec(path) is Ok,
        unit_file_section(text, section_name(crate::unit::from_path_spec(path)->Ok_0.kind)) == Ok::<
            Option<Set<(Seq<char>, Option<Seq<char>>)>>,
            Seq<char>,
        >(Some(dset)),
        entries_match(es0, dset),
        match description_spec(path, es0) {
            Err(ev) => failed_ingest(pre, post, n, desc_error_msg(ev)),
            Ok(dv) => if dv.id == n {
                stored_description(pre, post, n, sv, dv)
            } else {
                failed_ingest(pre, post, n, "unit file does not match its path"@)
            },
        },
    ensures
        ingest_spec(pre, post, n, sv, path, Ok(text)),
{
    assert(desc_ingest_done(pre, post, n, sv, path, dset)) by {
        assert(entries_match(es0, dset));
    }

}

/// The unit library itself.
pub struct UnitLibrary {
    broadcaster: UnitBroadcaster,
    unit_status: NameMap<UnitStatus>,
    interface_descriptions: NameMap<InterfaceDescription>,
    jig_descriptions: NameMap<Description>,
    logger_descriptions: NameMap<Description>,
    scenario_descriptions: NameMap<Description>,
    test_descriptions: NameMap<Description>,
    trigger_descriptions: NameMap<Description>,
    dirty_interfaces: NameSet,
    dirty_jigs: NameSet,
    dirty_loggers: NameSet,
    dirty_scenarios: NameSet,
    dirty_tests: NameSet,
    dirty_triggers: NameSet,
    unit_manager: UnitManager,
}

impl UnitLibrary {
    /// The status table.
    pub closed spec fn status_table(self) -> NameMap<UnitStatus> {
        self.unit_status
    }

    /// The status of one unit, if it has been seen and not evicted.
    pub open spec fn status_of(self, n: UnitNameView) -> Option<UnitStatusView> {
        match self.status_table().get_spec(n) {
            Some(s) => Some(s@),
            None => None,
        }
    }

    pub closed spec fn jig_store(self) -> NameMap<Description> {
        self.jig_descriptions
    }

    pub closed spec fn interface_store(self) -> NameMap<InterfaceDescription> {
        self.interface_descriptions
    }

    pub closed spec fn logger_store(self) -> NameMap<Description> {
        self.logger_descriptions
    }

    pub closed spec fn scenario_store(self) -> NameMap<Description> {
        self.scenario_descriptions
    }

    pub closed spec fn test_store(self) -> NameMap<Description> {
        self.test_descriptions
    }

    pub closed spec fn trigger_store(self) -> NameMap<Description> {
        self.trigger_descriptions
    }

    pub closed spec fn dirty_jigs_set(self) -> NameSet {
        self.dirty_jigs
    }

    pub closed spec fn dirty_interfaces_set(self) -> NameSet {
        self.dirty_interfaces
    }

    pub closed spec fn dirty_loggers_set(self) -> NameSet {
        self.dirty_loggers
    }

    pub closed spec fn dirty_scenarios_set(self) -> NameSet {
        self.dirty_scenarios
    }

    pub closed spec fn dirty_tests_set(self) -> NameSet {
        self.dirty_tests
    }

    pub closed spec fn dirty_triggers_set(self) -> NameSet {
        self.dirty_triggers
    }

    pub closed spec fn bus(self) -> UnitBroadcaster {
        self.broadcaster
    }

    /// Everything broadcast so far.
    pub open spec fn log(self) -> Seq<UnitEventView> {
        self.bus().log()
    }

    pub closed spec fn manager(self) -> UnitManager {
        self.unit_manager
    }

    /// A name is dirty when it sits in its own kind's dirty set.
    pub open spec fn dirty(self, n: UnitNameView) -> bool {
        match n.kind {
            UnitKind::Jig => self.dirty_jigs_set().has(n),
            UnitKind::Interface => self.dirty_interfaces_set().has(n),
            UnitKind::Logger => self.dirty_loggers_set().has(n),
            UnitKind::Trigger => self.dirty_triggers_set().has(n),
            UnitKind::Test => self.dirty_tests_set().has(n),
            UnitKind::Scenario => self.dirty_scenarios_set().has(n),
            UnitKind::Internal => false,
        }
    }

    /// The library's well-formedness: every container is well-formed, every
    /// store holds entries of its own kind under their own ids, every dirty
    /// set holds names of its own kind, the status table never holds the
    /// reserved internal kind, and a unit marked removed is always dirty, so
    /// the next rescan evicts it.
    pub open spec fn wf(self) -> bool {
        &&& self.bus().wf()
        &&& self.status_table().wf()
        &&& self.jig_store().wf()
        &&& self.interface_store().wf()
        &&& self.logger_store().wf()
        &&& self.scenario_store().wf()
        &&& self.test_store().wf()
        &&& self.trigger_store().wf()
        &&& self.dirty_jigs_set().wf()
        &&& self.dirty_interfaces_set().wf()
        &&& self.dirty_loggers_set().wf()
        &&& self.dirty_scenarios_set().wf()
        &&& self.dirty_tests_set().wf()
        &&& self.dirty_triggers_set().wf()
        &&& self.manager().wf()
        &&& map_entries_ok(self.jig_store(), desc_entry_ok(UnitKind::Jig))
        &&& map_entries_ok(self.interface_store(), iface_entry_ok())
        &&& map_entries_ok(self.logger_store(), desc_entry_ok(UnitKind::Logger))
        &&& map_entries_ok(self.scenario_store(), desc_entry_ok(UnitKind::Scenario))
        &&& map_entries_ok(self.test_store(), desc_entry_ok(UnitKind::Test))
        &&& map_entries_ok(self.trigger_store(), desc_entry_ok(UnitKind::Trigger))
        &&& forall|n: UnitNameView|
            #[trigger] self.dirty_jigs_set().has(n) ==> n.kind == UnitKind::Jig
        &&& forall|n: UnitNameView|
            #[trigger] self.dirty_interfaces_set().has(n) ==> n.kind == UnitKind::Interface
        &&& forall|n: UnitNameView|
            #[trigger] self.dirty_loggers_set().has(n) ==> n.kind == UnitKind::Logger
        &&& forall|n: UnitNameView|
            #[trigger] self.dirty_scenarios_set().has(n) ==> n.kind == UnitKind::Scenario
        &&& forall|n: UnitNameView|
            #[trigger] self.dirty_tests_set().has(n) ==> n.kind == UnitKind::Test
        &&& forall|n: UnitNameView|
            #[trigger] self.dirty_triggers_set().has(n) ==> n.kind == UnitKind::Trigger
        &&& forall|n: UnitNameView|
            #[trigger] self.status_table().contains_key(n) ==> n.kind != UnitKind::Internal
        &&& forall|n: UnitNameView|
            ((#[trigger] self.status_table().get_spec(n)) matches Some(s) && s@ is UnloadStarted)
                ==> self.dirty(n)
    }

    /// The library's per-name state agrees in both.
    pub open spec fn same_at(a: UnitLibrary, b: UnitLibrary, n: UnitNameView) -> bool {
        &&& a.status_table().get_spec(n) == b.status_table().get_spec(n)
        &&& a.status_table().contains_key(n) == b.status_table().contains_key(n)
        &&& a.jig_store().get_spec(n) == b.jig_store().get_spec(n)
        &&& a.jig_store().contains_key(n) == b.jig_store().contains_key(n)
        &&& a.interface_store().get_spec(n) == b.interface_store().get_spec(n)
        &&& a.interface_store().contains_key(n) == b.interface_store().contains_key(n)
        &&& a.logger_store().get_spec(n) == b.logger_store().get_spec(n)
        &&& a.logger_store().contains_key(n) == b.logger_store().contains_key(n)
        &&& a.scenario_store().get_spec(n) == b.scenario_store().get_spec(n)
        &&& a.scenario_store().contains_key(n) == b.scenario_store().contains_key(n)
        &&& a.test_store().get_spec(n) == b.test_store().get_spec(n)
        &&& a.test_store().contains_key(n) == b.test_store().contains_key(n)
        &&& a.trigger_store().get_spec(n) == b.trigger_store().get_spec(n)
        &&& a.trigger_store().contains_key(n) == b.trigger_store().contains_key(n)
        &&& a.dirty(n) == b.dirty(n)
        &&& a.dirty_jigs_set().has(n) == b.dirty_jigs_set().has(n)
        &&& a.dirty_interfaces_set().has(n) == b.dirty_interfaces_set().has(n)
        &&& a.dirty_loggers_set().has(n) == b.dirty_loggers_set().has(n)
        &&& a.dirty_scenarios_set().has(n) == b.dirty_scenarios_set().has(n)
        &&& a.dirty_tests_set().has(n) == b.dirty_tests_set().has(n)
        &&& a.dirty_triggers_set().has(n) == b.dirty_triggers_set().has(n)
    }

    /// A fresh library: nothing seen, nothing dirty, nothing loaded.
    pub fn new(config: Config) -> (r: UnitLibrary)
        ensures
            r.wf(),
            r.log().len() == 0,
            forall|n: UnitNameView| r.status_of(n) is None,
            forall|n: UnitNameView| !r.dirty(n),
            forall|n: UnitNameView| !r.jig_store().contains_key(n),
            forall|n: UnitNameView| !r.interface_store().contains_key(n),
            forall|n: UnitNameView| !r.logger_store().contains_key(n),
            forall|n: UnitNameView| !r.scenario_store().contains_key(n),
            forall|n: UnitNameView| !r.test_store().contains_key(n),
            forall|n: UnitNameView| !r.trigger_store().contains_key(n),
            forall|n: UnitNameView| not_loaded_any(r.manager(), n),
            r.manager().action_log().len() == 0,
            r.manager().control_log().len() == 0,
            r.bus().subscriber_count() == 0,
    {
        UnitLibrary {
            broadcaster: UnitBroadcaster::new(),
            unit_status: NameMap::new(),
            interface_descriptions: NameMap::new(),
            jig_descriptions: NameMap::new(),
            logger_descriptions: NameMap::new(),
            scenario_descriptions: NameMap::new(),
            test_descriptions: NameMap::new(),
            trigger_descriptions: NameMap::new(),
            dirty_interfaces: NameSet::new(),
            dirty_jigs: NameSet::new(),
            dirty_loggers: NameSet::new(),
            dirty_scenarios: NameSet::new(),
            dirty_tests: NameSet::new(),
            dirty_triggers: NameSet::new(),
            unit_manager: UnitManager::new(config),
        }
    }

    pub fn get_manager(&self) -> (r: &UnitManager)
        ensures
            *r == self.manager(),
    {
        &self.unit_manager
    }

    /// The recorded status of a unit, if any.
    pub fn status(&self, name: &UnitName) -> (r: Option<&UnitStatus>)
        requires
            self.wf(),
        ensures
            match r {
                Some(s) => self.status_of(name@) == Some(s@),
                None => self.status_of(name@) is None,
            },
    {
        self.unit_status.get(name)
    }

    /// Whether a unit waits in its kind's dirty set.
    pub fn is_dirty(&self, name: &UnitName) -> (r: bool)
        requires
            self.wf(),
        ensures
            r == self.dirty(name@),
    {
        match name.kind() {
            UnitKind::Jig => self.dirty_jigs.contains(name),
            UnitKind::Interface => self.dirty_interfaces.contains(name),
            UnitKind::Logger => self.dirty_loggers.contains(name),
            UnitKind::Trigger => self.dirty_triggers.contains(name),
            UnitKind::Test => self.dirty_tests.contains(name),
            UnitKind::Scenario => self.dirty_scenarios.contains(name),
            UnitKind::Internal => false,
        }
    }

    /// Registers a bus observer.
    pub fn bus_subscribe(&mut self) -> (r: usize)
        requires
            old(self).wf(),
        ensures
            final(self).wf(),
            final(self).log() == old(self).log(),
            r == old(self).bus().subscriber_count(),
            final(self).bus().subscriber_count() == old(self).bus().subscriber_count() + 1,
            final(self).bus().cursor_of(r as int) == old(self).log().len(),
            final(self).status_table() == old(self).status_table(),
            final(self).manager() == old(self).manager(),
            forall|n: UnitNameView| UnitLibrary::same_at(*final(self), *old(self), n),
    {
        self.broadcaster.subscribe()
    }

    /// Hands an observer the events it has not seen yet.
    pub fn bus_drain(&mut self, sub: usize) -> (r: Vec<UnitEvent>)
        requires
            old(self).wf(),
            sub < old(self).bus().subscriber_count(),
        ensures
            final(self).wf(),
            final(self).log() == old(self).log(),
            crate::unitbroadcaster::event_views(r@) == old(self).log().skip(old(self).bus().cursor_of(
                sub as int,
            )),
            final(self).bus().cursor_of(sub as int) == old(self).log().len(),
            final(self).bus().subscriber_count() == old(self).bus().subscriber_count(),
            final(self).status_table() == old(self).status_table(),
            final(self).manager() == old(self).manager(),
            forall|n: UnitNameView| UnitLibrary::same_at(*final(self), *old(self), n),
    {
        self.broadcaster.drain(sub)
    }

    /// Hands out the queued supervisor work.
    pub fn take_actions(&mut self) -> (r: Vec<ManagerAction>)
        requires
            old(self).wf(),
        ensures
            final(self).wf(),
            crate::unitmanager::action_views(r@) == old(self).manager().action_log(),
            final(self).manager().action_log().len() == 0,
            final(self).manager().control_log() == old(self).manager().control_log(),
            final(self).manager().same_loaded(old(self).manager()),
            final(self).log() == old(self).log(),
            final(self).status_table() == old(self).status_table(),
            forall|n: UnitNameView| UnitLibrary::same_at(*final(self), *old(self), n),
    {
        self.unit_manager.take_actions()
    }

    /// Hands out the queued inbound control messages.
    pub fn take_control_messages(&mut self) -> (r: Vec<ManagerControlMessage>)
        requires
            old(self).wf(),
        ensures
            final(self).wf(),
            crate::unitmanager::control_views(r@) == old(self).manager().control_log(),
            final(self).manager().control_log().len() == 0,
            final(self).manager().action_log() == old(self).manager().action_log(),
            final(self).manager().same_loaded(old(self).manager()),
            final(self).log() == old(self).log(),
            final(self).status_table() == old(self).status_table(),
            forall|n: UnitNameView| UnitLibrary::same_at(*final(self), *old(self), n),
    {
        self.unit_manager.take_control_messages()
    }

    /// Queues a control message an interface reader handed in.
    pub fn push_control(&mut self, msg: ManagerControlMessage)
        requires
            old(self).wf(),
        ensures
            final(self).wf(),
            final(self).manager().control_log() == old(self).manager().control_log().push(msg@),
            final(self).manager().action_log() == old(self).manager().action_log(),
            final(self).manager().same_loaded(old(self).manager()),
            final(self).log() == old(self).log(),
            final(self).status_table() == old(self).status_table(),
            forall|n: UnitNameView| UnitLibrary::same_at(*final(self), *old(self), n),
    {
        self.unit_manager.push_control(msg)
    }

    /// Records what the supervisor reported after spawning an interface.
    /// On failure no instance remains and the unit's status says why.
    pub fn complete_activation(&mut self, name: &UnitName, outcome: Result<u64, String>) -> (r:
        Result<(), String>)
        requires
            old(self).wf(),
            name@.kind == UnitKind::Interface,
        ensures
            final(self).wf(),
            outcome is Err ==> !final(self).manager().interface_loaded(name@) && r is Err && (
            final(self).status_of(name@) matches Some(s) && s is LoadFailed),
            outcome matches Ok(c) ==> (old(self).manager().interface_loaded(name@) ==> final(self).manager().interface_child(name@) == Some(c) && r is Ok && final(self).status_table()
                == old(self).status_table()),
            forall|n: UnitNameView|
                n != name@ ==> #[trigger] final(self).manager().interface_loaded(n) == old(self).manager().interface_loaded(n),
            forall|n: UnitNameView|
                n != name@ ==> UnitLibrary::same_at(*final(self), *old(self), n),
    {
        let result = self.unit_manager.complete_activation(name, outcome);
        match &result {
            Ok(_) => {},
            Err(e) => {
                let reason = String::from_str("activation failed: ").concat(e.as_str());
                self.unit_status.insert(name.dup(), UnitStatus::LoadFailed(reason.clone()));
                self.broadcaster.broadcast(
                    UnitEvent::Status(UnitStatusEvent::new_load_failed(name, reason)),
                );
            },
        }
        result
    }

    /// Routes a name to its kind's dirty set; the reserved internal kind is
    /// silently ignored.
    fn mark_dirty(&mut self, name: &UnitName)
        requires
            old(self).wf(),
        ensures
            final(self).wf(),
            name@.kind != UnitKind::Internal ==> final(self).dirty(name@),
            forall|n: UnitNameView|
                n != name@ ==> UnitLibrary::same_at(*final(self), *old(self), n),
            final(self).status_table() == old(self).status_table(),
            final(self).jig_store() == old(self).jig_store(),
            final(self).interface_store() == old(self).interface_store(),
            final(self).logger_store() == old(self).logger_store(),
            final(self).scenario_store() == old(self).scenario_store(),
            final(self).test_store() == old(self).test_store(),
            final(self).trigger_store() == old(self).trigger_store(),
            final(self).manager() == old(self).manager(),
            final(self).bus() == old(self).bus(),
            name@.kind == UnitKind::Internal ==> *final(self) == *old(self),
    {
        match name.kind() {
            UnitKind::Interface => self.dirty_interfaces.insert(name.dup()),
            UnitKind::Jig => self.dirty_jigs.insert(name.dup()),
            UnitKind::Logger => self.dirty_loggers.insert(name.dup()),
            UnitKind::Scenario => self.dirty_scenarios.insert(name.dup()),
            UnitKind::Test => self.dirty_tests.insert(name.dup()),
            UnitKind::Trigger => self.dirty_triggers.insert(name.dup()),
            UnitKind::Internal => {},
        }
    }
}

/// A name of jig kind is never in the tests' dirty set: each dirty set holds
/// its own kind only, so a `.jig` path cannot be routed there.
pub proof fn lemma_dirty_tests_hold_tests(lib: UnitLibrary, n: UnitNameView)
    requires
        lib.wf(),
        lib.dirty_tests_set().has(n),
    ensures
        n.kind == UnitKind::Test,
{
}

impl UnitLibrary {
    /// The first rescan phase: every unit whose description names a dirty
    /// jig becomes dirty itself, in its own kind's set, so that jig-level
    /// changes re-derive compatibility everywhere.
    pub fn propagate_dirty_jigs(&mut self)
        requires
            old(self).wf(),
        ensures
            final(self).wf(),
            final(self).status_table() == old(self).status_table(),
            final(self).jig_store() == old(self).jig_store(),
            final(self).interface_store() == old(self).interface_store(),
            final(self).logger_store() == old(self).logger_store(),
            final(self).scenario_store() == old(self).scenario_store(),
            final(self).test_store() == old(self).test_store(),
            final(self).trigger_store() == old(self).trigger_store(),
            final(self).manager() == old(self).manager(),
            final(self).bus() == old(self).bus(),
            final(self).dirty_jigs_set() == old(self).dirty_jigs_set(),
            forall|n: UnitNameView|
                old(self).dirty_tests_set().has(n) ==> #[trigger] final(self).dirty_tests_set().has(
                    n,
                ),
            forall|n: UnitNameView|
                old(self).dirty_scenarios_set().has(n) ==> #[trigger] final(self).dirty_scenarios_set().has(n),
            forall|n: UnitNameView|
                old(self).dirty_interfaces_set().has(n) ==> #[trigger] final(self).dirty_interfaces_set().has(n),
            forall|n: UnitNameView|
                old(self).dirty_loggers_set().has(n) ==> #[trigger] final(self).dirty_loggers_set().has(n),
            forall|n: UnitNameView|
                old(self).dirty_triggers_set().has(n) ==> #[trigger] final(self).dirty_triggers_set().has(n),
            forall|j: UnitNameView, n: UnitNameView|
                (#[trigger] old(self).dirty_jigs_set().has(j) && (#[trigger] old(self).test_store().get_spec(n)) is Some && old(self).test_store().get_spec(n)->Some_0@.jigs.contains(j)) ==> final(self).dirty_tests_set().has(n),
            forall|j: UnitNameView, n: UnitNameView|
                (#[trigger] old(self).dirty_jigs_set().has(j) && (#[trigger] old(self).scenario_store().get_spec(n)) is Some && old(self).scenario_store().get_spec(n)->Some_0@.jigs.contains(j)) ==> final(self).dirty_scenarios_set().has(n),
            forall|j: UnitNameView, n: UnitNameView|
                (#[trigger] old(self).dirty_jigs_set().has(j) && (#[trigger] old(self).interface_store().get_spec(n)) is Some && old(self).interface_store().get_spec(n)->Some_0@.jigs.contains(j)) ==> final(self).dirty_interfaces_set().has(n),
            forall|j: UnitNameView, n: UnitNameView|
                (#[trigger] old(self).dirty_jigs_set().has(j) && (#[trigger] old(self).logger_store().get_spec(n)) is Some && old(self).logger_store().get_spec(n)->Some_0@.jigs.contains(j)) ==> final(self).dirty_loggers_set().has(n),
            forall|j: UnitNameView, n: UnitNameView|
                (#[trigger] old(self).dirty_jigs_set().has(j) && (#[trigger] old(self).trigger_store().get_spec(n)) is Some && old(self).trigger_store().get_spec(n)->Some_0@.jigs.contains(j)) ==> final(self).dirty_triggers_set().has(n),
            old(self).dirty_jigs_set().names().len() == 0 ==> *final(self) == *old(self),
{
        let mut i: usize = 0;
        while i < self.dirty_jigs.len()
            invariant
                self.wf(),
                i <= self.dirty_jigs.names().len(),
                self.unit_status == old(self).unit_status,
                self.jig_descriptions == old(self).jig_descriptions,
                self.interface_descriptions == old(self).interface_descriptions,
                self.logger_descriptions == old(self).logger_descriptions,
                self.scenario_descriptions == old(self).scenario_descriptions,
                self.test_descriptions == old(self).test_descriptions,
                self.trigger_descriptions == old(self).trigger_descriptions,
                self.unit_manager == old(self).unit_manager,
                self.broadcaster == old(self).broadcaster,
                self.dirty_jigs == old(self).dirty_jigs,
                forall|n: UnitNameView|
                    old(self).dirty_tests_set().has(n) ==> #[trigger] self.dirty_tests.has(n),
                forall|n: UnitNameView|
                    old(self).dirty_scenarios_set().has(n) ==> #[trigger] self.dirty_scenarios.has(
                        n,
                    ),
                forall|n: UnitNameView|
                    old(self).dirty_interfaces_set().has(n) ==> #[trigger] self.dirty_interfaces.has(
                        n,
                    ),
                forall|n: UnitNameView|
                    old(self).dirty_loggers_set().has(n) ==> #[trigger] self.dirty_loggers.has(n),
                forall|n: UnitNameView|
                    old(self).dirty_triggers_set().has(n) ==> #[trigger] self.dirty_triggers.has(n),
                forall|jx: int, n: UnitNameView|
                    (0 <= jx < i && (#[trigger] self.test_descriptions.get_spec(n)) is Some && self.test_descriptions.get_spec(n)->Some_0@.jigs.contains(#[trigger] self.dirty_jigs.names()[jx])) ==> self.dirty_tests.has(n),
                forall|jx: int, n: UnitNameView|
                    (0 <= jx < i && (#[trigger] self.scenario_descriptions.get_spec(n)) is Some && self.scenario_descriptions.get_spec(n)->Some_0@.jigs.contains(#[trigger] self.dirty_jigs.names()[jx])) ==> self.dirty_scenarios.has(n),
                forall|jx: int, n: UnitNameView|
                    (0 <= jx < i && (#[trigger] self.interface_descriptions.get_spec(n)) is Some && self.interface_descriptions.get_spec(n)->Some_0@.jigs.contains(#[trigger] self.dirty_jigs.names()[jx])) ==> self.dirty_interfaces.has(n),
                forall|jx: int, n: UnitNameView|
                    (0 <= jx < i && (#[trigger] self.logger_descriptions.get_spec(n)) is Some && self.logger_descriptions.get_spec(n)->Some_0@.jigs.contains(#[trigger] self.dirty_jigs.names()[jx])) ==> self.dirty_loggers.has(n),
                forall|jx: int, n: UnitNameView|
                    (0 <= jx < i && (#[trigger] self.trigger_descriptions.get_spec(n)) is Some && self.trigger_descriptions.get_spec(n)->Some_0@.jigs.contains(#[trigger] self.dirty_jigs.names()[jx])) ==> self.dirty_triggers.has(n),
                i == 0 ==> *self == *old(self),
            decreases self.dirty_jigs.names().len() - i,
        {
            let jig = self.dirty_jigs.name_at(i).dup();
            mark_supporters(&self.test_descriptions, &mut self.dirty_tests, &jig);
            mark_supporters(&self.scenario_descriptions, &mut self.dirty_scenarios, &jig);
            mark_interface_supporters(
                &self.interface_descriptions,
                &mut self.dirty_interfaces,
                &jig,
            );
            mark_supporters(&self.logger_descriptions, &mut self.dirty_loggers, &jig);
            mark_supporters(&self.trigger_descriptions, &mut self.dirty_triggers, &jig);
            proof {
                assert forall|n: UnitNameView|
                    #[trigger] self.dirty_tests.has(n) implies n.kind == UnitKind::Test by {
                    if !old(self).dirty_tests_set().has(n) {
                        if self.test_descriptions.contains_key(n) {
                            crate::storage::lemma_entries_ok_at(
                                self.test_descriptions,
                                desc_entry_ok(UnitKind::Test),
                                n,
                            );
                        }
                    }
                }
                assert forall|n: UnitNameView|
                    #[trigger] self.dirty_scenarios.has(n) implies n.kind == UnitKind::Scenario by {
                    if !old(self).dirty_scenarios_set().has(n) {
                        if self.scenario_descriptions.contains_key(n) {
                            crate::storage::lemma_entries_ok_at(
                                self.scenario_descriptions,
                                desc_entry_ok(UnitKind::Scenario),
                                n,
                            );
                        }
                    }
                }
                assert forall|n: UnitNameView|
                    #[trigger] self.dirty_interfaces.has(n) implies n.kind
                    == UnitKind::Interface by {
                    if !old(self).dirty_interfaces_set().has(n) {
                        if self.interface_descriptions.contains_key(n) {
                            crate::storage::lemma_entries_ok_at(
                                self.interface_descriptions,
                                iface_entry_ok(),
                                n,
                            );
                        }
                    }
                }
                assert forall|n: UnitNameView|
                    #[trigger] self.dirty_loggers.has(n) implies n.kind == UnitKind::Logger by {
                    if !old(self).dirty_loggers_set().has(n) {
                        if self.logger_descriptions.contains_key(n) {
                            crate::storage::lemma_entries_ok_at(
                                self.logger_descriptions,
                                desc_entry_ok(UnitKind::Logger),
                                n,
                            );
                        }
                    }
                }
                assert forall|n: UnitNameView|
                    #[trigger] self.dirty_triggers.has(n) implies n.kind == UnitKind::Trigger by {
                    if !old(self).dirty_triggers_set().has(n) {
                        if self.trigger_descriptions.contains_key(n) {
                            crate::storage::lemma_entries_ok_at(
                                self.trigger_descriptions,
                                desc_entry_ok(UnitKind::Trigger),
                                n,
                            );
                        }
                    }
                }
            }
            i = i + 1;
        }
        proof {
            assert forall|j: UnitNameView, n: UnitNameView|
                (#[trigger] old(self).dirty_jigs_set().has(j) && (#[trigger] old(self).test_store().get_spec(n)) is Some && old(self).test_store().get_spec(n)->Some_0@.jigs.contains(j)) implies final(self).dirty_tests_set().has(n) by {
                let jx = choose|jx: int|
                    0 <= jx < self.dirty_jigs.names().len() && self.dirty_jigs.names()[jx] == j;
            }
            assert forall|j: UnitNameView, n: UnitNameView|
                (#[trigger] old(self).dirty_jigs_set().has(j) && (#[trigger] old(self).scenario_store().get_spec(n)) is Some && old(self).scenario_store().get_spec(n)->Some_0@.jigs.contains(j)) implies final(self).dirty_scenarios_set().has(n) by {
                let jx = choose|jx: int|
                    0 <= jx < self.dirty_jigs.names().len() && self.dirty_jigs.names()[jx] == j;
            }
            assert forall|j: UnitNameView, n: UnitNameView|
                (#[trigger] old(self).dirty_jigs_set().has(j) && (#[trigger] old(self).interface_store().get_spec(n)) is Some && old(self).interface_store().get_spec(n)->Some_0@.jigs.contains(j)) implies final(self).dirty_interfaces_set().has(n) by {
                let jx = choose|jx: int|
                    0 <= jx < self.dirty_jigs.names().len() && self.dirty_jigs.names()[jx] == j;
            }
            assert forall|j: UnitNameView, n: UnitNameView|
                (#[trigger] old(self).dirty_jigs_set().has(j) && (#[trigger] old(self).logger_store().get_spec(n)) is Some && old(self).logger_store().get_spec(n)->Some_0@.jigs.contains(j)) implies final(self).dirty_loggers_set().has(n) by {
                let jx = choose|jx: int|
                    0 <= jx < self.dirty_jigs.names().len() && self.dirty_jigs.names()[jx] == j;
            }
            assert forall|j: UnitNameView, n: UnitNameView|
                (#[trigger] old(self).dirty_jigs_set().has(j) && (#[trigger] old(self).trigger_store().get_spec(n)) is Some && old(self).trigger_store().get_spec(n)->Some_0@.jigs.contains(j)) implies final(self).dirty_triggers_set().has(n) by {
                let jx = choose|jx: int|
                    0 <= jx < self.dirty_jigs.names().len() && self.dirty_jigs.names()[jx] == j;
            }
        }
    }

    /// The second rescan phase: every loaded scenario whose composition uses
    /// a dirty test becomes dirty, so its dependency graph is re-evaluated.
    pub fn propagate_dirty_tests(&mut self)
        requires
            old(self).wf(),
        ensures
            final(self).wf(),
            final(self).status_table() == old(self).status_table(),
            final(self).jig_store() == old(self).jig_store(),
            final(self).interface_store() == old(self).interface_store(),
            final(self).logger_store() == old(self).logger_store(),
            final(self).scenario_store() == old(self).scenario_store(),
            final(self).test_store() == old(self).test_store(),
            final(self).trigger_store() == old(self).trigger_store(),
            final(self).manager() == old(self).manager(),
            final(self).bus() == old(self).bus(),
            final(self).dirty_jigs_set() == old(self).dirty_jigs_set(),
            final(self).dirty_tests_set() == old(self).dirty_tests_set(),
            final(self).dirty_interfaces_set() == old(self).dirty_interfaces_set(),
            final(self).dirty_loggers_set() == old(self).dirty_loggers_set(),
            final(self).dirty_triggers_set() == old(self).dirty_triggers_set(),
            forall|n: UnitNameView|
                old(self).dirty_scenarios_set().has(n) ==> #[trigger] final(self).dirty_scenarios_set().has(n),
            forall|t: UnitNameView, si: int|
                (#[trigger] old(self).dirty_tests_set().has(t) && 0 <= si < old(self).manager().scenario_names().len() && (#[trigger] old(self).manager().scenario_tests_at(si)).contains(t)) ==> final(self).dirty_scenarios_set().has(old(self).manager().scenario_names()[si]),
            old(self).dirty_tests_set().names().len() == 0 ==> *final(self) == *old(self),
{
        let mut i: usize = 0;
        while i < self.dirty_tests.len()
            invariant
                self.wf(),
                i <= self.dirty_tests.names().len(),
                self.unit_status == old(self).unit_status,
                self.jig_descriptions == old(self).jig_descriptions,
                self.interface_descriptions == old(self).interface_descriptions,
                self.logger_descriptions == old(self).logger_descriptions,
                self.scenario_descriptions == old(self).scenario_descriptions,
                self.test_descriptions == old(self).test_descriptions,
                self.trigger_descriptions == old(self).trigger_descriptions,
                self.unit_manager == old(self).unit_manager,
                self.broadcaster == old(self).broadcaster,
                self.dirty_jigs == old(self).dirty_jigs,
                self.dirty_tests == old(self).dirty_tests,
                self.dirty_interfaces == old(self).dirty_interfaces,
                self.dirty_loggers == old(self).dirty_loggers,
                self.dirty_triggers == old(self).dirty_triggers,
                forall|n: UnitNameView|
                    old(self).dirty_scenarios_set().has(n) ==> #[trigger] self.dirty_scenarios.has(
                        n,
                    ),
                forall|tx: int, si: int|
                    (0 <= tx < i && 0 <= si < self.unit_manager.scenario_names().len() && (
                    #[trigger] self.unit_manager.scenario_tests_at(si)).contains(
                        #[trigger] self.dirty_tests.names()[tx],
                    )) ==> self.dirty_scenarios.has(self.unit_manager.scenario_names()[si]),
                i == 0 ==> *self == *old(self),
            decreases self.dirty_tests.names().len() - i,
        {
            let t = self.dirty_tests.name_at(i).dup();
            let mut si: usize = 0;
            while si < self.unit_manager.scenarios_len()
                invariant
                    self.wf(),
                    si <= self.unit_manager.scenario_names().len(),
                    i < self.dirty_tests.names().len(),
                    t@ == self.dirty_tests.names()[i as int],
                    self.unit_status == old(self).unit_status,
                    self.jig_descriptions == old(self).jig_descriptions,
                    self.interface_descriptions == old(self).interface_descriptions,
                    self.logger_descriptions == old(self).logger_descriptions,
                    self.scenario_descriptions == old(self).scenario_descriptions,
                    self.test_descriptions == old(self).test_descriptions,
                    self.trigger_descriptions == old(self).trigger_descriptions,
                    self.unit_manager == old(self).unit_manager,
                    self.broadcaster == old(self).broadcaster,
                    self.dirty_jigs == old(self).dirty_jigs,
                    self.dirty_tests == old(self).dirty_tests,
                    self.dirty_interfaces == old(self).dirty_interfaces,
                    self.dirty_loggers == old(self).dirty_loggers,
                    self.dirty_triggers == old(self).dirty_triggers,
                    forall|n: UnitNameView|
                        old(self).dirty_scenarios_set().has(n) ==> #[trigger] self.dirty_scenarios.has(
                            n,
                        ),
                    forall|tx: int, sj: int|
                        (0 <= tx < i && 0 <= sj < self.unit_manager.scenario_names().len() && (
                        #[trigger] self.unit_manager.scenario_tests_at(sj)).contains(
                            #[trigger] self.dirty_tests.names()[tx],
                        )) ==> self.dirty_scenarios.has(self.unit_manager.scenario_names()[sj]),
                    forall|sj: int|
                        (0 <= sj < si && (#[trigger] self.unit_manager.scenario_tests_at(
                            sj,
                        )).contains(t@)) ==> self.dirty_scenarios.has(
                            self.unit_manager.scenario_names()[sj],
                        ),
                decreases self.unit_manager.scenario_names().len() - si,
            {
                if self.unit_manager.scenario_at_uses_test(si, &t) {
                    let sname = self.unit_manager.scenario_name_at(si).dup();
                    proof {
                        self.unit_manager.lemma_scenario_contains();
                        assert(self.unit_manager.scenario_names().contains(sname@));
                        assert(self.unit_manager.scenario_loaded(sname@));
                        self.unit_manager.lemma_loaded_kinds();
                        assert(sname@.kind == UnitKind::Scenario);
                    }
                    self.dirty_scenarios.insert(sname);
                }
                si = si + 1;
            }
            i = i + 1;
        }
    }
}

impl UnitLibrary {
    /// A full rescan: dirty jigs invalidate their dependents, dirty tests
    /// invalidate their scenarios, removed and rejected units are evicted,
    /// the remaining dirty units are reloaded kind by kind, the reloaded
    /// jigs, interfaces, loggers and triggers are selected and activated, and
    /// the default selections are re-derived. The bus sees exactly the
    /// start/finish bracket.
    pub fn rescan(&mut self)
        requires
            old(self).wf(),
        ensures
            final(self).wf(),
            final(self).log() == old(self).log().push(UnitEventView::RescanStart).push(
                UnitEventView::RescanFinish,
            ),
            forall|n: UnitNameView| !final(self).dirty(n),
            final(self).dirty_jigs_set().names().len() == 0,
            final(self).dirty_interfaces_set().names().len() == 0,
            final(self).dirty_loggers_set().names().len() == 0,
            final(self).dirty_scenarios_set().names().len() == 0,
            final(self).dirty_tests_set().names().len() == 0,
            final(self).dirty_triggers_set().names().len() == 0,
            forall|n: UnitNameView|
                !((#[trigger] final(self).status_table().get_spec(n)) matches Some(s) && s@
                    is UnloadStarted),
forall|n: UnitNameView|
                old(self).dirty(n) && evictable(old(self).status_table(), n) ==> #[trigger] final(self).status_table().get_spec(n) is None && !final(self).jig_store().contains_key(n)
                    && !final(self).interface_store().contains_key(n)
                    && !final(self).logger_store().contains_key(n)
                    && !final(self).scenario_store().contains_key(n)
                    && !final(self).test_store().contains_key(n)
                    && !final(self).trigger_store().contains_key(n)
                    && not_loaded_any(final(self).manager(), n)
                    && !final(self).manager().is_selected(n),
            forall|n: UnitNameView|
                (old(self).dirty_jigs_set().has(n) && is_lu(old(self).status_table(), n) && old(self).jig_store().contains_key(n)) ==> #[trigger] final(self).manager().jig_loaded(n)
                    && final(self).manager().is_selected(n),
            forall|n: UnitNameView|
                (old(self).dirty_interfaces_set().has(n) && is_lu(old(self).status_table(), n) && (
                #[trigger] old(self).interface_store().get_spec(n)) is Some) ==> ({
                    let d = old(self).interface_store().get_spec(n)->Some_0;
                    if crate::unitmanager::jigs_compatible(d@.jigs, final(self).manager()) {
                        final(self).manager().interface_loaded(n) && final(self).manager().interface_child(n) is None && final(self).manager().is_selected(
                            n,
                        ) && has_spawn(final(self).manager().action_log(), n)
                    } else {
                        final(self).status_of(n) == Some(
                            UnitStatusView::LoadFailed("incompatible jig"@),
                        ) && !final(self).manager().is_selected(n)
                    }
                }),
            final(self).manager().default_jig_view() == crate::unitmanager::refreshed_default(
                final(self).manager().default_jig_view(),
                final(self).manager().jig_names(),
            ),
            final(self).manager().default_scenario_view() == crate::unitmanager::refreshed_default(
                final(self).manager().default_scenario_view(),
                final(self).manager().scenario_names(),
            ),
            ({
                &&& old(self).dirty_jigs_set().names().len() == 0
                &&& old(self).dirty_interfaces_set().names().len() == 0
                &&& old(self).dirty_loggers_set().names().len() == 0
                &&& old(self).dirty_scenarios_set().names().len() == 0
                &&& old(self).dirty_tests_set().names().len() == 0
                &&& old(self).dirty_triggers_set().names().len() == 0
                &&& old(self).manager().default_jig_view()
                    == crate::unitmanager::refreshed_default(
                    old(self).manager().default_jig_view(),
                    old(self).manager().jig_names(),
                )
                &&& old(self).manager().default_scenario_view()
                    == crate::unitmanager::refreshed_default(
                    old(self).manager().default_scenario_view(),
                    old(self).manager().scenario_names(),
                )
            }) ==> ({
                &&& final(self).status_table() == old(self).status_table()
                &&& final(self).jig_store() == old(self).jig_store()
                &&& final(self).interface_store() == old(self).interface_store()
                &&& final(self).logger_store() == old(self).logger_store()
                &&& final(self).scenario_store() == old(self).scenario_store()
                &&& final(self).test_store() == old(self).test_store()
                &&& final(self).trigger_store() == old(self).trigger_store()
                &&& final(self).manager().same_loaded(old(self).manager())
                &&& (forall|n: UnitNameView|
                    #[trigger] final(self).manager().is_selected(n) == old(self).manager().is_selected(n))
                &&& final(self).manager().action_log() == old(self).manager().action_log()
                &&& final(self).manager().control_log() == old(self).manager().control_log()
                &&& final(self).manager().active_jig_view() == old(self).manager().active_jig_view()
                &&& final(self).manager().default_jig_view() == old(self).manager().default_jig_view()
                &&& final(self).manager().default_scenario_view() == old(self).manager().default_scenario_view()
            }),
{
        self.broadcaster.broadcast(UnitEvent::RescanStart);
        let ghost lib0 = *self;
        self.propagate_dirty_jigs();
        self.propagate_dirty_tests();
        let ghost lib2 = *self;
        evict_units(
            &mut self.jig_descriptions,
            &mut self.dirty_jigs,
            &mut self.unit_status,
            &mut self.unit_manager,
        );
        let ghost ev1 = *self;
        evict_units(
            &mut self.test_descriptions,
            &mut self.dirty_tests,
            &mut self.unit_status,
            &mut self.unit_manager,
        );
        let ghost ev2 = *self;
        evict_units(
            &mut self.scenario_descriptions,
            &mut self.dirty_scenarios,
            &mut self.unit_status,
            &mut self.unit_manager,
        );
        let ghost ev3 = *self;
        evict_units(
            &mut self.interface_descriptions,
            &mut self.dirty_interfaces,
            &mut self.unit_status,
            &mut self.unit_manager,
        );
        let ghost ev4 = *self;
        evict_units(
            &mut self.logger_descriptions,
            &mut self.dirty_loggers,
            &mut self.unit_status,
            &mut self.unit_manager,
        );
        let ghost ev5 = *self;
        evict_units(
            &mut self.trigger_descriptions,
            &mut self.dirty_triggers,
            &mut self.unit_status,
            &mut self.unit_manager,
        );
        proof {
            crate::storage::lemma_entries_ok_shrunk(
                lib2.jig_store(),
                self.jig_descriptions,
                desc_entry_ok(UnitKind::Jig),
            );
            crate::storage::lemma_entries_ok_shrunk(
                lib2.test_store(),
                self.test_descriptions,
                desc_entry_ok(UnitKind::Test),
            );
            crate::storage::lemma_entries_ok_shrunk(
                lib2.scenario_store(),
                self.scenario_descriptions,
                desc_entry_ok(UnitKind::Scenario),
            );
            crate::storage::lemma_entries_ok_shrunk(
                lib2.interface_store(),
                self.interface_descriptions,
                iface_entry_ok(),
            );
            crate::storage::lemma_entries_ok_shrunk(
                lib2.logger_store(),
                self.logger_descriptions,
                desc_entry_ok(UnitKind::Logger),
            );
            crate::storage::lemma_entries_ok_shrunk(
                lib2.trigger_store(),
                self.trigger_descriptions,
                desc_entry_ok(UnitKind::Trigger),
            );
            assert forall|n: UnitNameView|
                lib2.dirty(n) && evictable(lib2.status_table(), n) implies #[trigger]
            self.status_table().get_spec(n) is None && !self.jig_store().contains_key(n)
                && !self.interface_store().contains_key(n) && !self.logger_store().contains_key(n)
                && !self.scenario_store().contains_key(n) && !self.test_store().contains_key(n)
                && !self.trigger_store().contains_key(n) && not_loaded_any(self.manager(), n)
                && !self.manager().is_selected(n) && !self.dirty_jigs_set().has(n)
                && !self.dirty_interfaces_set().has(n) && !self.dirty_loggers_set().has(n)
                && !self.dirty_scenarios_set().has(n) && !self.dirty_tests_set().has(n)
                && !self.dirty_triggers_set().has(n) by {
                if n.kind != UnitKind::Jig {
                    assert(!lib2.dirty_jigs_set().has(n));
                }
                if n.kind != UnitKind::Test {
                    assert(!lib2.dirty_tests_set().has(n));
                }
                if n.kind != UnitKind::Scenario {
                    assert(!lib2.dirty_scenarios_set().has(n));
                }
                if n.kind != UnitKind::Interface {
                    assert(!lib2.dirty_interfaces_set().has(n));
                }
                if n.kind != UnitKind::Logger {
                    assert(!lib2.dirty_loggers_set().has(n));
                }
                if n.kind != UnitKind::Trigger {
                    assert(!lib2.dirty_triggers_set().has(n));
                }
                if n.kind != UnitKind::Jig && self.jig_store().contains_key(n) {
                    crate::storage::lemma_entries_ok_at(
                        self.jig_descriptions,
                        desc_entry_ok(UnitKind::Jig),
                        n,
                    );
                }
                if n.kind != UnitKind::Interface && self.interface_store().contains_key(n) {
                    crate::storage::lemma_entries_ok_at(
                        self.interface_descriptions,
                        iface_entry_ok(),
                        n,
                    );
                }
                if n.kind != UnitKind::Logger && self.logger_store().contains_key(n) {
                    crate::storage::lemma_entries_ok_at(
                        self.logger_descriptions,
                        desc_entry_ok(UnitKind::Logger),
                        n,
                    );
                }
                if n.kind != UnitKind::Scenario && self.scenario_store().contains_key(n) {
                    crate::storage::lemma_entries_ok_at(
                        self.scenario_descriptions,
                        desc_entry_ok(UnitKind::Scenario),
                        n,
                    );
                }
                if n.kind != UnitKind::Test && self.test_store().contains_key(n) {
                    crate::storage::lemma_entries_ok_at(
                        self.test_descriptions,
                        desc_entry_ok(UnitKind::Test),
                        n,
                    );
                }
                if n.kind != UnitKind::Trigger && self.trigger_store().contains_key(n) {
                    crate::storage::lemma_entries_ok_at(
                        self.trigger_descriptions,
                        desc_entry_ok(UnitKind::Trigger),
                        n,
                    );
                }
                if self.dirty_jigs_set().has(n) {
                    assert(lib2.dirty_jigs_set().has(n));
                }
                if self.dirty_interfaces_set().has(n) {
                    assert(lib2.dirty_interfaces_set().has(n));
                }
                if self.dirty_loggers_set().has(n) {
                    assert(lib2.dirty_loggers_set().has(n));
                }
                if self.dirty_scenarios_set().has(n) {
                    assert(lib2.dirty_scenarios_set().has(n));
                }
                if self.dirty_tests_set().has(n) {
                    assert(lib2.dirty_tests_set().has(n));
                }
                if self.dirty_triggers_set().has(n) {
                    assert(lib2.dirty_triggers_set().has(n));
                }
                match n.kind {
                    UnitKind::Jig => {
                        assert(lib2.dirty_jigs_set().has(n));
                        assert(evictable(lib2.status_table(), n));
                        assert(!ev1.jig_store().contains_key(n));
                        assert(ev1.status_table().get_spec(n) is None);
                        assert(ev2.status_table().get_spec(n) is None);
                        assert(ev3.status_table().get_spec(n) is None);
                        assert(ev4.status_table().get_spec(n) is None);
                        assert(ev5.status_table().get_spec(n) is None);
                        assert(!ev1.manager().is_selected(n));
                        assert(not_loaded_any(ev1.manager(), n));
                        assert(!ev2.manager().is_selected(n));
                        assert(not_loaded_any(ev2.manager(), n));
                        assert(!ev3.manager().is_selected(n));
                        assert(not_loaded_any(ev3.manager(), n));
                        assert(!ev4.manager().is_selected(n));
                        assert(not_loaded_any(ev4.manager(), n));
                        assert(!ev5.manager().is_selected(n));
                        assert(not_loaded_any(ev5.manager(), n));
                        assert(!self.manager().is_selected(n));
                        assert(not_loaded_any(self.manager(), n));
                    },
                    UnitKind::Test => {
                        assert(!ev2.test_store().contains_key(n));
                        assert(ev1.status_table().get_spec(n) == lib2.status_table().get_spec(n));
                        assert(ev2.status_table().get_spec(n) is None);
                        assert(ev3.status_table().get_spec(n) is None);
                        assert(ev4.status_table().get_spec(n) is None);
                        assert(ev5.status_table().get_spec(n) is None);
                        assert(!ev2.manager().is_selected(n));
                        assert(not_loaded_any(ev2.manager(), n));
                        assert(!ev3.manager().is_selected(n));
                        assert(not_loaded_any(ev3.manager(), n));
                        assert(!ev4.manager().is_selected(n));
                        assert(not_loaded_any(ev4.manager(), n));
                        assert(!ev5.manager().is_selected(n));
                        assert(not_loaded_any(ev5.manager(), n));
                        assert(!self.manager().is_selected(n));
                        assert(not_loaded_any(self.manager(), n));
                    },
                    UnitKind::Scenario => {
                        assert(!ev3.scenario_store().contains_key(n));
                        assert(ev1.status_table().get_spec(n) == lib2.status_table().get_spec(n));
                        assert(ev2.status_table().get_spec(n) == lib2.status_table().get_spec(n));
                        assert(ev3.status_table().get_spec(n) is None);
                        assert(ev4.status_table().get_spec(n) is None);
                        assert(ev5.status_table().get_spec(n) is None);
                        assert(!ev3.manager().is_selected(n));
                        assert(not_loaded_any(ev3.manager(), n));
                        assert(!ev4.manager().is_selected(n));
                        assert(not_loaded_any(ev4.manager(), n));
                        assert(!ev5.manager().is_selected(n));
                        assert(not_loaded_any(ev5.manager(), n));
                        assert(!self.manager().is_selected(n));
                        assert(not_loaded_any(self.manager(), n));
                    },
                    UnitKind::Interface => {
                        assert(!ev4.interface_store().contains_key(n));
                        assert(ev1.status_table().get_spec(n) == lib2.status_table().get_spec(n));
                        assert(ev2.status_table().get_spec(n) == lib2.status_table().get_spec(n));
                        assert(ev3.status_table().get_spec(n) == lib2.status_table().get_spec(n));
                        assert(ev4.status_table().get_spec(n) is None);
                        assert(ev5.status_table().get_spec(n) is None);
                        assert(!ev4.manager().is_selected(n));
                        assert(not_loaded_any(ev4.manager(), n));
                        assert(!ev5.manager().is_selected(n));
                        assert(not_loaded_any(ev5.manager(), n));
                        assert(!self.manager().is_selected(n));
                        assert(not_loaded_any(self.manager(), n));
                    },
                    UnitKind::Logger => {
                        assert(!ev5.logger_store().contains_key(n));
                        assert(ev1.status_table().get_spec(n) == lib2.status_table().get_spec(n));
                        assert(ev2.status_table().get_spec(n) == lib2.status_table().get_spec(n));
                        assert(ev3.status_table().get_spec(n) == lib2.status_table().get_spec(n));
                        assert(ev4.status_table().get_spec(n) == lib2.status_table().get_spec(n));
                        assert(ev5.status_table().get_spec(n) is None);
                        assert(!ev5.manager().is_selected(n));
                        assert(not_loaded_any(ev5.manager(), n));
                        assert(!self.manager().is_selected(n));
                        assert(not_loaded_any(self.manager(), n));
                    },
                    UnitKind::Trigger => {
                        assert(!self.trigger_store().contains_key(n));
                        assert(ev1.status_table().get_spec(n) == lib2.status_table().get_spec(n));
                        assert(ev2.status_table().get_spec(n) == lib2.status_table().get_spec(n));
                        assert(ev3.status_table().get_spec(n) == lib2.status_table().get_spec(n));
                        assert(ev4.status_table().get_spec(n) == lib2.status_table().get_spec(n));
                        assert(ev5.status_table().get_spec(n) == lib2.status_table().get_spec(n));
                        assert(self.status_table().get_spec(n) is None);
                        assert(!self.manager().is_selected(n));
                        assert(not_loaded_any(self.manager(), n));
                    },
                    UnitKind::Internal => {
                        assert(false);
                    },
                }
            }
            assert forall|n: UnitNameView|
                !((#[trigger] self.status_table().get_spec(n)) matches Some(s) && s@
                    is UnloadStarted) by {
                if self.status_table().get_spec(n) matches Some(s) && s@ is UnloadStarted {
                    if n.kind != UnitKind::Jig {
                        assert(!lib2.dirty_jigs_set().has(n));
                    }
                    if n.kind != UnitKind::Test {
                        assert(!lib2.dirty_tests_set().has(n));
                    }
                    if n.kind != UnitKind::Scenario {
                        assert(!lib2.dirty_scenarios_set().has(n));
                    }
                    if n.kind != UnitKind::Interface {
                        assert(!lib2.dirty_interfaces_set().has(n));
                    }
                    if n.kind != UnitKind::Logger {
                        assert(!lib2.dirty_loggers_set().has(n));
                    }
                    if n.kind != UnitKind::Trigger {
                        assert(!lib2.dirty_triggers_set().has(n));
                    }
                    if lib2.dirty(n) && evictable(lib2.status_table(), n) {
                        assert(self.status_table().get_spec(n) is None);
                        assert(false);
                    } else {
                        assert(ev1.status_table().get_spec(n) == lib2.status_table().get_spec(n));
                        assert(ev2.status_table().get_spec(n) == lib2.status_table().get_spec(n));
                        assert(ev3.status_table().get_spec(n) == lib2.status_table().get_spec(n));
                        assert(ev4.status_table().get_spec(n) == lib2.status_table().get_spec(n));
                        assert(ev5.status_table().get_spec(n) == lib2.status_table().get_spec(n));
                        assert(self.status_table().get_spec(n) == lib2.status_table().get_spec(n));
                        assert(lib2.dirty(n));
                        assert(false);
                    }
                }
            }
        }
        let ghost lib3 = *self;
        load_jigs(
            &self.jig_descriptions,
            &mut self.dirty_jigs,
            &self.unit_status,
            &mut self.unit_manager,
        );
        let ghost lib4 = *self;
        load_interfaces(
            &self.interface_descriptions,
            &mut self.dirty_interfaces,
            &mut self.unit_status,
            &mut self.unit_manager,
        );
        let ghost li = *self;
        load_compat_kind(
            UnitKind::Logger,
            &self.logger_descriptions,
            &mut self.dirty_loggers,
            &mut self.unit_status,
            &mut self.unit_manager,
        );
        let ghost ll = *self;
        load_compat_kind(
            UnitKind::Trigger,
            &self.trigger_descriptions,
            &mut self.dirty_triggers,
            &mut self.unit_status,
            &mut self.unit_manager,
        );
        let ghost lt = *self;
        load_compat_kind(
            UnitKind::Test,
            &self.test_descriptions,
            &mut self.dirty_tests,
            &mut self.unit_status,
            &mut self.unit_manager,
        );
        let ghost lte = *self;
        self.dirty_tests.clear();
        load_compat_kind(
            UnitKind::Scenario,
            &self.scenario_descriptions,
            &mut self.dirty_scenarios,
            &mut self.unit_status,
            &mut self.unit_manager,
        );
        let ghost ls = *self;
        self.dirty_scenarios.clear();
        let ghost lib5 = *self;
        select_and_activate(&mut self.dirty_jigs, &mut self.unit_manager);
        let ghost sa1 = *self;
        select_and_activate(&mut self.dirty_interfaces, &mut self.unit_manager);
        let ghost sa2 = *self;
        select_and_activate(&mut self.dirty_loggers, &mut self.unit_manager);
        let ghost sa3 = *self;
        select_and_activate(&mut self.dirty_triggers, &mut self.unit_manager);
        let ghost sa4 = *self;
        self.unit_manager.refresh_defaults();
        proof {
            crate::unitmanager::lemma_refreshed_stable(
                lib5.manager().default_jig_view(),
                lib5.manager().jig_names(),
            );
            crate::unitmanager::lemma_refreshed_stable(
                lib5.manager().default_scenario_view(),
                lib5.manager().scenario_names(),
            );
        }
        self.broadcaster.broadcast(UnitEvent::RescanFinish);
        proof {
            assert forall|n: UnitNameView|
                old(self).dirty(n) && evictable(old(self).status_table(), n) implies #[trigger]
            self.status_table().get_spec(n) is None && !self.jig_store().contains_key(n)
                && !self.interface_store().contains_key(n) && !self.logger_store().contains_key(n)
                && !self.scenario_store().contains_key(n) && !self.test_store().contains_key(n)
                && !self.trigger_store().contains_key(n) && not_loaded_any(self.manager(), n)
                && !self.manager().is_selected(n) by {
                assert(lib2.dirty(n));
                assert(evictable(lib2.status_table(), n));
                assert(lib3.status_table().get_spec(n) is None);
                assert(!lib3.dirty_jigs_set().has(n) && !lib3.dirty_interfaces_set().has(n)
                    && !lib3.dirty_loggers_set().has(n) && !lib3.dirty_scenarios_set().has(n)
                    && !lib3.dirty_tests_set().has(n) && !lib3.dirty_triggers_set().has(n));
                assert(!lib3.manager().is_selected(n));
                assert(not_loaded_any(lib3.manager(), n));
                assert(lib4.status_table().get_spec(n) is None);
                assert(not_loaded_any(lib4.manager(), n));
                assert(!lib4.manager().is_selected(n));
                assert(li.status_table().get_spec(n) is None);
                assert(not_loaded_any(li.manager(), n));
                assert(!li.manager().is_selected(n));
                assert(ll.status_table().get_spec(n) is None);
                assert(not_loaded_any(ll.manager(), n));
                assert(!ll.manager().is_selected(n));
                assert(lt.status_table().get_spec(n) is None);
                assert(not_loaded_any(lt.manager(), n));
                assert(!lt.manager().is_selected(n));
                assert(lte.status_table().get_spec(n) is None);
                assert(not_loaded_any(lte.manager(), n));
                assert(!lte.manager().is_selected(n));
                assert(ls.status_table().get_spec(n) is None);
                assert(not_loaded_any(ls.manager(), n));
                assert(!ls.manager().is_selected(n));
                assert(!lib5.dirty_jigs_set().has(n) && !lib5.dirty_interfaces_set().has(n)
                    && !lib5.dirty_loggers_set().has(n) && !lib5.dirty_triggers_set().has(n));
                assert(!sa1.manager().is_selected(n));
                assert(not_loaded_any(sa1.manager(), n));
                assert(!sa2.manager().is_selected(n));
                assert(not_loaded_any(sa2.manager(), n));
                assert(!sa3.manager().is_selected(n));
                assert(not_loaded_any(sa3.manager(), n));
                assert(!sa4.manager().is_selected(n));
                assert(not_loaded_any(sa4.manager(), n));
            }
            assert forall|n: UnitNameView|
                !((#[trigger] self.status_table().get_spec(n)) matches Some(s) && s@
                    is UnloadStarted) by {
                if self.status_table().get_spec(n) matches Some(s) && s@ is UnloadStarted {
                    assert(lib3.status_table().get_spec(n) == self.status_table().get_spec(n));
                    assert(false);
                }
            }
            assert forall|n: UnitNameView|
                #[trigger] self.status_table().contains_key(n) implies n.kind
                != UnitKind::Internal by {
                if n.kind == UnitKind::Internal {
                    assert(!lib3.dirty_interfaces_set().has(n));
                    assert(!lib3.dirty_loggers_set().has(n));
                    assert(!lib3.dirty_triggers_set().has(n));
                    assert(!lib3.dirty_tests_set().has(n));
                    assert(!lib3.dirty_scenarios_set().has(n));
                    assert(ls.status_table().contains_key(n) && ls.status_table().get_spec(n)
                        == self.status_table().get_spec(n));
                    assert(lte.status_table().contains_key(n));
                    assert(lt.status_table().contains_key(n));
                    assert(ll.status_table().contains_key(n));
                    assert(li.status_table().contains_key(n));
                    assert(lib4.status_table().contains_key(n));
                    assert(lib3.status_table().contains_key(n));
                    assert(!lib2.dirty_jigs_set().has(n));
                    assert(!lib2.dirty_tests_set().has(n));
                    assert(!lib2.dirty_scenarios_set().has(n));
                    assert(!lib2.dirty_interfaces_set().has(n));
                    assert(!lib2.dirty_loggers_set().has(n));
                    assert(!lib2.dirty_triggers_set().has(n));
                    assert(ev1.status_table().get_spec(n) == lib2.status_table().get_spec(n)
                        && ev1.status_table().contains_key(n) == lib2.status_table().contains_key(
                        n,
                    ));
                    assert(ev2.status_table().contains_key(n) == lib2.status_table().contains_key(
                        n,
                    ));
                    assert(ev3.status_table().contains_key(n) == lib2.status_table().contains_key(
                        n,
                    ));
                    assert(ev4.status_table().contains_key(n) == lib2.status_table().contains_key(
                        n,
                    ));
                    assert(ev5.status_table().contains_key(n) == lib2.status_table().contains_key(
                        n,
                    ));
                    assert(lib2.status_table().contains_key(n));
                    assert(false);
                }
            }
            assert forall|n: UnitNameView|
                (old(self).dirty_jigs_set().has(n) && is_lu(old(self).status_table(), n) && old(self).jig_store().contains_key(n)) implies #[trigger] self.manager().jig_loaded(n)
                && self.manager().is_selected(n) by {
                assert(lib2.dirty_jigs_set().has(n));
                assert(is_lu(lib2.status_table(), n));
                assert(!evictable(lib2.status_table(), n));
                assert(!lib2.dirty_tests_set().has(n));
                assert(!lib2.dirty_scenarios_set().has(n));
                assert(!lib2.dirty_interfaces_set().has(n));
                assert(!lib2.dirty_loggers_set().has(n));
                assert(!lib2.dirty_triggers_set().has(n));
                assert(ev1.status_table().get_spec(n) == lib2.status_table().get_spec(n));
                assert(ev2.status_table().get_spec(n) == lib2.status_table().get_spec(n));
                assert(ev3.status_table().get_spec(n) == lib2.status_table().get_spec(n));
                assert(ev4.status_table().get_spec(n) == lib2.status_table().get_spec(n));
                assert(ev5.status_table().get_spec(n) == lib2.status_table().get_spec(n));
                assert(lib3.status_table().get_spec(n) == lib2.status_table().get_spec(n));
                assert(lib3.dirty_jigs_set().has(n));
                assert(is_lu(lib3.status_table(), n));
                assert(lib3.jig_store().contains_key(n));
                assert(lib4.manager().jig_loaded(n));
                assert(lib4.dirty_jigs_set().has(n));
                assert(lib5.dirty_jigs_set().has(n));
                assert(sa1.manager().is_selected(n));
                assert(sa2.manager().is_selected(n));
                assert(sa3.manager().is_selected(n));
                assert(sa4.manager().is_selected(n));
                assert(self.manager().jig_loaded(n) == lib4.manager().jig_loaded(n));
            }
            assert forall|n: UnitNameView|
                (old(self).dirty_interfaces_set().has(n) && is_lu(old(self).status_table(), n) && (
                #[trigger] old(self).interface_store().get_spec(n)) is Some) implies ({
                let d = old(self).interface_store().get_spec(n)->Some_0;
                if crate::unitmanager::jigs_compatible(d@.jigs, self.manager()) {
                    self.manager().interface_loaded(n) && self.manager().interface_child(n) is None
                        && self.manager().is_selected(n) && has_spawn(
                        self.manager().action_log(),
                        n,
                    )
                } else {
                    self.status_of(n) == Some(UnitStatusView::LoadFailed("incompatible jig"@))
                        && !self.manager().is_selected(n)
                }
            }) by {
                let d = old(self).interface_store().get_spec(n)->Some_0;
                assert(lib2.dirty_interfaces_set().has(n));
                assert(n.kind == UnitKind::Interface);
                assert(!lib2.dirty_jigs_set().has(n));
                assert(!lib2.dirty_tests_set().has(n));
                assert(!lib2.dirty_scenarios_set().has(n));
                assert(!lib2.dirty_loggers_set().has(n));
                assert(!lib2.dirty_triggers_set().has(n));
                assert(ev1.status_table().get_spec(n) == lib2.status_table().get_spec(n));
                assert(ev2.status_table().get_spec(n) == lib2.status_table().get_spec(n));
                assert(ev3.status_table().get_spec(n) == lib2.status_table().get_spec(n));
                assert(!evictable(lib2.status_table(), n));
                assert(lib3.dirty_interfaces_set().has(n));
                assert(ev4.status_table().get_spec(n) == lib2.status_table().get_spec(n));
                assert(ev5.status_table().get_spec(n) == lib2.status_table().get_spec(n));
                assert(lib3.status_table().get_spec(n) == lib2.status_table().get_spec(n));
                assert(lib3.interface_store().get_spec(n) == old(self).interface_store().get_spec(
                    n,
                ));
                assert(lib4.dirty_interfaces_set().has(n));
                assert(is_lu(lib4.status_table(), n));
                assert(forall|m: UnitNameView|
                    #[trigger] li.manager().jig_loaded(m) == lib4.manager().jig_loaded(m));
                assert(forall|m: UnitNameView|
                    #[trigger] ll.manager().jig_loaded(m) == lib4.manager().jig_loaded(m));
                assert(forall|m: UnitNameView|
                    #[trigger] lt.manager().jig_loaded(m) == lib4.manager().jig_loaded(m));
                assert(forall|m: UnitNameView|
                    #[trigger] lte.manager().jig_loaded(m) == lib4.manager().jig_loaded(m));
                assert(forall|m: UnitNameView|
                    #[trigger] ls.manager().jig_loaded(m) == lib4.manager().jig_loaded(m));
                assert(forall|m: UnitNameView|
                    #[trigger] self.manager().jig_loaded(m) == lib4.manager().jig_loaded(m));
                crate::unitmanager::lemma_compat_same(d@.jigs, self.manager(), lib4.manager());
                if crate::unitmanager::jigs_compatible(d@.jigs, lib4.manager()) {
                    assert(li.manager().interface_loaded(n) && li.manager().interface_child(n)
                        is None);
                    assert(li.dirty_interfaces_set().has(n));
                    assert(ll.manager().interface_loaded(n) && ll.manager().interface_child(n)
                        is None);
                    assert(lt.manager().interface_loaded(n) && lt.manager().interface_child(n)
                        is None);
                    assert(lte.manager().interface_loaded(n) && lte.manager().interface_child(n)
                        is None);
                    assert(ls.manager().interface_loaded(n) && ls.manager().interface_child(n)
                        is None);
                    assert(lib5.dirty_interfaces_set().has(n));
                    assert(sa1.dirty_interfaces_set().has(n));
                    assert(sa2.manager().is_selected(n));
                    assert(has_spawn(sa2.manager().action_log(), n));
                    assert(sa3.manager().is_selected(n));
                    assert(sa2.manager().action_log().len() <= sa3.manager().action_log().len()
                        && forall|ix: int|
                        0 <= ix < sa2.manager().action_log().len()
                            ==> #[trigger] sa3.manager().action_log()[ix]
                            == sa2.manager().action_log()[ix]);
                    lemma_has_spawn_extends(
                        sa2.manager().action_log(),
                        sa3.manager().action_log(),
                        n,
                    );
                    assert(sa4.manager().is_selected(n));
                    assert(sa3.manager().action_log().len() <= sa4.manager().action_log().len()
                        && forall|ix: int|
                        0 <= ix < sa3.manager().action_log().len()
                            ==> #[trigger] sa4.manager().action_log()[ix]
                            == sa3.manager().action_log()[ix]);
                    lemma_has_spawn_extends(
                        sa3.manager().action_log(),
                        sa4.manager().action_log(),
                        n,
                    );
                    assert(self.manager().action_log() == sa4.manager().action_log());
                } else {
                    assert(li.status_table().get_spec(n) matches Some(st) && st@
                        == UnitStatusView::LoadFailed("incompatible jig"@));
                    assert(!li.manager().is_selected(n));
                    assert(!li.dirty_interfaces_set().has(n));
                    assert(ll.status_table().get_spec(n) == li.status_table().get_spec(n));
                    assert(lt.status_table().get_spec(n) == li.status_table().get_spec(n));
                    assert(lte.status_table().get_spec(n) == li.status_table().get_spec(n));
                    assert(ls.status_table().get_spec(n) == li.status_table().get_spec(n));
                    assert(!ll.manager().is_selected(n));
                    assert(!lt.manager().is_selected(n));
                    assert(!lte.manager().is_selected(n));
                    assert(!ls.manager().is_selected(n));
                    assert(!lib5.dirty_jigs_set().has(n) && !lib5.dirty_interfaces_set().has(n)
                        && !lib5.dirty_loggers_set().has(n) && !lib5.dirty_triggers_set().has(n));
                    assert(!sa1.manager().is_selected(n));
                    assert(!sa2.manager().is_selected(n));
                    assert(!sa3.manager().is_selected(n));
                    assert(!sa4.manager().is_selected(n));
                }
            }
        }
    }
}

impl UnitLibrary {
    /// Writes a failure status for a unit and broadcasts it.
    fn note_failure(&mut self, name: &UnitName, reason: String)
        requires
            old(self).wf(),
            name@.kind != UnitKind::Internal,
        ensures
            final(self).wf(),
            final(self).status_of(name@) == Some(UnitStatusView::LoadFailed(reason@)),
            forall|n: UnitNameView|
                n != name@ ==> UnitLibrary::same_at(*final(self), *old(self), n),
            forall|n: UnitNameView| final(self).dirty(n) == old(self).dirty(n),
            final(self).manager() == old(self).manager(),
            final(self).jig_store() == old(self).jig_store(),
            final(self).interface_store() == old(self).interface_store(),
            final(self).logger_store() == old(self).logger_store(),
            final(self).scenario_store() == old(self).scenario_store(),
            final(self).test_store() == old(self).test_store(),
            final(self).trigger_store() == old(self).trigger_store(),
            final(self).log() == old(self).log().push(
                UnitEventView::Status(
                    UnitStatusEventView {
                        name: name@,
                        status: UnitStatusView::LoadFailed(reason@),
                    },
                ),
            ),
{
        self.unit_status.insert(name.dup(), UnitStatus::LoadFailed(reason.clone()));
        self.broadcaster.broadcast(
            UnitEvent::Status(UnitStatusEvent::new_load_failed(name, reason)),
        );
    }

    /// Ingests one load or update of a unit file: the unit is marked dirty,
    /// the file is parsed, and either the new description replaces the old
    /// one — reporting the kind's new on-disk count — or the failure is
    /// recorded and broadcast. `ingest_spec` fixes the outcome exactly.
    #[verifier::rlimit(60)]
    fn ingest(&mut self, name: &UnitName, status: UnitStatus, path: &String, file: &Result<
        String,
        String,
    >)
        requires
            old(self).wf(),
            name@.kind != UnitKind::Internal,
            status@ is LoadStarted || status@ is UpdateStarted,
        ensures
            final(self).wf(),
            final(self).dirty(name@),
            final(self).status_of(name@) is Some,
            forall|n: UnitNameView|
                n != name@ ==> UnitLibrary::same_at(*final(self), *old(self), n),
            final(self).manager() == old(self).manager(),
            old(self).log().is_prefix_of(final(self).log()),
            final(self).log().len() == old(self).log().len() + 1,
            ingest_spec(
                *old(self),
                *final(self),
                name@,
                status@,
                path@,
                file_view(*file),
            ),
    {
        let ghost sv0 = status@;
        self.mark_dirty(name);
        let ghost s1 = *self;
        let text = match file {
            Ok(t) => t,
            Err(io) => {
                let reason = String::from_str("unreadable unit file: ").concat(io.as_str());
                self.note_failure(name, reason);
                proof {
                    assert(self.log() =~= old(self).log().push(self.log().last()));
                    assert(old(self).log().is_prefix_of(self.log()));
                    assert forall|n: UnitNameView| n != name@ implies UnitLibrary::same_at(
                        *self,
                        *old(self),
                        n,
                    ) by {
                        assert(UnitLibrary::same_at(s1, *old(self), n));
                        assert(UnitLibrary::same_at(*self, s1, n));
                    }
                }
                return ;
            },
        };
        let ghost section: Seq<char> = if name@.kind == UnitKind::Interface {
            "Interface"@
        } else {
            match crate::unit::from_path_spec(path@) {
                Ok(nv) => section_name(nv.kind),
                Err(_) => Seq::empty(),
            }
        };
        let ghost dset: Set<(Seq<char>, Option<Seq<char>>)> = match unit_file_section(
            text@,
            section,
        ) {
            Ok(Some(d)) => d,
            _ => Set::empty(),
        };
        match name.kind() {
            UnitKind::Interface => {
                let parsed = InterfaceDescription::from_contents(path.as_str(), text.as_str());
                let ghost pv: Result<InterfaceDescriptionView, UnitDescriptionErrorView> = match &parsed {
                    Ok(d) => Ok(d@),
                    Err(e) => Err(e@),
                };
                proof {
                    if crate::unit::from_path_spec(path@) is Ok && (unit_file_section(
                        text@,
                        section,
                    ) matches Ok(o) && o is Some) {
                        assert(section == "Interface"@);
                        assert(unit_file_section(text@, section) matches Ok(o2) && o2 matches Some(
                            d2,
                        ) && d2 == dset);
                        assert(exists|es: Seq<Option<(Seq<char>, Option<Seq<char>>)>>|
                            #[trigger] entries_match(es, dset) && (match interface_desc_spec(
                                path@,
                                es,
                            ) {
                                Ok(dv) => pv == Ok::<
                                    InterfaceDescriptionView,
                                    UnitDescriptionErrorView,
                                >(dv),
                                Err(ev) => pv == Err::<
                                    InterfaceDescriptionView,
                                    UnitDescriptionErrorView,
                                >(ev),
                            }));
                    }
                }
                let ghost es0 = choose|es: Seq<Option<(Seq<char>, Option<Seq<char>>)>>|
                    #[trigger] entries_match(es, dset) && (match interface_desc_spec(path@, es) {
                        Ok(dv) => pv == Ok::<InterfaceDescriptionView, UnitDescriptionErrorView>(
                            dv,
                        ),
                        Err(ev) => pv == Err::<InterfaceDescriptionView, UnitDescriptionErrorView>(
                            ev,
                        ),
                    });
                match parsed {
                    Err(e) => {
                        let reason = e.message();
                        self.note_failure(name, reason);
                    },
                    Ok(d) => {
                        if !d.id().eq_name(name) {
                            let reason = String::from_str("unit file does not match its path");
                            self.note_failure(name, reason);
                        } else {
                            let ghost dv0 = d@;
                            self.interface_descriptions.insert(name.dup(), d);
                            proof {
                                crate::storage::lemma_entries_ok_preserved(
                                    old(self).interface_store(),
                                    self.interface_descriptions,
                                    name@,
                                    iface_entry_ok(),
                                );
                            }
                            self.unit_status.insert(name.dup(), status);
                            let count = self.interface_descriptions.len();
                            let msg = String::from_str("Number of units on disk: ").concat(
                                u64_dec_string(count as u64).as_str(),
                            );
                            self.broadcaster.broadcast(
                                UnitEvent::Category(
                                    UnitCategoryEvent::new(UnitKind::Interface, msg),
                                ),
                            );
                            proof {
                                assert(stored_interface(*old(self), *self, name@, sv0, dv0));
                            }
                        }
                    },
                }
                proof {
                    if crate::unit::from_path_spec(path@) is Ok && (unit_file_section(
                        text@,
                        section,
                    ) matches Ok(o) && o is Some) {
                        assert(entries_match(es0, dset));
                        assert(unit_file_section(text@, "Interface"@) == Ok::<
                            Option<Set<(Seq<char>, Option<Seq<char>>)>>,
                            Seq<char>,
                        >(Some(dset)));
                        assert(match interface_desc_spec(path@, es0) {
                            Err(ev) => failed_ingest(*old(self), *self, name@, desc_error_msg(ev)),
                            Ok(dv) => if dv.id == name@ {
                                stored_interface(*old(self), *self, name@, sv0, dv)
                            } else {
                                failed_ingest(
                                    *old(self),
                                    *self,
                                    name@,
                                    "unit file does not match its path"@,
                                )
                            },
                        });
                        assert(exists|es: Seq<Option<(Seq<char>, Option<Seq<char>>)>>|
                            #[trigger] entries_match(es, dset) && (match interface_desc_spec(
                                path@,
                                es,
                            ) {
                                Err(ev) => failed_ingest(
                                    *old(self),
                                    *self,
                                    name@,
                                    desc_error_msg(ev),
                                ),
                                Ok(dv) => if dv.id == name@ {
                                    stored_interface(*old(self), *self, name@, sv0, dv)
                                } else {
                                    failed_ingest(
                                        *old(self),
                                        *self,
                                        name@,
                                        "unit file does not match its path"@,
                                    )
                                },
                            }));
                        lemma_ingest_iface(*old(self), *self, name@, sv0, path@, text@, dset, es0);
                    }
                }
            },
            _ => {
                let parsed = Description::from_contents(path.as_str(), text.as_str());
                let ghost pv: Result<DescriptionView, UnitDescriptionErrorView> = match &parsed {
                    Ok(d) => Ok(d@),
                    Err(e) => Err(e@),
                };
                proof {
                    if crate::unit::from_path_spec(path@) is Ok && (unit_file_section(
                        text@,
                        section,
                    ) matches Ok(o) && o is Some) {
                        assert(crate::unit::from_path_spec(path@) matches Ok(nv2) && section
                            == section_name(nv2.kind));
                        assert(unit_file_section(text@, section) matches Ok(o2) && o2 matches Some(
                            d2,
                        ) && d2 == dset);
                        assert(exists|es: Seq<Option<(Seq<char>, Option<Seq<char>>)>>|
                            #[trigger] entries_match(es, dset) && (match description_spec(
                                path@,
                                es,
                            ) {
                                Ok(dv) => parsed matches Ok(d) && d@ == dv,
                                Err(ev) => parsed matches Err(e) && e@ == ev,
                            }));
                        let wes = choose|es: Seq<Option<(Seq<char>, Option<Seq<char>>)>>|
                            #[trigger] entries_match(es, dset) && (match description_spec(
                                path@,
                                es,
                            ) {
                                Ok(dv) => parsed matches Ok(d) && d@ == dv,
                                Err(ev) => parsed matches Err(e) && e@ == ev,
                            });
                        assert(match description_spec(path@, wes) {
                            Ok(dv) => pv == Ok::<DescriptionView, UnitDescriptionErrorView>(dv),
                            Err(ev) => pv == Err::<DescriptionView, UnitDescriptionErrorView>(ev),
                        });
                        assert(exists|es: Seq<Option<(Seq<char>, Option<Seq<char>>)>>|
                            #[trigger] entries_match(es, dset) && (match description_spec(
                                path@,
                                es,
                            ) {
                                Ok(dv) => pv == Ok::<DescriptionView, UnitDescriptionErrorView>(dv),
                                Err(ev) => pv == Err::<DescriptionView, UnitDescriptionErrorView>(
                                    ev,
                                ),
                            }));
                    }
                }
                let ghost es0 = choose|es: Seq<Option<(Seq<char>, Option<Seq<char>>)>>|
                    #[trigger] entries_match(es, dset) && (match description_spec(path@, es) {
                        Ok(dv) => pv == Ok::<DescriptionView, UnitDescriptionErrorView>(dv),
                        Err(ev) => pv == Err::<DescriptionView, UnitDescriptionErrorView>(ev),
                    });
                match parsed {
                    Err(e) => {
                        let reason = e.message();
                        self.note_failure(name, reason);
                    },
                    Ok(d) => {
                        if !d.id().eq_name(name) {
                            let reason = String::from_str("unit file does not match its path");
                            self.note_failure(name, reason);
                        } else {
                            let ghost dv0 = d@;
                            let count: usize;
                            match name.kind() {
                                UnitKind::Jig => {
                                    self.jig_descriptions.insert(name.dup(), d);
                                    proof {
                                        crate::storage::lemma_entries_ok_preserved(
                                            old(self).jig_store(),
                                            self.jig_descriptions,
                                            name@,
                                            desc_entry_ok(UnitKind::Jig),
                                        );
                                    }
                                    count = self.jig_descriptions.len();
                                },
                                UnitKind::Logger => {
                                    self.logger_descriptions.insert(name.dup(), d);
                                    proof {
                                        crate::storage::lemma_entries_ok_preserved(
                                            old(self).logger_store(),
                                            self.logger_descriptions,
                                            name@,
                                            desc_entry_ok(UnitKind::Logger),
                                        );
                                    }
                                    count = self.logger_descriptions.len();
                                },
                                UnitKind::Scenario => {
                                    self.scenario_descriptions.insert(name.dup(), d);
                                    proof {
                                        crate::storage::lemma_entries_ok_preserved(
                                            old(self).scenario_store(),
                                            self.scenario_descriptions,
                                            name@,
                                            desc_entry_ok(UnitKind::Scenario),
                                        );
                                    }
                                    count = self.scenario_descriptions.len();
                                },
                                UnitKind::Test => {
                                    self.test_descriptions.insert(name.dup(), d);
                                    proof {
                                        crate::storage::lemma_entries_ok_preserved(
                                            old(self).test_store(),
                                            self.test_descriptions,
                                            name@,
                                            desc_entry_ok(UnitKind::Test),
                                        );
                                    }
                                    count = self.test_descriptions.len();
                                },
                                _ => {
                                    self.trigger_descriptions.insert(name.dup(), d);
                                    proof {
                                        crate::storage::lemma_entries_ok_preserved(
                                            old(self).trigger_store(),
                                            self.trigger_descriptions,
                                            name@,
                                            desc_entry_ok(UnitKind::Trigger),
                                        );
                                    }
                                    count = self.trigger_descriptions.len();
                                },
                            }
                            self.unit_status.insert(name.dup(), status);
                            let msg = String::from_str("Number of units on disk: ").concat(
                                u64_dec_string(count as u64).as_str(),
                            );
                            self.broadcaster.broadcast(
                                UnitEvent::Category(UnitCategoryEvent::new(name.kind(), msg)),
                            );
                            proof {
                                assert(stored_description(*old(self), *self, name@, sv0, dv0));
                            }
                        }
                    },
                }
                proof {
                    if crate::unit::from_path_spec(path@) is Ok && (unit_file_section(
                        text@,
                        section,
                    ) matches Ok(o) && o is Some) {
                        assert(entries_match(es0, dset));
                        assert(unit_file_section(
                            text@,
                            section_name(crate::unit::from_path_spec(path@)->Ok_0.kind),
                        ) == Ok::<Option<Set<(Seq<char>, Option<Seq<char>>)>>, Seq<char>>(
                            Some(dset),
                        ));
                        assert(match description_spec(path@, es0) {
                            Err(ev) => failed_ingest(*old(self), *self, name@, desc_error_msg(ev)),
                            Ok(dv) => if dv.id == name@ {
                                stored_description(*old(self), *self, name@, sv0, dv)
                            } else {
                                failed_ingest(
                                    *old(self),
                                    *self,
                                    name@,
                                    "unit file does not match its path"@,
                                )
                            },
                        });
                        assert(exists|es: Seq<Option<(Seq<char>, Option<Seq<char>>)>>|
                            #[trigger] entries_match(es, dset) && (match description_spec(
                                path@,
                                es,
                            ) {
                                Err(ev) => failed_ingest(
                                    *old(self),
                                    *self,
                                    name@,
                                    desc_error_msg(ev),
                                ),
                                Ok(dv) => if dv.id == name@ {
                                    stored_description(*old(self), *self, name@, sv0, dv)
                                } else {
                                    failed_ingest(
                                        *old(self),
                                        *self,
                                        name@,
                                        "unit file does not match its path"@,
                                    )
                                },
                            }));
                        lemma_ingest_desc(*old(self), *self, name@, sv0, path@, text@, dset, es0);
                    }
                }
            },
        }
        proof {
            assert(self.log() =~= old(self).log().push(self.log().last()));
            assert(old(self).log().is_prefix_of(self.log()));
            assert forall|n: UnitNameView| n != name@ implies UnitLibrary::same_at(
                *self,
                *old(self),
                n,
            ) by {
                assert(UnitLibrary::same_at(s1, *old(self), n));
                assert(UnitLibrary::same_at(*self, s1, n));
            }
            assert(file_view(*file) matches Ok(t) && t == text@);
            match crate::unit::from_path_spec(path@) {
                Err(m) => {
                    assert(failed_ingest(
                        *old(self),
                        *self,
                        name@,
                        desc_error_msg(UnitDescriptionErrorView::InvalidName(m)),
                    ));
                },
                Ok(nv) => {
                    match unit_file_section(text@, section) {
                        Err(m) => {
                            assert(failed_ingest(
                                *old(self),
                                *self,
                                name@,
                                desc_error_msg(UnitDescriptionErrorView::Parse(m)),
                            ));
                        },
                        Ok(o) => {
                            match o {
                                None => {
                                    assert(failed_ingest(
                                        *old(self),
                                        *self,
                                        name@,
                                        desc_error_msg(
                                            UnitDescriptionErrorView::MissingSection(section),
                                        ),
                                    ));
                                },
                                Some(_) => {},
                            }
                        },
                    }
                },
            }
            if name@.kind == UnitKind::Interface {
                assert(ingest_spec(*old(self), *self, name@, sv0, path@, file_view(*file)));
            } else {
                assert(ingest_spec(*old(self), *self, name@, sv0, path@, file_view(*file)));
            }
        }
    }

    /// Handles one bus event. A filesystem status event routes the unit into
    /// its kind's dirty set and refreshes the parsed description — except
    /// that a modification of a test is deliberately left to the jig-driven
    /// invalidation of the next rescan. A rescan request runs the rescan.
    /// Every event is forwarded to the unit manager afterwards.
    pub fn process_message(&mut self, event: &UnitEvent, file: &Result<String, String>)
        requires
            old(self).wf(),
        ensures
            final(self).wf(),
            old(self).log().is_prefix_of(final(self).log()),
            final(self).manager() == old(self).manager() || event@ is RescanRequest,
            event@ matches UnitEventView::Status(se) ==> ({
                &&& (se.status is LoadStarted && se.name.kind != UnitKind::Internal) ==> final(self).dirty(se.name) && final(self).status_of(se.name) is Some
                &&& (se.status is UpdateStarted && se.name.kind != UnitKind::Internal
                    && se.name.kind != UnitKind::Test) ==> final(self).dirty(se.name) && final(self).status_of(se.name) is Some
                &&& (se.status matches UnitStatusView::LoadStarted(p) ==> (se.name.kind
                    != UnitKind::Internal ==> ingest_spec(
                    *old(self),
                    *final(self),
                    se.name,
                    UnitStatusView::LoadStarted(p),
                    p,
                    file_view(*file),
                )))
                &&& (se.status matches UnitStatusView::UpdateStarted(p) ==> (se.name.kind
                    != UnitKind::Internal && se.name.kind != UnitKind::Test ==> ingest_spec(
                    *old(self),
                    *final(self),
                    se.name,
                    UnitStatusView::UpdateStarted(p),
                    p,
                    file_view(*file),
                )))
                &&& (se.status is LoadStarted && se.name.kind == UnitKind::Internal) ==> *final(self)
                    == *old(self)
                &&& (se.status is UpdateStarted && (se.name.kind == UnitKind::Internal
                    || se.name.kind == UnitKind::Test)) ==> *final(self) == *old(self)
                &&& se.status is LoadFailed ==> *final(self) == *old(self)
                &&& (se.status matches UnitStatusView::UnloadStarted(p) ==> (se.name.kind
                    != UnitKind::Internal ==> final(self).dirty(se.name) && final(self).status_of(
                    se.name,
                ) == Some(UnitStatusView::UnloadStarted(p)) && stores_same_at(
                    *old(self),
                    *final(self),
                    se.name,
                ) && final(self).log() == old(self).log()))
                &&& (se.status is UnloadStarted && se.name.kind == UnitKind::Internal) ==> *final(self)
                    == *old(self)
                &&& forall|n: UnitNameView|
                    n != se.name ==> UnitLibrary::same_at(*final(self), *old(self), n)
            }),
            (event@ is Category || event@ is RescanStart || event@ is RescanFinish) ==> *final(self)
                == *old(self),
            event@ is RescanRequest ==> final(self).log() == old(self).log().push(
                UnitEventView::RescanStart,
            ).push(UnitEventView::RescanFinish) && (forall|n: UnitNameView| !final(self).dirty(n))
                && (forall|n: UnitNameView|
                !((#[trigger] final(self).status_table().get_spec(n)) matches Some(s) && s@
                    is UnloadStarted)),
{
        match event {
            UnitEvent::Status(msg) => {
                let name = msg.name().dup();
                match msg.status() {
                    UnitStatus::LoadStarted(path) => {
                        if !matches!(name.kind(), UnitKind::Internal) {
                            let p = path.clone();
                            self.ingest(&name, UnitStatus::LoadStarted(p.clone()), &p, file);
                        }
                    },
                    UnitStatus::UpdateStarted(path) => {
                        if !matches!(name.kind(), UnitKind::Internal) && !matches!(
                            name.kind(),
                            UnitKind::Test,
                        ) {
                            let p = path.clone();
                            self.ingest(&name, UnitStatus::UpdateStarted(p.clone()), &p, file);
                        }
                    },
                    UnitStatus::UnloadStarted(path) => {
                        if !matches!(name.kind(), UnitKind::Internal) {
                            self.mark_dirty(&name);
                            let ghost su = *self;
                            self.unit_status.insert(
                                name.dup(),
                                UnitStatus::UnloadStarted(path.clone()),
                            );
                            proof {
                                assert forall|n: UnitNameView| n != name@ implies
                                UnitLibrary::same_at(*self, *old(self), n) by {
                                    assert(UnitLibrary::same_at(su, *old(self), n));
                                    assert(UnitLibrary::same_at(*self, su, n));
                                }
                            }
                        }
                    },
                    UnitStatus::LoadFailed(_) => {},
                }
            },
            UnitEvent::RescanRequest => {
                self.rescan();
            },
            _ => {},
        }
        self.unit_manager.process_message(event);
    }
}

} // verus!
