//! The unit manager: holds the loaded and activated unit instances, decides
//! compatibility, and queues the spawn/terminate work that the process
//! supervisor performs for it.

use vstd::prelude::*;

use crate::config::Config;
use crate::description::Description;
use crate::interface::{
    Interface, InterfaceDescription, SpawnRequest, SpawnRequestView, TerminateRequest,
};
use crate::protocol::{ManagerControlMessage, ManagerControlMessageContents};
use crate::storage::{NameMap, NameSet};
use crate::unit::{UnitKind, UnitName, UnitNameView};
use crate::unitbroadcaster::UnitEvent;

verus! {

/// Why a unit cannot be loaded on this system.
#[derive(Clone, Copy, PartialEq, Eq, Structural, Debug)]
pub enum UnitIncompatibleReason {
    /// None of the jigs the unit lists is loaded.
    IncompatibleJig,
}

impl UnitIncompatibleReason {
    /// The reason rendered into a `LoadFailed` status.
    pub fn message(&self) -> (r: String)
        ensures
            r@ == "incompatible jig"@,
    {
        String::from_str("incompatible jig")
    }
}

/// Work the manager asks the process supervisor to do.
pub enum ManagerAction {
    Spawn(SpawnRequest),
    Terminate(TerminateRequest),
}

/// The abstract value of a manager action.
pub enum ManagerActionView {
    Spawn(crate::interface::SpawnRequestView),
    Terminate(crate::interface::TerminateRequestView),
}

impl View for ManagerAction {
    type V = ManagerActionView;

    open spec fn view(&self) -> ManagerActionView {
        match self {
            ManagerAction::Spawn(s) => ManagerActionView::Spawn(s@),
            ManagerAction::Terminate(t) => ManagerActionView::Terminate(t@),
        }
    }
}

/// A description is compatible when it lists no jig, or lists one that is
/// loaded.
pub open spec fn jigs_compatible(jigs: Seq<UnitNameView>, m: UnitManager) -> bool {
    jigs.len() == 0 || exists|j: UnitNameView| jigs.contains(j) && #[trigger] m.jig_loaded(j)
}

/// The views of a vector of actions.
pub open spec fn action_views(s: Seq<ManagerAction>) -> Seq<ManagerActionView> {
    s.map_values(|a: ManagerAction| a@)
}

/// The views of a vector of control messages.
pub open spec fn control_views(s: Seq<ManagerControlMessage>) -> Seq<
    crate::protocol::ManagerControlMessageView,
> {
    s.map_values(|m: ManagerControlMessage| m@)
}

/// The object in charge of units in memory.
pub struct UnitManager {
    config: Config,
    loaded_jigs: NameSet,
    loaded_tests: NameSet,
    loaded_loggers: NameSet,
    loaded_triggers: NameSet,
    scenarios: NameMap<Description>,
    interfaces: NameMap<Interface>,
    selected: NameSet,
    active_jig: Option<UnitName>,
    default_jig: Option<UnitName>,
    default_scenario: Option<UnitName>,
    actions: Vec<ManagerAction>,
    control: Vec<ManagerControlMessage>,
}

/// What a default selection becomes on refresh: kept while still loaded,
/// otherwise the first loaded unit, otherwise nothing.
pub open spec fn refreshed_default(cur: Option<UnitNameView>, names: Seq<UnitNameView>) -> Option<
    UnitNameView,
> {
    match cur {
        Some(d) => if names.contains(d) {
            Some(d)
        } else if names.len() > 0 {
            Some(names[0])
        } else {
            None
        },
        None => if names.len() > 0 {
            Some(names[0])
        } else {
            None
        },
    }
}

/// Refreshing a freshly refreshed default changes nothing.
pub proof fn lemma_refreshed_stable(cur: Option<UnitNameView>, names: Seq<UnitNameView>)
    ensures
        refreshed_default(refreshed_default(cur, names), names) == refreshed_default(cur, names),
{
    let r = refreshed_default(cur, names);
    match r {
        Some(d) => {
            if !names.contains(d) {
                assert(names.len() > 0);
                assert(names[0] == d);
                assert(names.contains(names[0]));
            }
        },
        None => {},
    }
}

/// Every loaded interface instance is stored under its own id.
pub open spec fn interface_ids_ok(m: NameMap<Interface>) -> bool {
    forall|i: int|
        0 <= i < m.keys().len() ==> (#[trigger] m.vals()[i])@.desc.id == m.keys()[i]
}

/// An instance looked up under a key carries that key as its id.
proof fn lemma_ids_ok_at(m: NameMap<Interface>, k: UnitNameView)
    requires
        m.wf(),
        interface_ids_ok(m),
        m.contains_key(k),
    ensures
        m.get_spec(k) matches Some(v) && v@.desc.id == k,
{
    let j = choose|j: int| 0 <= j < m.keys().len() && m.keys()[j] == k;
    m.lemma_at(j);
}

/// Id consistency survives any single-key change that keeps the changed
/// key's instance consistent.
proof fn lemma_ids_ok_preserved(prev: NameMap<Interface>, cur: NameMap<Interface>, k: UnitNameView)
    requires
        prev.wf(),
        cur.wf(),
        interface_ids_ok(prev),
        forall|k2: UnitNameView|
            k2 != k ==> #[trigger] cur.get_spec(k2) == prev.get_spec(k2) && cur.contains_key(k2)
                == prev.contains_key(k2),
        cur.contains_key(k) ==> (cur.get_spec(k) matches Some(v) && v@.desc.id == k),
    ensures
        interface_ids_ok(cur),
{
    assert forall|i: int| 0 <= i < cur.keys().len() implies (#[trigger] cur.vals()[i])@.desc.id
        == cur.keys()[i] by {
        cur.lemma_at(i);
        let key = cur.keys()[i];
        assert(cur.contains_key(key));
        if key != k {
            assert(prev.contains_key(key));
            lemma_ids_ok_at(prev, key);
        }
    }
}

/// Compatibility depends only on which jigs are loaded.
pub proof fn lemma_compat_same(jigs: Seq<UnitNameView>, a: UnitManager, b: UnitManager)
    requires
        forall|n: UnitNameView| #[trigger] a.jig_loaded(n) == b.jig_loaded(n),
    ensures
        jigs_compatible(jigs, a) == jigs_compatible(jigs, b),
{
    if jigs_compatible(jigs, a) && jigs.len() > 0 {
        let j = choose|j: UnitNameView| jigs.contains(j) && a.jig_loaded(j);
        assert(b.jig_loaded(j));
    }
    if jigs_compatible(jigs, b) && jigs.len() > 0 {
        let j = choose|j: UnitNameView| jigs.contains(j) && b.jig_loaded(j);
        assert(a.jig_loaded(j));
    }
}

impl UnitManager {
    pub closed spec fn wf(self) -> bool {
        &&& self.loaded_jigs.wf()
        &&& self.loaded_tests.wf()
        &&& self.loaded_loggers.wf()
        &&& self.loaded_triggers.wf()
        &&& self.scenarios.wf()
        &&& self.interfaces.wf()
        &&& self.selected.wf()
        &&& interface_ids_ok(self.interfaces)
        &&& forall|n: UnitNameView| #[trigger] self.loaded_jigs.has(n) ==> n.kind == UnitKind::Jig
        &&& forall|n: UnitNameView| #[trigger] self.loaded_tests.has(n) ==> n.kind == UnitKind::Test
        &&& forall|n: UnitNameView|
            #[trigger] self.loaded_loggers.has(n) ==> n.kind == UnitKind::Logger
        &&& forall|n: UnitNameView|
            #[trigger] self.loaded_triggers.has(n) ==> n.kind == UnitKind::Trigger
        &&& forall|n: UnitNameView|
            #[trigger] self.scenarios.contains_key(n) ==> n.kind == UnitKind::Scenario
        &&& forall|n: UnitNameView|
            #[trigger] self.interfaces.contains_key(n) ==> n.kind == UnitKind::Interface
    }

    /// A unit is loaded of some kind exactly when its name is among that
    /// kind's loaded names.
    pub proof fn lemma_scenario_contains(self)
        ensures
            forall|n: UnitNameView|
                #[trigger] self.scenario_loaded(n) <==> self.scenario_names().contains(n),
            forall|n: UnitNameView| #[trigger] self.jig_loaded(n) <==> self.jig_names().contains(n),
    {
    }

    /// Loaded units carry the kind of the store they sit in.
    pub proof fn lemma_loaded_kinds(self)
        requires
            self.wf(),
        ensures
            forall|n: UnitNameView| #[trigger] self.jig_loaded(n) ==> n.kind == UnitKind::Jig,
            forall|n: UnitNameView| #[trigger] self.test_loaded(n) ==> n.kind == UnitKind::Test,
            forall|n: UnitNameView| #[trigger] self.logger_loaded(n) ==> n.kind == UnitKind::Logger,
            forall|n: UnitNameView|
                #[trigger] self.trigger_loaded(n) ==> n.kind == UnitKind::Trigger,
            forall|n: UnitNameView|
                #[trigger] self.scenario_loaded(n) ==> n.kind == UnitKind::Scenario,
            forall|n: UnitNameView|
                #[trigger] self.interface_loaded(n) ==> n.kind == UnitKind::Interface,
            forall|n: UnitNameView|
                !self.interface_loaded(n) ==> #[trigger] self.interface_child(n) is None,
    {
    }

    pub closed spec fn jig_loaded(self, n: UnitNameView) -> bool {
        self.loaded_jigs.has(n)
    }

    pub closed spec fn jig_names(self) -> Seq<UnitNameView> {
        self.loaded_jigs.names()
    }

    pub closed spec fn test_loaded(self, n: UnitNameView) -> bool {
        self.loaded_tests.has(n)
    }

    pub closed spec fn logger_loaded(self, n: UnitNameView) -> bool {
        self.loaded_loggers.has(n)
    }

    pub closed spec fn trigger_loaded(self, n: UnitNameView) -> bool {
        self.loaded_triggers.has(n)
    }

    pub closed spec fn scenario_loaded(self, n: UnitNameView) -> bool {
        self.scenarios.contains_key(n)
    }

    pub closed spec fn scenario_names(self) -> Seq<UnitNameView> {
        self.scenarios.keys()
    }

    /// The composition of a loaded scenario.
    pub closed spec fn scenario_tests_at(self, i: int) -> Seq<UnitNameView> {
        self.scenarios.vals()[i]@.tests
    }

    pub closed spec fn interface_loaded(self, n: UnitNameView) -> bool {
        self.interfaces.contains_key(n)
    }

    /// The description of a loaded interface, if any.
    pub closed spec fn interface_desc(self, n: UnitNameView) -> Option<
        crate::interface::InterfaceDescriptionView,
    > {
        match self.interfaces.get_spec(n) {
            Some(inst) => Some(inst@.desc),
            None => None,
        }
    }

    /// The child attached to a loaded interface, if any.
    pub closed spec fn interface_child(self, n: UnitNameView) -> Option<u64> {
        match self.interfaces.get_spec(n) {
            Some(inst) => inst@.process,
            None => None,
        }
    }

    pub closed spec fn is_selected(self, n: UnitNameView) -> bool {
        self.selected.has(n)
    }

    pub closed spec fn active_jig_view(self) -> Option<UnitNameView> {
        match self.active_jig {
            Some(n) => Some(n@),
            None => None,
        }
    }

    pub closed spec fn default_jig_view(self) -> Option<UnitNameView> {
        match self.default_jig {
            Some(n) => Some(n@),
            None => None,
        }
    }

    pub closed spec fn default_scenario_view(self) -> Option<UnitNameView> {
        match self.default_scenario {
            Some(n) => Some(n@),
            None => None,
        }
    }

    /// The queue of supervisor work not yet taken.
    pub closed spec fn action_log(self) -> Seq<ManagerActionView> {
        action_views(self.actions@)
    }

    /// The queue of control messages not yet taken.
    pub closed spec fn control_log(self) -> Seq<crate::protocol::ManagerControlMessageView> {
        control_views(self.control@)
    }

    /// Everything except the two queues, the selection, the active jig and
    /// the defaults is as it was.
    pub open spec fn same_loaded(self, other: UnitManager) -> bool {
        &&& forall|n: UnitNameView| #[trigger] self.jig_loaded(n) == other.jig_loaded(n)
        &&& forall|n: UnitNameView| #[trigger] self.test_loaded(n) == other.test_loaded(n)
        &&& forall|n: UnitNameView| #[trigger] self.logger_loaded(n) == other.logger_loaded(n)
        &&& forall|n: UnitNameView| #[trigger] self.trigger_loaded(n) == other.trigger_loaded(n)
        &&& forall|n: UnitNameView| #[trigger] self.scenario_loaded(n) == other.scenario_loaded(n)
        &&& forall|n: UnitNameView| #[trigger] self.interface_loaded(n) == other.interface_loaded(
            n,
        )
        &&& forall|n: UnitNameView| #[trigger] self.interface_child(n) == other.interface_child(n)
    }

    pub fn new(config: Config) -> (r: UnitManager)
        ensures
            r.wf(),
            forall|n: UnitNameView| !r.jig_loaded(n) && !r.test_loaded(n),
            forall|n: UnitNameView| !r.logger_loaded(n) && !r.trigger_loaded(n),
            forall|n: UnitNameView| !r.scenario_loaded(n) && !r.interface_loaded(n),
            forall|n: UnitNameView| !r.is_selected(n),
            r.action_log().len() == 0,
            r.control_log().len() == 0,
            r.scenario_names().len() == 0,
            r.jig_names().len() == 0,
            r.active_jig_view() is None,
            r.default_jig_view() is None,
            r.default_scenario_view() is None,
    {
        let r = UnitManager {
            config,
            loaded_jigs: NameSet::new(),
            loaded_tests: NameSet::new(),
            loaded_loggers: NameSet::new(),
            loaded_triggers: NameSet::new(),
            scenarios: NameMap::new(),
            interfaces: NameMap::new(),
            selected: NameSet::new(),
            active_jig: None,
            default_jig: None,
            default_scenario: None,
            actions: Vec::new(),
            control: Vec::new(),
        };
        proof {
            assert(action_views(r.actions@) =~= Seq::<ManagerActionView>::empty());
            assert(control_views(r.control@) =~= Seq::<
                crate::protocol::ManagerControlMessageView,
            >::empty());
        }
        r
    }

    /// True when a description may be loaded here: it lists no jig, or lists
    /// one that is loaded.
    pub fn is_desc_compatible(&self, desc: &Description) -> (r: bool)
        requires
            self.wf(),
        ensures
            r == jigs_compatible(desc@.jigs, *self),
    {
        if desc.jigs_len() == 0 {
            return true;
        }
        let mut i: usize = 0;
        while i < desc.jigs_len()
            invariant
                self.wf(),
                i <= desc@.jigs.len(),
                forall|j: int| 0 <= j < i ==> !self.jig_loaded(#[trigger] desc@.jigs[j]),
            decreases desc@.jigs.len() - i,
        {
            let j = desc.jig_at(i);
            if self.loaded_jigs.contains(j) {
                proof {
                    assert(desc@.jigs.contains(desc@.jigs[i as int]));
                    assert(self.jig_loaded(desc@.jigs[i as int]));
                }
                return true;
            }
            i = i + 1;
        }
        proof {
            if jigs_compatible(desc@.jigs, *self) {
                let j = choose|j: UnitNameView| desc@.jigs.contains(j) && self.jig_loaded(j);
                let k = choose|k: int| 0 <= k < desc@.jigs.len() && desc@.jigs[k] == j;
                assert(!self.jig_loaded(desc@.jigs[k]));
            }
        }
        false
    }

    /// Same check for an interface description.
    pub fn is_interface_compatible(&self, desc: &InterfaceDescription) -> (r: bool)
        requires
            self.wf(),
        ensures
            r == jigs_compatible(desc@.jigs, *self),
    {
        if desc.jigs_len() == 0 {
            return true;
        }
        let mut i: usize = 0;
        while i < desc.jigs_len()
            invariant
                self.wf(),
                i <= desc@.jigs.len(),
                forall|j: int| 0 <= j < i ==> !self.jig_loaded(#[trigger] desc@.jigs[j]),
            decreases desc@.jigs.len() - i,
        {
            let j = desc.jig_at(i);
            if self.loaded_jigs.contains(j) {
                proof {
                    assert(desc@.jigs.contains(desc@.jigs[i as int]));
                    assert(self.jig_loaded(desc@.jigs[i as int]));
                }
                return true;
            }
            i = i + 1;
        }
        proof {
            if jigs_compatible(desc@.jigs, *self) {
                let j = choose|j: UnitNameView| desc@.jigs.contains(j) && self.jig_loaded(j);
                let k = choose|k: int| 0 <= k < desc@.jigs.len() && desc@.jigs[k] == j;
                assert(!self.jig_loaded(desc@.jigs[k]));
            }
        }
        false
    }

    /// Loads a jig. Whether a jig fits this machine is its implementation's
    /// concern; at this level a jig always loads.
    pub fn load_jig(&mut self, desc: &Description) -> (r: Result<(), UnitIncompatibleReason>)
        requires
            old(self).wf(),
            desc@.id.kind == UnitKind::Jig,
        ensures
            final(self).wf(),
            r is Ok,
            final(self).jig_loaded(desc@.id),
            forall|n: UnitNameView|
                n != desc@.id ==> #[trigger] final(self).jig_loaded(n) == old(self).jig_loaded(n),
            forall|n: UnitNameView| #[trigger] final(self).test_loaded(n) == old(self).test_loaded(n),
            forall|n: UnitNameView|
                #[trigger] final(self).logger_loaded(n) == old(self).logger_loaded(n),
            forall|n: UnitNameView|
                #[trigger] final(self).trigger_loaded(n) == old(self).trigger_loaded(n),
            forall|n: UnitNameView|
                #[trigger] final(self).scenario_loaded(n) == old(self).scenario_loaded(n),
            forall|n: UnitNameView|
                #[trigger] final(self).interface_loaded(n) == old(self).interface_loaded(n),
            forall|n: UnitNameView|
                #[trigger] final(self).interface_child(n) == old(self).interface_child(n),
            forall|n: UnitNameView| #[trigger] final(self).is_selected(n) == old(self).is_selected(n),
            final(self).action_log() == old(self).action_log(),
            final(self).control_log() == old(self).control_log(),
            final(self).scenario_names() == old(self).scenario_names(),
            final(self).active_jig_view() == old(self).active_jig_view(),
            final(self).default_jig_view() == old(self).default_jig_view(),
            final(self).default_scenario_view() == old(self).default_scenario_view(),
    {
        self.loaded_jigs.insert(desc.id().dup());
        Ok(())
    }

    /// Loads a test when it is compatible with a loaded jig.
    pub fn load_test(&mut self, desc: &Description) -> (r: Result<(), UnitIncompatibleReason>)
        requires
            old(self).wf(),
            desc@.id.kind == UnitKind::Test,
        ensures
            final(self).wf(),
            r is Ok <==> jigs_compatible(desc@.jigs, *old(self)),
            r is Ok ==> final(self).test_loaded(desc@.id),
            r is Err ==> *final(self) == *old(self),
            forall|n: UnitNameView|
                n != desc@.id ==> #[trigger] final(self).test_loaded(n) == old(self).test_loaded(n),
            forall|n: UnitNameView| #[trigger] final(self).jig_loaded(n) == old(self).jig_loaded(n),
            forall|n: UnitNameView|
                #[trigger] final(self).logger_loaded(n) == old(self).logger_loaded(n),
            forall|n: UnitNameView|
                #[trigger] final(self).trigger_loaded(n) == old(self).trigger_loaded(n),
            forall|n: UnitNameView|
                #[trigger] final(self).scenario_loaded(n) == old(self).scenario_loaded(n),
            forall|n: UnitNameView|
                #[trigger] final(self).interface_loaded(n) == old(self).interface_loaded(n),
            forall|n: UnitNameView|
                #[trigger] final(self).interface_child(n) == old(self).interface_child(n),
            forall|n: UnitNameView| #[trigger] final(self).is_selected(n) == old(self).is_selected(n),
            final(self).action_log() == old(self).action_log(),
            final(self).control_log() == old(self).control_log(),
            final(self).jig_names() == old(self).jig_names(),
            final(self).scenario_names() == old(self).scenario_names(),
            final(self).active_jig_view() == old(self).active_jig_view(),
            final(self).default_jig_view() == old(self).default_jig_view(),
            final(self).default_scenario_view() == old(self).default_scenario_view(),
    {
        if !self.is_desc_compatible(desc) {
            return Err(UnitIncompatibleReason::IncompatibleJig);
        }
        self.loaded_tests.insert(desc.id().dup());
        Ok(())
    }

    /// Loads a logger when it is compatible with a loaded jig.
    pub fn load_logger(&mut self, desc: &Description) -> (r: Result<(), UnitIncompatibleReason>)
        requires
            old(self).wf(),
            desc@.id.kind == UnitKind::Logger,
        ensures
            final(self).wf(),
            r is Ok <==> jigs_compatible(desc@.jigs, *old(self)),
            r is Ok ==> final(self).logger_loaded(desc@.id),
            r is Err ==> *final(self) == *old(self),
            forall|n: UnitNameView|
                n != desc@.id ==> #[trigger] final(self).logger_loaded(n) == old(self).logger_loaded(
                    n,
                ),
            forall|n: UnitNameView| #[trigger] final(self).jig_loaded(n) == old(self).jig_loaded(n),
            forall|n: UnitNameView| #[trigger] final(self).test_loaded(n) == old(self).test_loaded(n),
            forall|n: UnitNameView|
                #[trigger] final(self).trigger_loaded(n) == old(self).trigger_loaded(n),
            forall|n: UnitNameView|
                #[trigger] final(self).scenario_loaded(n) == old(self).scenario_loaded(n),
            forall|n: UnitNameView|
                #[trigger] final(self).interface_loaded(n) == old(self).interface_loaded(n),
            forall|n: UnitNameView|
                #[trigger] final(self).interface_child(n) == old(self).interface_child(n),
            forall|n: UnitNameView| #[trigger] final(self).is_selected(n) == old(self).is_selected(n),
            final(self).action_log() == old(self).action_log(),
            final(self).control_log() == old(self).control_log(),
            final(self).jig_names() == old(self).jig_names(),
            final(self).scenario_names() == old(self).scenario_names(),
            final(self).active_jig_view() == old(self).active_jig_view(),
            final(self).default_jig_view() == old(self).default_jig_view(),
            final(self).default_scenario_view() == old(self).default_scenario_view(),
    {
        if !self.is_desc_compatible(desc) {
            return Err(UnitIncompatibleReason::IncompatibleJig);
        }
        self.loaded_loggers.insert(desc.id().dup());
        Ok(())
    }

    /// Loads a trigger when it is compatible with a loaded jig.
    pub fn load_trigger(&mut self, desc: &Description) -> (r: Result<(), UnitIncompatibleReason>)
        requires
            old(self).wf(),
            desc@.id.kind == UnitKind::Trigger,
        ensures
            final(self).wf(),
            r is Ok <==> jigs_compatible(desc@.jigs, *old(self)),
            r is Ok ==> final(self).trigger_loaded(desc@.id),
            r is Err ==> *final(self) == *old(self),
            forall|n: UnitNameView|
                n != desc@.id ==> #[trigger] final(self).trigger_loaded(n) == old(self).trigger_loaded(n),
            forall|n: UnitNameView| #[trigger] final(self).jig_loaded(n) == old(self).jig_loaded(n),
            forall|n: UnitNameView| #[trigger] final(self).test_loaded(n) == old(self).test_loaded(n),
            forall|n: UnitNameView|
                #[trigger] final(self).logger_loaded(n) == old(self).logger_loaded(n),
            forall|n: UnitNameView|
                #[trigger] final(self).scenario_loaded(n) == old(self).scenario_loaded(n),
            forall|n: UnitNameView|
                #[trigger] final(self).interface_loaded(n) == old(self).interface_loaded(n),
            forall|n: UnitNameView|
                #[trigger] final(self).interface_child(n) == old(self).interface_child(n),
            forall|n: UnitNameView| #[trigger] final(self).is_selected(n) == old(self).is_selected(n),
            final(self).action_log() == old(self).action_log(),
            final(self).control_log() == old(self).control_log(),
            final(self).jig_names() == old(self).jig_names(),
            final(self).scenario_names() == old(self).scenario_names(),
            final(self).active_jig_view() == old(self).active_jig_view(),
            final(self).default_jig_view() == old(self).default_jig_view(),
            final(self).default_scenario_view() == old(self).default_scenario_view(),
    {
        if !self.is_desc_compatible(desc) {
            return Err(UnitIncompatibleReason::IncompatibleJig);
        }
        self.loaded_triggers.insert(desc.id().dup());
        Ok(())
    }

    /// Loads a scenario when it is compatible, recording its composition.
    pub fn load_scenario(&mut self, desc: &Description) -> (r: Result<(), UnitIncompatibleReason>)
        requires
            old(self).wf(),
            desc@.id.kind == UnitKind::Scenario,
        ensures
            final(self).wf(),
            r is Ok <==> jigs_compatible(desc@.jigs, *old(self)),
            r is Ok ==> final(self).scenario_loaded(desc@.id),
            r is Err ==> *final(self) == *old(self),
            forall|n: UnitNameView|
                n != desc@.id ==> #[trigger] final(self).scenario_loaded(n) == old(self).scenario_loaded(n),
            forall|n: UnitNameView| #[trigger] final(self).jig_loaded(n) == old(self).jig_loaded(n),
            forall|n: UnitNameView| #[trigger] final(self).test_loaded(n) == old(self).test_loaded(n),
            forall|n: UnitNameView|
                #[trigger] final(self).logger_loaded(n) == old(self).logger_loaded(n),
            forall|n: UnitNameView|
                #[trigger] final(self).trigger_loaded(n) == old(self).trigger_loaded(n),
            forall|n: UnitNameView|
                #[trigger] final(self).interface_loaded(n) == old(self).interface_loaded(n),
            forall|n: UnitNameView|
                #[trigger] final(self).interface_child(n) == old(self).interface_child(n),
            forall|n: UnitNameView| #[trigger] final(self).is_selected(n) == old(self).is_selected(n),
            final(self).action_log() == old(self).action_log(),
            final(self).control_log() == old(self).control_log(),
            final(self).jig_names() == old(self).jig_names(),
            final(self).active_jig_view() == old(self).active_jig_view(),
            final(self).default_jig_view() == old(self).default_jig_view(),
            final(self).default_scenario_view() == old(self).default_scenario_view(),
    {
        if !self.is_desc_compatible(desc) {
            return Err(UnitIncompatibleReason::IncompatibleJig);
        }
        self.scenarios.insert(desc.id().dup(), desc.dup());
        Ok(())
    }

    /// Loads an interface when it is compatible; the instance starts with no
    /// child attached.
    pub fn load_interface(&mut self, desc: &InterfaceDescription) -> (r: Result<
        (),
        UnitIncompatibleReason,
    >)
        requires
            old(self).wf(),
            desc@.id.kind == UnitKind::Interface,
        ensures
            final(self).wf(),
            r is Ok <==> jigs_compatible(desc@.jigs, *old(self)),
            r is Ok ==> final(self).interface_loaded(desc@.id) && final(self).interface_child(
                desc@.id,
            ) is None,
            r is Err ==> *final(self) == *old(self),
            forall|n: UnitNameView|
                n != desc@.id ==> #[trigger] final(self).interface_loaded(n) == old(self).interface_loaded(n),
            forall|n: UnitNameView|
                n != desc@.id ==> #[trigger] final(self).interface_child(n) == old(self).interface_child(n),
            forall|n: UnitNameView| #[trigger] final(self).jig_loaded(n) == old(self).jig_loaded(n),
            forall|n: UnitNameView| #[trigger] final(self).test_loaded(n) == old(self).test_loaded(n),
            forall|n: UnitNameView|
                #[trigger] final(self).logger_loaded(n) == old(self).logger_loaded(n),
            forall|n: UnitNameView|
                #[trigger] final(self).trigger_loaded(n) == old(self).trigger_loaded(n),
            forall|n: UnitNameView|
                #[trigger] final(self).scenario_loaded(n) == old(self).scenario_loaded(n),
            forall|n: UnitNameView| #[trigger] final(self).is_selected(n) == old(self).is_selected(n),
            final(self).action_log() == old(self).action_log(),
            final(self).control_log() == old(self).control_log(),
            final(self).jig_names() == old(self).jig_names(),
            final(self).scenario_names() == old(self).scenario_names(),
            final(self).active_jig_view() == old(self).active_jig_view(),
            final(self).default_jig_view() == old(self).default_jig_view(),
            final(self).default_scenario_view() == old(self).default_scenario_view(),
    {
        if !self.is_interface_compatible(desc) {
            return Err(UnitIncompatibleReason::IncompatibleJig);
        }
        let inst = Interface::new(desc, &self.config);
        let ghost prevmap = self.interfaces;
        self.interfaces.insert(desc.id().dup(), inst);
        proof {
            lemma_ids_ok_preserved(prevmap, self.interfaces, desc@.id);
        }
        Ok(())
    }

    /// Unloads a unit of any kind: it leaves the loaded instances and the
    /// selection; an interface that still holds a child is asked to
    /// terminate first.
    pub fn unload(&mut self, name: &UnitName)
        requires
            old(self).wf(),
        ensures
            final(self).wf(),
            !final(self).jig_loaded(name@) && !final(self).test_loaded(name@),
            !final(self).logger_loaded(name@) && !final(self).trigger_loaded(name@),
            !final(self).scenario_loaded(name@) && !final(self).interface_loaded(name@),
            !final(self).is_selected(name@),
            forall|n: UnitNameView|
                n != name@ ==> #[trigger] final(self).jig_loaded(n) == old(self).jig_loaded(n),
            forall|n: UnitNameView|
                n != name@ ==> #[trigger] final(self).test_loaded(n) == old(self).test_loaded(n),
            forall|n: UnitNameView|
                n != name@ ==> #[trigger] final(self).logger_loaded(n) == old(self).logger_loaded(n),
            forall|n: UnitNameView|
                n != name@ ==> #[trigger] final(self).trigger_loaded(n) == old(self).trigger_loaded(
                    n,
                ),
            forall|n: UnitNameView|
                n != name@ ==> #[trigger] final(self).scenario_loaded(n) == old(self).scenario_loaded(n),
            forall|n: UnitNameView|
                n != name@ ==> #[trigger] final(self).interface_loaded(n) == old(self).interface_loaded(n),
            forall|n: UnitNameView|
                n != name@ ==> #[trigger] final(self).interface_child(n) == old(self).interface_child(n),
            forall|n: UnitNameView|
                n != name@ ==> #[trigger] final(self).is_selected(n) == old(self).is_selected(n),
            match old(self).interface_child(name@) {
                Some(c) => {
                    &&& final(self).action_log() == old(self).action_log().push(
                        final(self).action_log().last(),
                    )
                    &&& (final(self).action_log().last() matches ManagerActionView::Terminate(t)
                        && t.id == name@ && t.child == c)
                },
                None => final(self).action_log() == old(self).action_log(),
            },
            final(self).control_log() == old(self).control_log(),
            final(self).active_jig_view() == old(self).active_jig_view(),
            final(self).default_jig_view() == old(self).default_jig_view(),
            final(self).default_scenario_view() == old(self).default_scenario_view(),
            final(self).interface_child(name@) is None,
            !old(self).scenario_loaded(name@) ==> final(self).scenario_names() == old(
                self,
            ).scenario_names(),
            !old(self).jig_loaded(name@) ==> final(self).jig_names() == old(self).jig_names(),
    {
        self.loaded_jigs.remove(name);
        self.loaded_tests.remove(name);
        self.loaded_loggers.remove(name);
        self.loaded_triggers.remove(name);
        self.scenarios.remove(name);
        self.selected.remove(name);
        let ghost prevmap = self.interfaces;
        proof {
            if prevmap.contains_key(name@) {
                lemma_ids_ok_at(prevmap, name@);
            }
        }
        let had: Option<TerminateRequest> = match self.interfaces.take(name) {
            None => None,
            Some(mut inst) => inst.deactivate(),
        };
        proof {
            lemma_ids_ok_preserved(prevmap, self.interfaces, name@);
        }
        match had {
            Some(t) => {
                let ghost tv = t@;
                let ghost prev = action_views(self.actions@);
                self.actions.push(ManagerAction::Terminate(t));
                proof {
                    assert(action_views(self.actions@) =~= prev.push(ManagerActionView::Terminate(
                        tv,
                    )));
                    assert(tv.id == name@);
                }
            },
            None => {},
        }
    }

    /// Marks a unit selected; selection precedes activation.
    pub fn select(&mut self, name: &UnitName)
        requires
            old(self).wf(),
        ensures
            final(self).wf(),
            final(self).is_selected(name@),
            forall|n: UnitNameView|
                n != name@ ==> #[trigger] final(self).is_selected(n) == old(self).is_selected(n),
            final(self).same_loaded(*old(self)),
            final(self).action_log() == old(self).action_log(),
            final(self).control_log() == old(self).control_log(),
            final(self).jig_names() == old(self).jig_names(),
            final(self).scenario_names() == old(self).scenario_names(),
            final(self).active_jig_view() == old(self).active_jig_view(),
            final(self).default_jig_view() == old(self).default_jig_view(),
            final(self).default_scenario_view() == old(self).default_scenario_view(),
    {
        self.selected.insert(name.dup());
    }

    /// Activates a selected unit. A jig becomes the active jig; an interface
    /// is spawned — any child it already holds is terminated first, so at
    /// most one child per id ever runs. Other kinds need no activation here.
    pub fn activate(&mut self, name: &UnitName)
        requires
            old(self).wf(),
            old(self).is_selected(name@),
        ensures
            final(self).wf(),
            final(self).same_loaded(*old(self)),
            forall|n: UnitNameView| #[trigger] final(self).is_selected(n) == old(self).is_selected(n),
            final(self).control_log() == old(self).control_log(),
            final(self).scenario_names() == old(self).scenario_names(),
            final(self).default_jig_view() == old(self).default_jig_view(),
            final(self).default_scenario_view() == old(self).default_scenario_view(),
            name@.kind == UnitKind::Jig ==> final(self).active_jig_view() == Some(name@)
                && final(self).action_log() == old(self).action_log(),
            name@.kind != UnitKind::Jig
                ==> final(self).active_jig_view() == old(self).active_jig_view(),
            name@.kind == UnitKind::Interface && old(self).interface_loaded(name@) ==> {
                &&& final(self).action_log() == old(self).action_log().push(
                    final(self).action_log().last(),
                )
                &&& final(self).action_log().last() is Spawn
                &&& final(self).action_log().last()->Spawn_0.id == name@
                &&& old(self).interface_desc(name@) is Some
                &&& final(self).action_log().last()->Spawn_0.exec_start == old(
                    self,
                ).interface_desc(name@)->Some_0.exec_start
                &&& final(self).action_log().last()->Spawn_0.working_directory
                    == crate::config::resolve_wd(
                    old(self).interface_desc(name@)->Some_0.unit_directory,
                    old(self).interface_desc(name@)->Some_0.working_directory,
                )
            },
            name@.kind == UnitKind::Interface && !old(self).interface_loaded(name@)
                ==> final(self).action_log() == old(self).action_log(),
            name@.kind != UnitKind::Jig && name@.kind != UnitKind::Interface
                ==> final(self).action_log() == old(self).action_log(),
    {
        match name.kind() {
            UnitKind::Jig => {
                self.active_jig = Some(name.dup());
            },
            UnitKind::Interface => {
                proof {
                    if self.interfaces.contains_key(name@) {
                        lemma_ids_ok_at(self.interfaces, name@);
                    }
                }
                let req: Option<SpawnRequest> = match self.interfaces.get(name) {
                    None => None,
                    Some(inst) => Some(inst.activate(&self.config)),
                };
                match req {
                    Some(r) => {
                        let ghost rv = r@;
                        let ghost prev = action_views(self.actions@);
                        self.actions.push(ManagerAction::Spawn(r));
                        proof {
                            assert(action_views(self.actions@) =~= prev.push(
                                ManagerActionView::Spawn(rv),
                            ));
                            assert(rv.id == name@);
                        }
                    },
                    None => {},
                }
            },
            _ => {},
        }
    }

    /// Records the outcome of a spawn the supervisor performed. On success
    /// the child is attached and the new client is greeted; on failure the
    /// instance is dropped, so a failed activation leaves nothing behind.
    pub fn complete_activation(&mut self, name: &UnitName, outcome: Result<u64, String>) -> (r:
        Result<(), String>)
        requires
            old(self).wf(),
        ensures
            final(self).wf(),
            outcome is Err ==> !final(self).interface_loaded(name@) && r is Err,
            outcome matches Ok(c) ==> (old(self).interface_loaded(name@) ==> {
                &&& final(self).interface_child(name@) == Some(c)
                &&& final(self).control_log() == old(self).control_log().push(
                    crate::protocol::ManagerControlMessageView {
                        sender: name@,
                        contents: crate::protocol::ControlContentsView::InitialGreeting,
                    },
                )
                &&& r is Ok
            }),
            outcome is Ok && !old(self).interface_loaded(name@) ==> r is Err && !final(self).interface_loaded(name@) && final(self).control_log() == old(self).control_log(),
            forall|n: UnitNameView|
                n != name@ ==> #[trigger] final(self).interface_loaded(n) == old(self).interface_loaded(n),
            forall|n: UnitNameView|
                n != name@ ==> #[trigger] final(self).interface_child(n) == old(self).interface_child(n),
            forall|n: UnitNameView| #[trigger] final(self).jig_loaded(n) == old(self).jig_loaded(n),
            forall|n: UnitNameView| #[trigger] final(self).test_loaded(n) == old(self).test_loaded(n),
            forall|n: UnitNameView|
                #[trigger] final(self).logger_loaded(n) == old(self).logger_loaded(n),
            forall|n: UnitNameView|
                #[trigger] final(self).trigger_loaded(n) == old(self).trigger_loaded(n),
            forall|n: UnitNameView|
                #[trigger] final(self).scenario_loaded(n) == old(self).scenario_loaded(n),
            forall|n: UnitNameView| #[trigger] final(self).is_selected(n) == old(self).is_selected(n),
            final(self).action_log() == old(self).action_log(),
            outcome is Err ==> final(self).control_log() == old(self).control_log(),
            final(self).active_jig_view() == old(self).active_jig_view(),
            final(self).default_jig_view() == old(self).default_jig_view(),
            final(self).default_scenario_view() == old(self).default_scenario_view(),
    {
        let ghost prevmap = self.interfaces;
        match outcome {
            Err(e) => {
                self.interfaces.remove(name);
                proof {
                    lemma_ids_ok_preserved(prevmap, self.interfaces, name@);
                }
                Err(e)
            },
            Ok(child) => {
                match self.interfaces.take(name) {
                    None => Err(String::from_str("interface is not loaded")),
                    Some(mut inst) => {
                        proof {
                            lemma_ids_ok_at(prevmap, name@);
                        }
                        let ghost midmap = self.interfaces;
                        inst.attach_child(child);
                        self.interfaces.insert(name.dup(), inst);
                        proof {
                            lemma_ids_ok_preserved(prevmap, midmap, name@);
                            lemma_ids_ok_preserved(midmap, self.interfaces, name@);
                        }
                        let ghost prev = control_views(self.control@);
                        self.control.push(
                            ManagerControlMessage::new(
                                name,
                                ManagerControlMessageContents::InitialGreeting,
                            ),
                        );
                        proof {
                            assert(control_views(self.control@) =~= prev.push(
                                self.control@[self.control@.len() - 1]@,
                            ));
                        }
                        Ok(())
                    },
                }
            },
        }
    }

    /// Whether a unit of any kind is loaded.
    pub fn unit_is_loaded(&self, name: &UnitName) -> (r: bool)
        requires
            self.wf(),
        ensures
            r == match name@.kind {
                UnitKind::Jig => self.jig_loaded(name@),
                UnitKind::Test => self.test_loaded(name@),
                UnitKind::Logger => self.logger_loaded(name@),
                UnitKind::Trigger => self.trigger_loaded(name@),
                UnitKind::Scenario => self.scenario_loaded(name@),
                UnitKind::Interface => self.interface_loaded(name@),
                UnitKind::Internal => false,
            },
    {
        match name.kind() {
            UnitKind::Jig => self.loaded_jigs.contains(name),
            UnitKind::Test => self.loaded_tests.contains(name),
            UnitKind::Logger => self.loaded_loggers.contains(name),
            UnitKind::Trigger => self.loaded_triggers.contains(name),
            UnitKind::Scenario => self.scenarios.contains(name),
            UnitKind::Interface => self.interfaces.contains(name),
            UnitKind::Internal => false,
        }
    }

    pub fn jig_is_loaded(&self, name: &UnitName) -> (r: bool)
        requires
            self.wf(),
        ensures
            r == self.jig_loaded(name@),
    {
        self.loaded_jigs.contains(name)
    }

    pub fn scenarios_len(&self) -> (r: usize)
        ensures
            r == self.scenario_names().len(),
    {
        self.scenarios.len()
    }

    pub fn scenario_name_at(&self, i: usize) -> (r: &UnitName)
        requires
            i < self.scenario_names().len(),
        ensures
            r@ == self.scenario_names()[i as int],
    {
        self.scenarios.key_at(i)
    }

    /// Whether the loaded scenario at a position composes the test.
    pub fn scenario_at_uses_test(&self, i: usize, t: &UnitName) -> (r: bool)
        requires
            i < self.scenario_names().len(),
        ensures
            r == self.scenario_tests_at(i as int).contains(t@),
    {
        self.scenarios.val_at(i).uses_test(t)
    }

    /// Re-derives the default jig and scenario selections from what is
    /// loaded.
    pub fn refresh_defaults(&mut self)
        requires
            old(self).wf(),
        ensures
            final(self).wf(),
            final(self).same_loaded(*old(self)),
            forall|n: UnitNameView| #[trigger] final(self).is_selected(n) == old(self).is_selected(n),
            final(self).action_log() == old(self).action_log(),
            final(self).control_log() == old(self).control_log(),
            final(self).jig_names() == old(self).jig_names(),
            final(self).scenario_names() == old(self).scenario_names(),
            final(self).active_jig_view() == old(self).active_jig_view(),
            final(self).default_jig_view() == refreshed_default(
                old(self).default_jig_view(),
                old(self).jig_names(),
            ),
            final(self).default_scenario_view() == refreshed_default(
                old(self).default_scenario_view(),
                old(self).scenario_names(),
            ),
    {
        let keep_jig = match &self.default_jig {
            Some(d) => self.loaded_jigs.contains(d),
            None => false,
        };
        if !keep_jig {
            if self.loaded_jigs.len() > 0 {
                self.default_jig = Some(self.loaded_jigs.name_at(0).dup());
            } else {
                self.default_jig = None;
            }
        }
        let keep_scenario = match &self.default_scenario {
            Some(d) => self.scenarios.contains(d),
            None => false,
        };
        if !keep_scenario {
            if self.scenarios.len() > 0 {
                self.default_scenario = Some(self.scenarios.key_at(0).dup());
            } else {
                self.default_scenario = None;
            }
        }
    }

    /// Receives one event forwarded from the bus. Kind-specific handling is
    /// the concern of the unit implementations; the manager's own state does
    /// not change.
    pub fn process_message(&mut self, event: &UnitEvent)
        ensures
            *final(self) == *old(self),
    {
        match event {
            _ => {},
        }
    }

    /// Queues an inbound control message, as an interface reader hands it in.
    pub fn push_control(&mut self, msg: ManagerControlMessage)
        ensures
            final(self).control_log() == old(self).control_log().push(msg@),
            final(self).action_log() == old(self).action_log(),
            final(self).same_loaded(*old(self)),
            final(self).wf() == old(self).wf(),
    {
        let ghost prev = control_views(self.control@);
        self.control.push(msg);
        proof {
            assert(control_views(self.control@) =~= prev.push(
                self.control@[self.control@.len() - 1]@,
            ));
        }
    }

    /// Hands the queued supervisor work out, leaving the queue empty.
    pub fn take_actions(&mut self) -> (r: Vec<ManagerAction>)
        ensures
            action_views(r@) == old(self).action_log(),
            final(self).action_log().len() == 0,
            final(self).control_log() == old(self).control_log(),
            final(self).same_loaded(*old(self)),
            final(self).wf() == old(self).wf(),
            final(self).scenario_names() == old(self).scenario_names(),
            final(self).jig_names() == old(self).jig_names(),
            forall|n: UnitNameView| #[trigger] final(self).is_selected(n) == old(self).is_selected(n),
            final(self).active_jig_view() == old(self).active_jig_view(),
            final(self).default_jig_view() == old(self).default_jig_view(),
            final(self).default_scenario_view() == old(self).default_scenario_view(),
    {
        let mut out: Vec<ManagerAction> = Vec::new();
        core::mem::swap(&mut out, &mut self.actions);
        proof {
            assert(action_views(self.actions@) =~= Seq::<ManagerActionView>::empty());
        }
        out
    }

    /// Hands the queued control messages out, leaving the queue empty.
    pub fn take_control_messages(&mut self) -> (r: Vec<ManagerControlMessage>)
        ensures
            control_views(r@) == old(self).control_log(),
            final(self).control_log().len() == 0,
            final(self).action_log() == old(self).action_log(),
            final(self).same_loaded(*old(self)),
            final(self).wf() == old(self).wf(),
    {
        let mut out: Vec<ManagerControlMessage> = Vec::new();
        core::mem::swap(&mut out, &mut self.control);
        proof {
            assert(control_views(self.control@) =~= Seq::<
                crate::protocol::ManagerControlMessageView,
            >::empty());
        }
        out
    }
}

} // verus!
