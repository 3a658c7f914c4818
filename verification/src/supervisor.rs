//! The listener supervisor: on each configuration generation it diffs the
//! desired listener set against the running one, stops what disappeared,
//! starts what is new, and restarts what changed. The spawning, cancellation
//! and draining of listener tasks happens outside the core; the supervisor
//! state machine and its events are here.

use vstd::prelude::*;
use crate::context::ProtocolType;
use crate::json::{json_eq, json_view, JsonVal, JsonView};

verus! {

/// Default bind host.
pub const DEFAULT_LISTENER_HOST: &'static str = "0.0.0.0";

/// Default drain timeout in seconds.
pub const DEFAULT_DRAIN_TIMEOUT_SECS: u64 = 30;

/// Configuration of one listener.
#[derive(Debug)]
pub struct ListenerConfig {
    /// Unique identifier within a configuration generation.
    pub id: String,
    /// Human-readable name.
    pub name: String,
    /// The protocol this listener speaks.
    pub protocol: ProtocolType,
    /// Port to bind.
    pub port: u16,
    /// Host to bind.
    pub host: String,
    /// Whether the listener should run.
    pub enabled: bool,
    /// Protocol-specific configuration document.
    pub config: JsonVal,
    /// Graceful shutdown timeout in seconds.
    pub drain_timeout_secs: u64,
}

/// The mathematical model of a listener configuration.
pub struct ListenerConfigView {
    /// Identifier.
    pub id: Seq<char>,
    /// Name.
    pub name: Seq<char>,
    /// Protocol.
    pub protocol: ProtocolType,
    /// Port.
    pub port: u16,
    /// Host.
    pub host: Seq<char>,
    /// Enabled flag.
    pub enabled: bool,
    /// Protocol-specific document.
    pub config: JsonView,
    /// Drain timeout in seconds.
    pub drain_timeout_secs: u64,
}

impl View for ListenerConfig {
    type V = ListenerConfigView;

    open spec fn view(&self) -> ListenerConfigView {
        ListenerConfigView {
            id: self.id@,
            name: self.name@,
            protocol: self.protocol,
            port: self.port,
            host: self.host@,
            enabled: self.enabled,
            config: json_view(self.config),
            drain_timeout_secs: self.drain_timeout_secs,
        }
    }
}

impl ListenerConfig {
    /// A new enabled listener with the default host, an empty name and
    /// document, and the default drain timeout.
    pub fn new(id: &str, protocol: ProtocolType, port: u16) -> (r: ListenerConfig)
        ensures
            r@.id == id@,
            r@.name.len() == 0,
            r@.protocol == protocol,
            r@.port == port,
            r@.host == DEFAULT_LISTENER_HOST@,
            r@.enabled,
            r@.config is Null,
            r@.drain_timeout_secs == DEFAULT_DRAIN_TIMEOUT_SECS,
    {
        ListenerConfig {
            id: id.to_owned(),
            name: String::new(),
            protocol,
            port,
            host: DEFAULT_LISTENER_HOST.to_owned(),
            enabled: true,
            config: JsonVal::Null,
            drain_timeout_secs: DEFAULT_DRAIN_TIMEOUT_SECS,
        }
    }

    /// The socket address text, host and port joined by a colon.
    pub fn bind_address(&self) -> (r: String)
        ensures
            r@ == self.host@ + ":"@ + crate::strutil::spec_nat_chars(self.port as int),
    {
        let mut s = self.host.clone();
        s.append(":");
        crate::strutil::append_u64(&mut s, self.port as u64);
        s
    }

    /// An exact copy.
    pub fn duplicate(&self) -> (r: ListenerConfig)
        ensures
            r@ == self@,
    {
        ListenerConfig {
            id: self.id.clone(),
            name: self.name.clone(),
            protocol: self.protocol,
            port: self.port,
            host: self.host.clone(),
            enabled: self.enabled,
            config: self.config.duplicate(),
            drain_timeout_secs: self.drain_timeout_secs,
        }
    }

    /// Field-by-field equality; two specs equal in every field avoid a
    /// restart.
    pub fn same_as(&self, other: &ListenerConfig) -> (r: bool)
        ensures
            r == (self@ == other@),
    {
        let r = crate::strutil::str_eq(self.id.as_str(), other.id.as_str())
            && crate::strutil::str_eq(self.name.as_str(), other.name.as_str())
            && self.protocol == other.protocol
            && self.port == other.port
            && crate::strutil::str_eq(self.host.as_str(), other.host.as_str())
            && self.enabled == other.enabled
            && json_eq(&self.config, &other.config)
            && self.drain_timeout_secs == other.drain_timeout_secs;
        r
    }
}

/// A complete configuration generation: every listener.
#[derive(Debug)]
pub struct ServiceConfig {
    /// All configured listeners.
    pub listeners: Vec<ListenerConfig>,
}

impl ServiceConfig {
    /// An empty generation.
    pub fn new() -> (r: ServiceConfig)
        ensures
            r.listeners@.len() == 0,
    {
        ServiceConfig { listeners: Vec::new() }
    }

    /// Distinct identifiers, the generation invariant.
    pub open spec fn wf(&self) -> bool {
        forall|i: int, j: int| 0 <= i < j < self.listeners@.len()
            ==> (#[trigger] self.listeners@[i])@.id != (#[trigger] self.listeners@[j])@.id
    }

    /// The listener under an identifier, if any.
    #[verifier::loop_isolation(false)]
    pub fn get_listener<'a>(&'a self, id: &str) -> (r: Option<&'a ListenerConfig>)
        ensures
            (match r {
                Some(l) => exists|i: int| 0 <= i < self.listeners@.len()
                    && (#[trigger] self.listeners@[i])@.id == id@ && l@ == self.listeners@[i]@,
                None => forall|i: int| 0 <= i < self.listeners@.len()
                    ==> (#[trigger] self.listeners@[i])@.id != id@,
            }),
    {
        let mut i: usize = 0;
        while i < self.listeners.len()
            invariant
                i <= self.listeners@.len(),
                forall|j: int| 0 <= j < i ==> (#[trigger] self.listeners@[j])@.id != id@,
            decreases self.listeners@.len() - i,
        {
            if crate::strutil::str_eq(self.listeners[i].id.as_str(), id) {
                return Some(&self.listeners[i]);
            }
            i += 1;
        }
        None
    }

    /// Indices of the enabled listeners, in configuration order.
    #[verifier::loop_isolation(false)]
    pub fn enabled_indices(&self) -> (r: Vec<usize>)
        ensures
            forall|k: int| 0 <= k < r@.len()
                ==> r@[k] < self.listeners@.len()
                    && (#[trigger] self.listeners@[r@[k] as int])@.enabled,
            forall|i: int| 0 <= i < self.listeners@.len()
                && (#[trigger] self.listeners@[i])@.enabled
                ==> r@.contains(i as usize),
    {
        let mut out: Vec<usize> = Vec::new();
        let mut i: usize = 0;
        while i < self.listeners.len()
            invariant
                i <= self.listeners@.len(),
                forall|k: int| 0 <= k < out@.len()
                    ==> out@[k] < self.listeners@.len()
                        && (#[trigger] self.listeners@[out@[k] as int])@.enabled,
                forall|j: int| 0 <= j < i && (#[trigger] self.listeners@[j])@.enabled
                    ==> out@.contains(j as usize),
            decreases self.listeners@.len() - i,
        {
            if self.listeners[i].enabled {
                let ghost before = out@;
                out.push(i);
                proof {
                    assert(out@[out@.len() - 1] == i);
                    assert forall|j: int| 0 <= j < i + 1
                        && (#[trigger] self.listeners@[j])@.enabled
                        implies out@.contains(j as usize) by {
                        if j < i as int {
                            let w = choose|w: int| 0 <= w < before.len()
                                && before[w] == j as usize;
                            assert(out@[w] == j as usize);
                        } else {
                            assert(out@[out@.len() - 1] == j as usize);
                        }
                    }
                }
            }
            i += 1;
        }
        out
    }
}

/// Lifecycle events of the listener set.
#[derive(Debug)]
pub enum ListenerEvent {
    /// A listener was started.
    Started { id: String, protocol: ProtocolType, port: u16 },
    /// A listener was stopped.
    Stopped { id: String },
    /// A listener was restarted under a changed configuration.
    Restarted { id: String },
    /// A listener failed.
    Error { id: String, message: String },
}

/// The model of a lifecycle event.
pub enum ListenerEventView {
    /// A start.
    Started { id: Seq<char>, protocol: ProtocolType, port: u16 },
    /// A stop.
    Stopped { id: Seq<char> },
    /// A restart.
    Restarted { id: Seq<char> },
    /// A failure.
    Error { id: Seq<char>, message: Seq<char> },
}

impl View for ListenerEvent {
    type V = ListenerEventView;

    open spec fn view(&self) -> ListenerEventView {
        match self {
            ListenerEvent::Started { id, protocol, port } => ListenerEventView::Started {
                id: id@,
                protocol: *protocol,
                port: *port,
            },
            ListenerEvent::Stopped { id } => ListenerEventView::Stopped { id: id@ },
            ListenerEvent::Restarted { id } => ListenerEventView::Restarted { id: id@ },
            ListenerEvent::Error { id, message } => ListenerEventView::Error {
                id: id@,
                message: message@,
            },
        }
    }
}

/// The map of a desired generation: enabled listeners, keyed by identifier.
pub open spec fn spec_desired_map(ls: Seq<ListenerConfigView>) -> Map<Seq<char>, ListenerConfigView>
    decreases ls.len(),
{
    if ls.len() == 0 {
        Map::empty()
    } else {
        let rest = spec_desired_map(ls.drop_last());
        if ls.last().enabled {
            rest.insert(ls.last().id, ls.last())
        } else {
            rest
        }
    }
}

/// With distinct identifiers the desired map holds exactly the enabled
/// listeners.
pub proof fn lemma_desired_map_index(ls: Seq<ListenerConfigView>)
    requires
        forall|i: int, j: int| 0 <= i < j < ls.len()
            ==> (#[trigger] ls[i]).id != (#[trigger] ls[j]).id,
    ensures
        forall|i: int| 0 <= i < ls.len() && (#[trigger] ls[i]).enabled
            ==> spec_desired_map(ls).contains_key(ls[i].id)
                && spec_desired_map(ls)[ls[i].id] == ls[i],
        forall|k: Seq<char>| spec_desired_map(ls).contains_key(k)
            ==> exists|i: int| 0 <= i < ls.len() && (#[trigger] ls[i]).id == k && ls[i].enabled,
    decreases ls.len(),
{
    if ls.len() > 0 {
        assert(forall|i: int| 0 <= i < ls.len() - 1 ==> #[trigger] ls.drop_last()[i] == ls[i]);
        lemma_desired_map_index(ls.drop_last());
        let last = ls.last();
        assert forall|i: int| 0 <= i < ls.len() && (#[trigger] ls[i]).enabled
            implies spec_desired_map(ls).contains_key(ls[i].id)
                && spec_desired_map(ls)[ls[i].id] == ls[i] by {
            if i < ls.len() - 1 {
                assert(spec_desired_map(ls.drop_last()).contains_key(ls.drop_last()[i].id));
                assert(ls[i].id != last.id);
            } else {
                assert(ls[i] == last);
            }
        }
        assert forall|k: Seq<char>| spec_desired_map(ls).contains_key(k)
            implies exists|i: int| 0 <= i < ls.len() && (#[trigger] ls[i]).id == k
                && ls[i].enabled by {
            if last.enabled && k == last.id {
                assert(ls[ls.len() - 1].id == k);
            } else {
                assert(spec_desired_map(ls.drop_last()).contains_key(k));
                let w = choose|w: int| 0 <= w < ls.drop_last().len()
                    && (#[trigger] ls.drop_last()[w]).id == k && ls.drop_last()[w].enabled;
                assert(ls[w].id == k && ls[w].enabled);
            }
        }
    }
}

/// The running-set map of the supervisor.
pub open spec fn spec_running_map(rs: Seq<(Seq<char>, ListenerConfigView)>)
    -> Map<Seq<char>, ListenerConfigView>
    decreases rs.len(),
{
    if rs.len() == 0 {
        Map::empty()
    } else {
        spec_running_map(rs.drop_last()).insert(rs.last().0, rs.last().1)
    }
}

/// With distinct identifiers the running map holds exactly the entries.
pub proof fn lemma_running_map_index(rs: Seq<(Seq<char>, ListenerConfigView)>)
    requires
        forall|i: int, j: int| 0 <= i < j < rs.len()
            ==> (#[trigger] rs[i]).0 != (#[trigger] rs[j]).0,
    ensures
        forall|i: int| 0 <= i < rs.len()
            ==> spec_running_map(rs).contains_key((#[trigger] rs[i]).0)
                && spec_running_map(rs)[rs[i].0] == rs[i].1,
        forall|k: Seq<char>| spec_running_map(rs).contains_key(k)
            ==> exists|i: int| 0 <= i < rs.len() && (#[trigger] rs[i]).0 == k,
    decreases rs.len(),
{
    if rs.len() > 0 {
        assert(forall|i: int| 0 <= i < rs.len() - 1 ==> #[trigger] rs.drop_last()[i] == rs[i]);
        lemma_running_map_index(rs.drop_last());
        let last = rs.last();
        assert forall|i: int| 0 <= i < rs.len()
            implies spec_running_map(rs).contains_key((#[trigger] rs[i]).0)
                && spec_running_map(rs)[rs[i].0] == rs[i].1 by {
            if i < rs.len() - 1 {
                assert(spec_running_map(rs.drop_last()).contains_key(rs.drop_last()[i].0));
                assert(rs[i].0 != last.0);
            } else {
                assert(rs[i] == last);
            }
        }
        assert forall|k: Seq<char>| spec_running_map(rs).contains_key(k)
            implies exists|i: int| 0 <= i < rs.len() && (#[trigger] rs[i]).0 == k by {
            if k != last.0 {
                assert(spec_running_map(rs.drop_last()).contains_key(k));
                let w = choose|w: int| 0 <= w < rs.drop_last().len()
                    && (#[trigger] rs.drop_last()[w]).0 == k;
                assert(rs[w].0 == k);
            } else {
                assert(rs[rs.len() - 1].0 == k);
            }
        }
    }
}

/// The stop events of reconcile's first pass: one per running entry whose
/// identifier the desired generation no longer enables, in running order.
pub open spec fn spec_stop_events(rs: Seq<(Seq<char>, ListenerConfigView)>,
    dmap: Map<Seq<char>, ListenerConfigView>) -> Seq<ListenerEventView>
    decreases rs.len(),
{
    if rs.len() == 0 {
        Seq::empty()
    } else {
        let rest = spec_stop_events(rs.drop_last(), dmap);
        if dmap.contains_key(rs.last().0) {
            rest
        } else {
            rest.push(ListenerEventView::Stopped { id: rs.last().0 })
        }
    }
}

/// The start event of a desired listener.
pub open spec fn spec_start_event(dl: ListenerConfigView) -> ListenerEventView {
    ListenerEventView::Started { id: dl.id, protocol: dl.protocol, port: dl.port }
}

/// The events of reconcile's second pass for one desired listener: nothing
/// when it is disabled or already runs under exactly this configuration; a
/// start when nothing runs under its identifier; a stop, a start and the
/// restart notice when it runs under a changed configuration.
pub open spec fn spec_sync_events_one(rmap: Map<Seq<char>, ListenerConfigView>,
    dl: ListenerConfigView) -> Seq<ListenerEventView>
{
    if !dl.enabled {
        Seq::empty()
    } else if !rmap.contains_key(dl.id) {
        seq![spec_start_event(dl)]
    } else if rmap[dl.id] == dl {
        Seq::empty()
    } else {
        seq![
            ListenerEventView::Stopped { id: dl.id },
            spec_start_event(dl),
            ListenerEventView::Restarted { id: dl.id },
        ]
    }
}

/// The events of reconcile's second pass, per desired listener in
/// configuration order.
pub open spec fn spec_sync_events(rmap: Map<Seq<char>, ListenerConfigView>,
    ds: Seq<ListenerConfigView>) -> Seq<ListenerEventView>
    decreases ds.len(),
{
    if ds.len() == 0 {
        Seq::empty()
    } else {
        spec_sync_events(rmap, ds.drop_last()) + spec_sync_events_one(rmap, ds.last())
    }
}

/// The exact event list reconcile returns for an old running set and a
/// desired generation: the stops of listeners that disappeared or were
/// disabled, in running order, then per desired listener in order its start,
/// or its stop, start and restart notice when its configuration changed.
pub open spec fn spec_reconcile_events(rs: Seq<(Seq<char>, ListenerConfigView)>,
    ds: Seq<ListenerConfigView>) -> Seq<ListenerEventView>
{
    spec_stop_events(rs, spec_desired_map(ds)) + spec_sync_events(spec_running_map(rs), ds)
}

/// The supervisor's listener set: each running listener's identifier and
/// the configuration it was started with. The tasks themselves (cancel
/// handles, join handles) live with the runtime outside the core; the
/// supervisor decides, the runtime obeys its events.
pub struct ListenerSupervisor {
    /// Running listeners, identifiers pairwise distinct.
    pub running: Vec<(String, ListenerConfig)>,
}

impl ListenerSupervisor {
    /// Distinct running identifiers, and each entry keyed by its own
    /// listener identifier.
    pub open spec fn wf(&self) -> bool {
        &&& forall|i: int, j: int| 0 <= i < j < self.running@.len()
            ==> (#[trigger] self.running@[i]).0@ != (#[trigger] self.running@[j]).0@
        &&& forall|i: int| 0 <= i < self.running@.len()
            ==> (#[trigger] self.running@[i]).0@ == self.running@[i].1@.id
    }

    /// The running set as a map.
    pub open spec fn running_map(&self) -> Map<Seq<char>, ListenerConfigView> {
        spec_running_map(self.running@.map_values(
            |p: (String, ListenerConfig)| (p.0@, p.1@)))
    }

    /// A supervisor with nothing running.
    pub fn new() -> (r: ListenerSupervisor)
        ensures
            r.wf(),
            r.running@.len() == 0,
    {
        ListenerSupervisor { running: Vec::new() }
    }

    /// Number of running listeners.
    pub fn listener_count(&self) -> (n: usize)
        ensures
            n == self.running@.len(),
    {
        self.running.len()
    }

    /// Whether a listener runs under this identifier.
    #[verifier::loop_isolation(false)]
    pub fn is_running(&self, id: &str) -> (r: bool)
        ensures
            r == exists|i: int| 0 <= i < self.running@.len()
                && (#[trigger] self.running@[i]).0@ == id@,
    {
        let mut i: usize = 0;
        while i < self.running.len()
            invariant
                i <= self.running@.len(),
                forall|j: int| 0 <= j < i ==> (#[trigger] self.running@[j]).0@ != id@,
            decreases self.running@.len() - i,
        {
            if crate::strutil::str_eq(self.running[i].0.as_str(), id) {
                return true;
            }
            i += 1;
        }
        false
    }

    /// Reconcile the running set with a desired generation: stop listeners
    /// that disappeared or were disabled, start new ones, and restart those
    /// whose configuration changed (a stop, a start, then the restart
    /// notice). The returned events describe exactly what the runtime must
    /// perform, in order.
    #[verifier::loop_isolation(false)]
    #[verifier::rlimit(100)]
    pub fn reconcile(&mut self, desired: &ServiceConfig) -> (events: Vec<ListenerEvent>)
        requires
            old(self).wf(),
            desired.wf(),
        ensures
            final(self).wf(),
            // Every desired enabled listener runs afterwards, under exactly
            // its desired configuration, and nothing else runs.
            forall|i: int| 0 <= i < final(self).running@.len()
                ==> spec_desired_map(desired.listeners@.map_values(
                    |l: ListenerConfig| l@)).contains_key(
                    (#[trigger] final(self).running@[i]).0@)
                    && spec_desired_map(desired.listeners@.map_values(
                        |l: ListenerConfig| l@))[final(self).running@[i].0@]
                        == final(self).running@[i].1@,
            forall|j: int| 0 <= j < desired.listeners@.len()
                && (#[trigger] desired.listeners@[j])@.enabled
                ==> exists|i: int| 0 <= i < final(self).running@.len()
                    && (#[trigger] final(self).running@[i]).0@ == desired.listeners@[j]@.id,
            // The returned events are exactly the reconcile diff, in order.
            events@.map_values(|e: ListenerEvent| e@) == spec_reconcile_events(
                old(self).running@.map_values(|p: (String, ListenerConfig)| (p.0@, p.1@)),
                desired.listeners@.map_values(|l: ListenerConfig| l@)),
    {
        let ghost dviews = desired.listeners@.map_values(|l: ListenerConfig| l@);
        let ghost dmap = spec_desired_map(dviews);
        let ghost rviews = self.running@.map_values(
            |p: (String, ListenerConfig)| (p.0@, p.1@));
        let ghost rmap0 = spec_running_map(rviews);
        proof {
            assert(forall|i: int| 0 <= i < dviews.len()
                ==> #[trigger] dviews[i] == desired.listeners@[i]@);
            lemma_desired_map_index(dviews);
            assert(forall|i: int| 0 <= i < rviews.len()
                ==> #[trigger] rviews[i] == (self.running@[i].0@, self.running@[i].1@));
            lemma_running_map_index(rviews);
        }
        let mut events: Vec<ListenerEvent> = Vec::new();
        // Stop listeners that are no longer desired or no longer enabled.
        let mut kept: Vec<(String, ListenerConfig)> = Vec::new();
        let n = self.running.len();
        let mut i: usize = 0;
        while i < n
            invariant
                n == self.running@.len(),
                i <= n,
                forall|a: int, b: int| 0 <= a < b < kept@.len()
                    ==> (#[trigger] kept@[a]).0@ != (#[trigger] kept@[b]).0@,
                forall|a: int| 0 <= a < kept@.len()
                    ==> (#[trigger] kept@[a]).0@ == kept@[a].1@.id,
                forall|a: int| 0 <= a < kept@.len()
                    ==> dmap.contains_key((#[trigger] kept@[a]).0@),
                forall|a: int| 0 <= a < kept@.len()
                    ==> exists|b: int| 0 <= b < i
                        && (#[trigger] kept@[a]).0@ == self.running@[b].0@
                        && kept@[a].1@ == self.running@[b].1@,
                forall|b: int| 0 <= b < i && dmap.contains_key(
                    (#[trigger] self.running@[b]).0@)
                    ==> exists|a: int| 0 <= a < kept@.len()
                        && (#[trigger] kept@[a]).0@ == self.running@[b].0@,
                events@.map_values(|e: ListenerEvent| e@)
                    == spec_stop_events(rviews.subrange(0, i as int), dmap),
            decreases n - i,
        {
            let ghost events_at_start = events@;
            proof {
                assert(rviews.subrange(0, i as int + 1).drop_last()
                    =~= rviews.subrange(0, i as int));
                assert(rviews.subrange(0, i as int + 1).last() == rviews[i as int]);
                assert(rviews[i as int].0 == self.running@[i as int].0@);
            }
            // Is this running listener still wanted?
            let mut wanted = false;
            let mut w: usize = 0;
            while w < desired.listeners.len()
                invariant
                    i < n,
                    n == self.running@.len(),
                    wanted ==> dmap.contains_key(self.running@[i as int].0@),
                    !wanted ==> forall|j: int| 0 <= j < w
                        ==> !((#[trigger] dviews[j]).enabled
                            && dviews[j].id == self.running@[i as int].0@),
                decreases desired.listeners@.len() - w,
            {
                if desired.listeners[w].enabled
                    && crate::strutil::str_eq(desired.listeners[w].id.as_str(),
                        self.running[i].0.as_str()) {
                    proof {
                        assert(dviews[w as int].enabled);
                        assert(dviews[w as int].id == self.running@[i as int].0@);
                        assert(dmap.contains_key(dviews[w as int].id));
                    }
                    wanted = true;
                }
                w += 1;
            }
            if wanted {
                let id_copy = self.running[i].0.clone();
                let cfg_copy = self.running[i].1.duplicate();
                proof {
                    assert forall|a: int| 0 <= a < kept@.len()
                        implies (#[trigger] kept@[a]).0@ != self.running@[i as int].0@ by {
                        let b = choose|b: int| 0 <= b < i
                            && (#[trigger] kept@[a]).0@ == self.running@[b].0@
                            && kept@[a].1@ == self.running@[b].1@;
                        // kept entries come from earlier running entries,
                        // whose identifiers differ from this one's.
                    }
                }
                let ghost before = kept@;
                kept.push((id_copy, cfg_copy));
                proof {
                    assert(forall|a: int| 0 <= a < before.len()
                        ==> #[trigger] kept@[a] == before[a]);
                    assert(kept@[kept@.len() - 1].0@ == self.running@[i as int].0@);
                    assert(kept@[kept@.len() - 1].1@ == self.running@[i as int].1@);
                    assert forall|b: int| 0 <= b < i + 1 && dmap.contains_key(
                        (#[trigger] self.running@[b]).0@)
                        implies exists|a: int| 0 <= a < kept@.len()
                            && (#[trigger] kept@[a]).0@ == self.running@[b].0@ by {
                        if b < i as int {
                            let a0 = choose|a0: int| 0 <= a0 < before.len()
                                && (#[trigger] before[a0]).0@ == self.running@[b].0@;
                            assert(kept@[a0].0@ == self.running@[b].0@);
                        } else {
                            assert(kept@[kept@.len() - 1].0@ == self.running@[b].0@);
                        }
                    }
                }
            } else {
                proof {
                    if dmap.contains_key(self.running@[i as int].0@) {
                        let j = choose|j: int| 0 <= j < dviews.len()
                            && (#[trigger] dviews[j]).id == self.running@[i as int].0@
                            && dviews[j].enabled;
                        assert(false);
                    }
                }
                let id_copy = self.running[i].0.clone();
                events.push(ListenerEvent::Stopped { id: id_copy });
                proof {
                    assert(events@.map_values(|e: ListenerEvent| e@)
                        =~= events_at_start.map_values(|e: ListenerEvent| e@).push(
                            ListenerEventView::Stopped { id: rviews[i as int].0 }));
                }
            }
            proof {
                if wanted {
                    assert(events@.map_values(|e: ListenerEvent| e@)
                        == spec_stop_events(rviews.subrange(0, i as int + 1), dmap));
                } else {
                    assert(!dmap.contains_key(rviews[i as int].0));
                    assert(events@.map_values(|e: ListenerEvent| e@)
                        == spec_stop_events(rviews.subrange(0, i as int + 1), dmap));
                }
            }
            i += 1;
        }
        proof {
            assert(rviews.subrange(0, n as int) =~= rviews);
            // Every kept entry still carries its old running configuration.
            assert forall|a: int| 0 <= a < kept@.len()
                implies rmap0.contains_key((#[trigger] kept@[a]).0@)
                    && rmap0[kept@[a].0@] == kept@[a].1@ by {
                let b = choose|b: int| 0 <= b < i
                    && (#[trigger] kept@[a]).0@ == self.running@[b].0@
                    && kept@[a].1@ == self.running@[b].1@;
                assert(rviews[b] == (self.running@[b].0@, self.running@[b].1@));
                assert(rmap0.contains_key(rviews[b].0) && rmap0[rviews[b].0] == rviews[b].1);
            }
        }
        // Start new listeners and restart changed ones.
        proof {
            assert(events@.map_values(|e: ListenerEvent| e@)
                =~= spec_stop_events(rviews, dmap)
                    + spec_sync_events(rmap0, dviews.subrange(0, 0)));
        }
        let mut d: usize = 0;
        while d < desired.listeners.len()
            invariant
                d <= desired.listeners@.len(),
                forall|a: int, b: int| 0 <= a < b < kept@.len()
                    ==> (#[trigger] kept@[a]).0@ != (#[trigger] kept@[b]).0@,
                forall|a: int| 0 <= a < kept@.len()
                    ==> (#[trigger] kept@[a]).0@ == kept@[a].1@.id,
                forall|a: int| 0 <= a < kept@.len()
                    ==> dmap.contains_key((#[trigger] kept@[a]).0@),
                forall|a: int| 0 <= a < kept@.len()
                    && (exists|j: int| 0 <= j < d && #[trigger] dviews[j].id == kept@[a].0@
                        && dviews[j].enabled)
                    ==> kept@[a].1@ == dmap[(#[trigger] kept@[a]).0@],
                forall|j: int| 0 <= j < d && (#[trigger] dviews[j]).enabled
                    ==> exists|a: int| 0 <= a < kept@.len()
                        && (#[trigger] kept@[a]).0@ == dviews[j].id,
                // Each kept entry carries its old running configuration or
                // the desired one of an earlier generation step.
                forall|a: int| 0 <= a < kept@.len()
                    ==> (rmap0.contains_key((#[trigger] kept@[a]).0@)
                        && rmap0[kept@[a].0@] == kept@[a].1@)
                        || (exists|j: int| 0 <= j < d && (#[trigger] dviews[j]).id
                            == kept@[a].0@ && dviews[j].enabled && kept@[a].1@ == dviews[j]),
                forall|b: int| 0 <= b < rviews.len()
                    && dmap.contains_key((#[trigger] rviews[b]).0)
                    ==> exists|a: int| 0 <= a < kept@.len()
                        && (#[trigger] kept@[a]).0@ == rviews[b].0,
                events@.map_values(|e: ListenerEvent| e@)
                    == spec_stop_events(rviews, dmap)
                        + spec_sync_events(rmap0, dviews.subrange(0, d as int)),
            decreases desired.listeners@.len() - d,
        {
            let ghost dl = dviews[d as int];
            let ghost kept_at_start = kept@;
            let ghost events_at_start = events@;
            proof {
                assert(dviews.subrange(0, d as int + 1).drop_last()
                    =~= dviews.subrange(0, d as int));
                assert(dviews.subrange(0, d as int + 1).last() == dl);
            }
            if desired.listeners[d].enabled {
                proof {
                    assert(dl.enabled);
                    assert(dmap.contains_key(dl.id));
                    assert(dmap[dl.id] == dl);
                }
                // Find the running entry under this identifier.
                let mut found: Option<usize> = None;
                let mut k: usize = 0;
                while k < kept.len()
                    invariant
                        d < desired.listeners@.len(),
                        dl == dviews[d as int],
                        forall|a: int, b: int| 0 <= a < b < kept@.len()
                            ==> (#[trigger] kept@[a]).0@ != (#[trigger] kept@[b]).0@,
                        (match found {
                            Some(f) => f < kept@.len() && kept@[f as int].0@ == dl.id,
                            None => forall|a: int| 0 <= a < k
                                ==> (#[trigger] kept@[a]).0@ != dl.id,
                        }),
                    decreases kept@.len() - k,
                {
                    if found.is_none() && crate::strutil::str_eq(kept[k].0.as_str(),
                        desired.listeners[d].id.as_str()) {
                        found = Some(k);
                    }
                    k += 1;
                }
                match found {
                    Some(f) => {
                        proof {
                            // A kept entry under this identifier was never
                            // rewritten by an earlier generation step
                            // (desired identifiers are distinct), so it
                            // carries its old running configuration.
                            if exists|j: int| 0 <= j < d
                                && (#[trigger] dviews[j]).id == kept@[f as int].0@
                                && dviews[j].enabled && kept@[f as int].1@ == dviews[j] {
                                let j = choose|j: int| 0 <= j < d
                                    && (#[trigger] dviews[j]).id == kept@[f as int].0@
                                    && dviews[j].enabled && kept@[f as int].1@ == dviews[j];
                                assert(desired.listeners@[j]@.id
                                    == desired.listeners@[d as int]@.id);
                                assert(false);
                            }
                            assert(rmap0.contains_key(dl.id)
                                && rmap0[dl.id] == kept@[f as int].1@);
                        }
                        if !kept[f].1.same_as(&desired.listeners[d]) {
                            // Changed configuration: stop, start anew,
                            // report the restart.
                            let id1 = kept[f].0.clone();
                            events.push(ListenerEvent::Stopped { id: id1 });
                            let id2 = desired.listeners[d].id.clone();
                            events.push(ListenerEvent::Started {
                                id: id2,
                                protocol: desired.listeners[d].protocol,
                                port: desired.listeners[d].port,
                            });
                            let id3 = desired.listeners[d].id.clone();
                            events.push(ListenerEvent::Restarted { id: id3 });
                            let id4 = desired.listeners[d].id.clone();
                            let cfg = desired.listeners[d].duplicate();
                            let ghost before = kept@;
                            kept.set(f, (id4, cfg));
                            proof {
                                assert(kept@[f as int].0@ == dl.id);
                                assert(kept@[f as int].1@ == dl);
                                assert(forall|a: int| 0 <= a < kept@.len() && a != f as int
                                    ==> #[trigger] kept@[a] == before[a]);
                                assert(forall|a: int| 0 <= a < kept@.len()
                                    ==> (#[trigger] kept@[a]).0@ == before[a].0@);
                                assert(dviews[d as int].id == kept@[f as int].0@
                                    && dviews[d as int].enabled
                                    && kept@[f as int].1@ == dviews[d as int]);
                                // The configuration changed, so the restart
                                // triple is owed.
                                assert(rmap0[dl.id] != dl);
                                assert(spec_sync_events_one(rmap0, dl) =~= seq![
                                    ListenerEventView::Stopped { id: dl.id },
                                    spec_start_event(dl),
                                    ListenerEventView::Restarted { id: dl.id },
                                ]);
                                assert(events@.map_values(|e: ListenerEvent| e@)
                                    =~= events_at_start.map_values(|e: ListenerEvent| e@)
                                        + spec_sync_events_one(rmap0, dl));
                            }
                        } else {
                            proof {
                                assert(kept@[f as int].1@ == dl);
                                assert(kept@[f as int].0@ == dl.id);
                                // Already running under this configuration:
                                // nothing is owed.
                                assert(rmap0[dl.id] == dl);
                                assert(spec_sync_events_one(rmap0, dl)
                                    =~= Seq::<ListenerEventView>::empty());
                                assert(events@.map_values(|e: ListenerEvent| e@)
                                    =~= events_at_start.map_values(|e: ListenerEvent| e@)
                                        + spec_sync_events_one(rmap0, dl));
                            }
                        }
                    },
                    None => {
                        proof {
                            // Nothing runs under this identifier in the old
                            // set: such an entry would have been kept.
                            if rmap0.contains_key(dl.id) {
                                let b = choose|b: int| 0 <= b < rviews.len()
                                    && (#[trigger] rviews[b]).0 == dl.id;
                                assert(dmap.contains_key(rviews[b].0));
                                let a = choose|a: int| 0 <= a < kept@.len()
                                    && (#[trigger] kept@[a]).0@ == rviews[b].0;
                                assert(false);
                            }
                            assert(spec_sync_events_one(rmap0, dl)
                                =~= seq![spec_start_event(dl)]);
                        }
                        // New listener.
                        let id1 = desired.listeners[d].id.clone();
                        events.push(ListenerEvent::Started {
                            id: id1,
                            protocol: desired.listeners[d].protocol,
                            port: desired.listeners[d].port,
                        });
                        proof {
                            assert(events@.map_values(|e: ListenerEvent| e@)
                                =~= events_at_start.map_values(|e: ListenerEvent| e@)
                                    + spec_sync_events_one(rmap0, dl));
                        }
                        let id2 = desired.listeners[d].id.clone();
                        let cfg = desired.listeners[d].duplicate();
                        let ghost before = kept@;
                        kept.push((id2, cfg));
                        proof {
                            assert(kept@[kept@.len() - 1].0@ == dl.id);
                            assert(kept@[kept@.len() - 1].1@ == dl);
                            assert(forall|a: int| 0 <= a < before.len()
                                ==> #[trigger] kept@[a] == before[a]);
                            assert(dviews[d as int].id == kept@[kept@.len() - 1].0@
                                && dviews[d as int].enabled
                                && kept@[kept@.len() - 1].1@ == dviews[d as int]);
                            assert forall|a: int, b: int| 0 <= a < b < kept@.len()
                                implies (#[trigger] kept@[a]).0@
                                    != (#[trigger] kept@[b]).0@ by {
                                if b == kept@.len() - 1 {
                                    // the fresh identifier was absent from
                                    // the kept entries
                                }
                            }
                        }
                    },
                }
            }
            proof {
                assert(kept@.len() >= kept_at_start.len());
                assert(forall|a: int| 0 <= a < kept_at_start.len()
                    ==> (#[trigger] kept@[a]).0@ == kept_at_start[a].0@);
                if dviews[d as int].enabled {
                    assert(exists|a: int| 0 <= a < kept@.len()
                        && (#[trigger] kept@[a]).0@ == dviews[d as int].id);
                } else {
                    assert(spec_sync_events_one(rmap0, dl)
                        =~= Seq::<ListenerEventView>::empty());
                    assert(events@.map_values(|e: ListenerEvent| e@)
                        =~= events_at_start.map_values(|e: ListenerEvent| e@)
                            + spec_sync_events_one(rmap0, dl));
                }
                assert forall|b: int| 0 <= b < rviews.len()
                    && dmap.contains_key((#[trigger] rviews[b]).0)
                    implies exists|a: int| 0 <= a < kept@.len()
                        && (#[trigger] kept@[a]).0@ == rviews[b].0 by {
                    let a0 = choose|a0: int| 0 <= a0 < kept_at_start.len()
                        && (#[trigger] kept_at_start[a0]).0@ == rviews[b].0;
                    assert(kept@[a0].0@ == rviews[b].0);
                }
                assert(spec_sync_events(rmap0, dviews.subrange(0, d as int + 1))
                    == spec_sync_events(rmap0, dviews.subrange(0, d as int))
                        + spec_sync_events_one(rmap0, dl));
                assert(events@.map_values(|e: ListenerEvent| e@)
                    =~= spec_stop_events(rviews, dmap)
                        + spec_sync_events(rmap0, dviews.subrange(0, d as int + 1)));
            }
            d += 1;
            proof {
                assert forall|j: int| 0 <= j < d && (#[trigger] dviews[j]).enabled
                    implies exists|a: int| 0 <= a < kept@.len()
                        && (#[trigger] kept@[a]).0@ == dviews[j].id by {
                    if j < d - 1 {
                        let a0 = choose|a0: int| 0 <= a0 < kept_at_start.len()
                            && (#[trigger] kept_at_start[a0]).0@ == dviews[j].id;
                        assert(kept@[a0].0@ == dviews[j].id);
                    }
                }
                assert forall|a: int| 0 <= a < kept@.len()
                    && (exists|j: int| 0 <= j < d && #[trigger] dviews[j].id == kept@[a].0@
                        && dviews[j].enabled)
                    implies kept@[a].1@ == dmap[(#[trigger] kept@[a]).0@] by {
                    let j = choose|j: int| 0 <= j < d && #[trigger] dviews[j].id == kept@[a].0@
                        && dviews[j].enabled;
                    assert(dmap[dviews[j].id] == dviews[j]);
                    if j < d - 1 {
                    }
                }
            }
        }
        proof {
            assert forall|a: int| 0 <= a < kept@.len()
                implies kept@[a].1@ == dmap[(#[trigger] kept@[a]).0@] by {
                assert(dmap.contains_key(kept@[a].0@));
                let j = choose|j: int| 0 <= j < dviews.len()
                    && (#[trigger] dviews[j]).id == kept@[a].0@ && dviews[j].enabled;
            }
        }
        proof {
            assert(dviews.subrange(0, desired.listeners@.len() as int) =~= dviews);
            assert(events@.map_values(|e: ListenerEvent| e@)
                == spec_reconcile_events(rviews, dviews));
        }
        let ghost kv = kept@;
        self.running = kept;
        proof {
            assert forall|j: int| 0 <= j < desired.listeners@.len()
                && (#[trigger] desired.listeners@[j])@.enabled
                implies exists|i2: int| 0 <= i2 < self.running@.len()
                    && (#[trigger] self.running@[i2]).0@ == desired.listeners@[j]@.id by {
                assert(dviews[j] == desired.listeners@[j]@);
                assert(dviews[j].enabled);
                let a = choose|a: int| 0 <= a < kv.len()
                    && (#[trigger] kv[a]).0@ == dviews[j].id;
                assert(self.running@[a].0@ == desired.listeners@[j]@.id);
            }
        }
        events
    }

    /// Shut every listener down: the runtime cancels them all; the set
    /// empties, one stop event per listener in order.
    pub fn shutdown(&mut self) -> (events: Vec<ListenerEvent>)
        requires
            old(self).wf(),
        ensures
            final(self).wf(),
            final(self).running@.len() == 0,
            events@.len() == old(self).running@.len(),
            forall|i: int| 0 <= i < events@.len()
                ==> ((#[trigger] events@[i])@ matches ListenerEventView::Stopped { id }
                    && id == old(self).running@[i].0@),
    {
        let mut events: Vec<ListenerEvent> = Vec::new();
        let n = self.running.len();
        let mut i: usize = 0;
        while i < n
            invariant
                *self == *old(self),
                n == self.running@.len(),
                i <= n,
                events@.len() == i,
                forall|j: int| 0 <= j < i
                    ==> ((#[trigger] events@[j])@ matches ListenerEventView::Stopped { id }
                        && id == self.running@[j].0@),
            decreases n - i,
        {
            let id = self.running[i].0.clone();
            events.push(ListenerEvent::Stopped { id });
            i += 1;
        }
        self.running = Vec::new();
        events
    }
}

} // verus!
