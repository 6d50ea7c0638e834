//! Routing of a session's outputs: which output handlers an input's results
//! go to. Routes are keyed by input handler and by input source name; a
//! router without a route for an event leaves the choice to the caller,
//! which then broadcasts to every handler.

use vstd::prelude::*;

verus! {

/// A named kind of handler; its id names it in routes.
pub trait HandlerMarker {
    spec fn marker_id() -> Seq<char>;

    fn id() -> (r: String)
        ensures
            r@ == Self::marker_id(),
    ;
}

/// A kind of input source.
pub trait SourceType {}

/// Input from the local console.
pub struct ConsoleSource;

impl SourceType for ConsoleSource {}

/// Input from the interactive TCP console.
pub struct TcpSource;

impl SourceType for TcpSource {}

/// Input from the web console.
pub struct WebSource;

impl SourceType for WebSource {}

/// The console's handlers.
pub struct ConsoleHandler;

impl HandlerMarker for ConsoleHandler {
    open spec fn marker_id() -> Seq<char> {
        "console"@
    }

    fn id() -> (r: String) {
        "console".to_string()
    }
}

/// The TCP console's handlers.
pub struct TcpHandler;

impl HandlerMarker for TcpHandler {
    open spec fn marker_id() -> Seq<char> {
        "tcp"@
    }

    fn id() -> (r: String) {
        "tcp".to_string()
    }
}

/// The web console's handlers.
pub struct WebHandler;

impl HandlerMarker for WebHandler {
    open spec fn marker_id() -> Seq<char> {
        "web"@
    }

    fn id() -> (r: String) {
        "web".to_string()
    }
}

/// The identity of an input or output handler.
pub struct HandlerId {
    name: String,
}

impl HandlerId {
    pub closed spec fn spec_name(&self) -> Seq<char> {
        self.name@
    }

    /// The id of handler kind `T`.
    pub fn of<T: HandlerMarker>() -> (r: Self)
        ensures
            r.spec_name() == T::marker_id(),
    {
        HandlerId { name: T::id() }
    }

    /// A handler id with the given name.
    pub fn named(name: &str) -> (r: Self)
        ensures
            r.spec_name() == name@,
    {
        HandlerId { name: name.to_string() }
    }

    pub fn name(&self) -> (r: &str)
        ensures
            r@ == self.spec_name(),
    {
        self.name.as_str()
    }

    pub fn copy(&self) -> (r: Self)
        ensures
            r.spec_name() == self.spec_name(),
    {
        HandlerId { name: self.name.clone() }
    }

    pub fn same(&self, other: &HandlerId) -> (r: bool)
        ensures
            r == (self.spec_name() == other.spec_name()),
    {
        self.name == other.name
    }
}

/// The names of a list of handler ids.
pub open spec fn names_of(ids: Seq<HandlerId>) -> Seq<Seq<char>> {
    ids.map_values(|h: HandlerId| h.spec_name())
}

fn copy_ids(ids: &Vec<HandlerId>) -> (r: Vec<HandlerId>)
    ensures
        names_of(r@) == names_of(ids@),
{
    let mut out: Vec<HandlerId> = Vec::new();
    let mut i: usize = 0;
    while i < ids.len()
        invariant
            i <= ids.len(),
            out.len() == i,
            names_of(out@) == names_of(ids@.subrange(0, i as int)),
        decreases ids.len() - i,
    {
        let ghost prev = out@;
        let c = ids[i].copy();
        out.push(c);
        proof {
            let a = names_of(out@);
            let b = names_of(ids@.subrange(0, i + 1));
            assert(a.len() == b.len());
            assert forall|k: int| 0 <= k < a.len() implies a[k] == b[k] by {
                if k < i {
                    assert(out@[k] == prev[k]);
                    assert(names_of(prev)[k] == names_of(ids@.subrange(0, i as int))[k]);
                }
            }
            assert(a =~= b);
        }
        i = i + 1;
    }
    assert(ids@.subrange(0, ids.len() as int) =~= ids@);
    out
}

/// A route from one input handler to one or more output handlers.
pub struct Route {
    pub from: HandlerId,
    pub to: Vec<HandlerId>,
}

impl Route {
    pub fn new(from: HandlerId, to: HandlerId) -> (r: Self)
        ensures
            r.from.spec_name() == from.spec_name(),
            names_of(r.to@) == seq![to.spec_name()],
    {
        let r = Route { from, to: vec![to] };
        assert(names_of(r.to@) =~= seq![r.to@[0].spec_name()]);
        r
    }

    /// The same route with one more output handler.
    pub fn add_output(self, to: HandlerId) -> (r: Self)
        ensures
            r.from.spec_name() == self.from.spec_name(),
            names_of(r.to@) == names_of(self.to@).push(to.spec_name()),
    {
        let mut r = self;
        let ghost before = r.to@;
        r.to.push(to);
        assert(names_of(r.to@) =~= names_of(before).push(to.spec_name()));
        r
    }
}

/// Lists of output handlers keyed by name, each key held once.
pub struct RouteTable {
    entries: Vec<(String, Vec<HandlerId>)>,
}

impl View for RouteTable {
    type V = Map<Seq<char>, Seq<Seq<char>>>;

    closed spec fn view(&self) -> Map<Seq<char>, Seq<Seq<char>>> {
        Map::new(
            |k: Seq<char>| exists|i: int| 0 <= i < self.entries.len() && #[trigger] self.entries@[i].0@ == k,
            |k: Seq<char>|
                names_of(
                    self.entries@[choose|i: int|
                        0 <= i < self.entries.len() && #[trigger] self.entries@[i].0@ == k].1@,
                ),
        )
    }
}

impl RouteTable {
    pub closed spec fn wf(&self) -> bool {
        forall|i: int, j: int|
            0 <= i < j < self.entries.len() ==> #[trigger] self.entries@[i].0@ != #[trigger] self.entries@[j].0@
    }

    proof fn lemma_at(&self, i: int)
        requires
            self.wf(),
            0 <= i < self.entries.len(),
        ensures
            self@.contains_key(self.entries@[i].0@),
            self@[self.entries@[i].0@] == names_of(self.entries@[i].1@),
    {
        let k = self.entries@[i].0@;
        assert(self.entries@[i].0@ == k);
        let j = choose|j: int| 0 <= j < self.entries.len() && #[trigger] self.entries@[j].0@ == k;
        if j != i {
            if j < i {
                assert(self.entries@[j].0@ != self.entries@[i].0@);
            } else {
                assert(self.entries@[i].0@ != self.entries@[j].0@);
            }
        }
    }

    pub fn new() -> (r: Self)
        ensures
            r.wf(),
            r@ == Map::<Seq<char>, Seq<Seq<char>>>::empty(),
    {
        let r = RouteTable { entries: Vec::new() };
        assert(r@ =~= Map::<Seq<char>, Seq<Seq<char>>>::empty());
        r
    }

    fn position(&self, key: &String) -> (r: Option<usize>)
        requires
            self.wf(),
        ensures
            match r {
                Some(i) => i < self.entries.len() && self.entries@[i as int].0@ == key@,
                None => !self@.contains_key(key@),
            },
    {
        let mut i: usize = 0;
        while i < self.entries.len()
            invariant
                i <= self.entries.len(),
                forall|k: int| 0 <= k < i ==> self.entries@[k].0@ != key@,
            decreases self.entries.len() - i,
        {
            if self.entries[i].0 == *key {
                return Some(i);
            }
            i = i + 1;
        }
        None
    }

    /// The outputs under `key`.
    pub fn get(&self, key: &String) -> (r: Option<&Vec<HandlerId>>)
        requires
            self.wf(),
        ensures
            match r {
                Some(v) => self@.contains_key(key@) && names_of(v@) == self@[key@],
                None => !self@.contains_key(key@),
            },
    {
        match self.position(key) {
            Some(i) => {
                proof {
                    self.lemma_at(i as int);
                }
                Some(&self.entries[i].1)
            },
            None => None,
        }
    }

    /// Appends `outputs` to the list under `key`, starting one if there is none.
    pub fn extend(&mut self, key: String, outputs: Vec<HandlerId>)
        requires
            old(self).wf(),
        ensures
            final(self).wf(),
            final(self)@ == old(self)@.insert(
                key@,
                if old(self)@.contains_key(key@) {
                    old(self)@[key@] + names_of(outputs@)
                } else {
                    names_of(outputs@)
                },
            ),
    {
        let ghost kv = key@;
        let ghost added = names_of(outputs@);
        match self.position(&key) {
            Some(i) => {
                proof {
                    self.lemma_at(i as int);
                }
                let ghost before = self.entries@;
                let mut entry = self.entries.remove(i);
                let ghost prev = entry.1@;
                let mut outs = outputs;
                entry.1.append(&mut outs);
                self.entries.insert(i, entry);
                proof {
                    assert(names_of(self.entries@[i as int].1@) =~= names_of(prev) + added);
                    assert forall|a: int| 0 <= a < self.entries.len() implies #[trigger] self.entries@[a].0@
                        == before[a].0@ by {}
                    assert forall|a: int| 0 <= a < self.entries.len() && a != i implies #[trigger] self.entries@[a]
                        == before[a] by {}
                    assert forall|a: int, b: int|
                        0 <= a < b < self.entries.len() implies #[trigger] self.entries@[a].0@
                        != #[trigger] self.entries@[b].0@ by {
                        assert(old(self).entries@[a].0@ != old(self).entries@[b].0@);
                    }
                    assert forall|q: Seq<char>| #[trigger] self@.contains_key(q) == old(self)@.insert(
                        kv,
                        old(self)@[kv] + added,
                    ).contains_key(q) by {
                        if self@.contains_key(q) {
                            let a = choose|a: int| 0 <= a < self.entries.len() && #[trigger] self.entries@[a].0@ == q;
                            old(self).lemma_at(a);
                        }
                        if old(self)@.contains_key(q) {
                            let a = choose|a: int| 0 <= a < old(self).entries.len() && #[trigger] old(self).entries@[a].0@ == q;
                            self.lemma_at(a);
                        }
                    }
                    assert forall|q: Seq<char>| #[trigger] self@.contains_key(q) implies self@[q] == old(self)@.insert(
                        kv,
                        old(self)@[kv] + added,
                    )[q] by {
                        let a = choose|a: int| 0 <= a < self.entries.len() && #[trigger] self.entries@[a].0@ == q;
                        self.lemma_at(a);
                        old(self).lemma_at(a);
                    }
                    assert(self@ =~= old(self)@.insert(kv, old(self)@[kv] + added));
                }
            },
            None => {
                let ghost before = self.entries@;
                self.entries.push((key, outputs));
                proof {
                    let n = before.len() as int;
                    assert forall|a: int, b: int|
                        0 <= a < b < self.entries.len() implies #[trigger] self.entries@[a].0@
                        != #[trigger] self.entries@[b].0@ by {
                        if b == n {
                            old(self).lemma_at(a);
                        } else {
                            assert(old(self).entries@[a].0@ != old(self).entries@[b].0@);
                        }
                    }
                    assert forall|q: Seq<char>| #[trigger] self@.contains_key(q) == old(self)@.insert(
                        kv,
                        added,
                    ).contains_key(q) by {
                        if self@.contains_key(q) && q != kv {
                            let a = choose|a: int| 0 <= a < self.entries.len() && #[trigger] self.entries@[a].0@ == q;
                            assert(a < n);
                            old(self).lemma_at(a);
                        }
                        if old(self)@.contains_key(q) {
                            let a = choose|a: int| 0 <= a < old(self).entries.len() && #[trigger] old(self).entries@[a].0@ == q;
                            self.lemma_at(a);
                        }
                        if q == kv {
                            self.lemma_at(n);
                        }
                    }
                    assert forall|q: Seq<char>| #[trigger] self@.contains_key(q) implies self@[q] == old(self)@.insert(
                        kv,
                        added,
                    )[q] by {
                        let a = choose|a: int| 0 <= a < self.entries.len() && #[trigger] self.entries@[a].0@ == q;
                        self.lemma_at(a);
                        if a < n {
                            old(self).lemma_at(a);
                        }
                    }
                    assert(self@ =~= old(self)@.insert(kv, added));
                }
            },
        }
    }

    pub fn is_empty(&self) -> (r: bool)
        requires
            self.wf(),
        ensures
            r == (self@.dom() == Set::<Seq<char>>::empty()),
    {
        if self.entries.len() == 0 {
            assert(self@.dom() =~= Set::<Seq<char>>::empty());
            true
        } else {
            proof {
                self.lemma_at(0);
                assert(self@.dom().contains(self.entries@[0].0@));
            }
            false
        }
    }
}

/// Maps inputs to the output handlers that their results go to.
pub struct EventRouter {
    routes: RouteTable,
    source_routes: RouteTable,
}

impl EventRouter {
    /// Outputs by input handler name.
    pub closed spec fn handler_routes(&self) -> Map<Seq<char>, Seq<Seq<char>>> {
        self.routes@
    }

    /// Outputs by input source name.
    pub closed spec fn source_routes(&self) -> Map<Seq<char>, Seq<Seq<char>>> {
        self.source_routes@
    }

    pub closed spec fn wf(&self) -> bool {
        self.routes.wf() && self.source_routes.wf()
    }

    pub fn new() -> (r: Self)
        ensures
            r.wf(),
            r.handler_routes() == Map::<Seq<char>, Seq<Seq<char>>>::empty(),
            r.source_routes() == Map::<Seq<char>, Seq<Seq<char>>>::empty(),
    {
        EventRouter { routes: RouteTable::new(), source_routes: RouteTable::new() }
    }

    /// Adds `route`: its outputs are appended to those of its input handler.
    pub fn add_route(&mut self, route: Route)
        requires
            old(self).wf(),
        ensures
            final(self).wf(),
            final(self).source_routes() == old(self).source_routes(),
            final(self).handler_routes() == old(self).handler_routes().insert(
                route.from.spec_name(),
                if old(self).handler_routes().contains_key(route.from.spec_name()) {
                    old(self).handler_routes()[route.from.spec_name()] + names_of(route.to@)
                } else {
                    names_of(route.to@)
                },
            ),
    {
        let Route { from, to } = route;
        self.routes.extend(from.name, to);
    }

    /// Adds outputs for every input from the source kind `S`.
    pub fn add_source_route<S: HandlerMarker>(&mut self, outputs: Vec<HandlerId>)
        requires
            old(self).wf(),
        ensures
            final(self).wf(),
            final(self).handler_routes() == old(self).handler_routes(),
            final(self).source_routes() == old(self).source_routes().insert(
                S::marker_id(),
                if old(self).source_routes().contains_key(S::marker_id()) {
                    old(self).source_routes()[S::marker_id()] + names_of(outputs@)
                } else {
                    names_of(outputs@)
                },
            ),
    {
        self.source_routes.extend(S::id(), outputs);
    }

    /// The outputs routed from input handler `handler_id`.
    pub fn get_outputs_for_handler(&self, handler_id: &HandlerId) -> (r: Option<&[HandlerId]>)
        requires
            self.wf(),
        ensures
            match r {
                Some(v) => self.handler_routes().contains_key(handler_id.spec_name()) && names_of(v@)
                    == self.handler_routes()[handler_id.spec_name()],
                None => !self.handler_routes().contains_key(handler_id.spec_name()),
            },
    {
        match self.routes.get(&handler_id.name) {
            Some(v) => Some(v.as_slice()),
            None => None,
        }
    }

    /// The outputs routed from the input source named `source_type`.
    pub fn get_outputs_for_source_type(&self, source_type: &String) -> (r: Option<&[HandlerId]>)
        requires
            self.wf(),
        ensures
            match r {
                Some(v) => self.source_routes().contains_key(source_type@) && names_of(v@)
                    == self.source_routes()[source_type@],
                None => !self.source_routes().contains_key(source_type@),
            },
    {
        match self.source_routes.get(source_type) {
            Some(v) => Some(v.as_slice()),
            None => None,
        }
    }

    /// The outputs for an event from `source`: those routed from that source,
    /// or none, which means every handler.
    pub fn get_outputs_for_event(&self, source: &String) -> (r: Vec<HandlerId>)
        requires
            self.wf(),
        ensures
            names_of(r@) == if self.source_routes().contains_key(source@) {
                self.source_routes()[source@]
            } else {
                Seq::<Seq<char>>::empty()
            },
    {
        match self.source_routes.get(source) {
            Some(v) => copy_ids(v),
            None => {
                let r: Vec<HandlerId> = Vec::new();
                assert(names_of(r@) =~= Seq::<Seq<char>>::empty());
                r
            },
        }
    }

    /// Whether any route is configured.
    pub fn has_routes(&self) -> (r: bool)
        requires
            self.wf(),
        ensures
            r == (self.handler_routes().dom() != Set::<Seq<char>>::empty()
                || self.source_routes().dom() != Set::<Seq<char>>::empty()),
    {
        !self.routes.is_empty() || !self.source_routes.is_empty()
    }
}

/// The handlers that an event's outputs go to: the routed ones where the
/// router has routes and yields some for the event's source; otherwise
/// every registered handler.
pub fn target_handlers(router: &EventRouter, source: &String, all_handlers: &Vec<HandlerId>) -> (r: Vec<HandlerId>)
    requires
        router.wf(),
    ensures
        names_of(r@) == if (router.handler_routes().dom() != Set::<Seq<char>>::empty()
            || router.source_routes().dom() != Set::<Seq<char>>::empty())
            && router.source_routes().contains_key(source@)
            && router.source_routes()[source@].len() > 0 {
            router.source_routes()[source@]
        } else {
            names_of(all_handlers@)
        },
{
    if router.has_routes() {
        let ids = router.get_outputs_for_event(source);
        if ids.len() > 0 {
            return ids;
        }
    }
    copy_ids(all_handlers)
}

} // verus!
