use vstd::prelude::*;

use crate::endpoint::{
    is_valid_status, method_name, method_of, parse_method, valid_status, Method, Service, Source,
};

verus! {

/// What a matched request is answered with: the body file, its content type and the status.
#[derive(Clone, Debug)]
pub struct Rule {
    pub content_type: String,
    pub response: String,
    pub status: u16,
}

pub ghost struct RuleModel {
    pub content_type: Seq<char>,
    pub response: Seq<char>,
    pub status: u16,
}

impl View for Rule {
    type V = RuleModel;

    open spec fn view(&self) -> RuleModel {
        RuleModel {
            content_type: self.content_type@,
            response: self.response@,
            status: self.status,
        }
    }
}

impl Rule {
    /// A field-by-field copy.
    pub fn duplicate(&self) -> (r: Rule)
        ensures
            r@ == self@,
    {
        Rule {
            content_type: self.content_type.clone(),
            response: self.response.clone(),
            status: self.status,
        }
    }
}

/// A route key: the method and the full path of a request.
pub type RouteKey = (Method, Seq<char>);

/// One compiled route: a method and full path bound to a rule.
#[derive(Clone, Debug)]
pub struct Route {
    pub method: Method,
    pub path: String,
    pub rule: Rule,
}

pub ghost struct RouteModel {
    pub method: Method,
    pub path: Seq<char>,
    pub rule: RuleModel,
}

impl RouteModel {
    pub open spec fn key(self) -> RouteKey {
        (self.method, self.path)
    }
}

impl View for Route {
    type V = RouteModel;

    open spec fn view(&self) -> RouteModel {
        RouteModel { method: self.method, path: self.path@, rule: self.rule@ }
    }
}

impl Route {
    /// A field-by-field copy.
    pub fn duplicate(&self) -> (r: Route)
        ensures
            r@ == self@,
    {
        Route { method: self.method, path: self.path.clone(), rule: self.rule.duplicate() }
    }
}

/// A configuration mistake that stops the gateway from starting.
#[derive(Clone, Debug)]
pub enum ConfigError {
    UnsupportedMethod { method: String },
    InvalidStatus { status: u16 },
}

pub ghost enum ConfigFault {
    UnsupportedMethod(Seq<char>),
    InvalidStatus(u16),
}

impl View for ConfigError {
    type V = ConfigFault;

    open spec fn view(&self) -> ConfigFault {
        match self {
            ConfigError::UnsupportedMethod { method } => ConfigFault::UnsupportedMethod(method@),
            ConfigError::InvalidStatus { status } => ConfigFault::InvalidStatus(*status),
        }
    }
}

/// What is wrong with one source, if anything: the method is checked before the status.
pub open spec fn source_fault(s: Source) -> Option<ConfigFault> {
    if method_of(s.method@).is_none() {
        Some(ConfigFault::UnsupportedMethod(s.method@))
    } else if !valid_status(s.status) {
        Some(ConfigFault::InvalidStatus(s.status))
    } else {
        None
    }
}

/// The fault of the first faulty source, in declaration order.
pub open spec fn first_fault(sources: Seq<Source>) -> Option<ConfigFault>
    decreases sources.len(),
{
    if sources.len() == 0 {
        None
    } else {
        match first_fault(sources.drop_last()) {
            Some(f) => Some(f),
            None => source_fault(sources.last()),
        }
    }
}

/// The fault of the first faulty source over all services, in declaration order.
pub open spec fn config_fault(services: Seq<Service>) -> Option<ConfigFault>
    decreases services.len(),
{
    if services.len() == 0 {
        None
    } else {
        match config_fault(services.drop_last()) {
            Some(f) => Some(f),
            None => first_fault(services.last().sources@),
        }
    }
}

pub open spec fn rule_of(s: Source) -> RuleModel {
    RuleModel { content_type: s.content_type@, response: s.response@, status: s.status }
}

/// The route a valid source declares: its path is the prefix followed by the endpoint,
/// with no normalisation of slashes.
pub open spec fn route_of(prefix: Seq<char>, s: Source) -> RouteModel {
    RouteModel {
        method: method_of(s.method@).unwrap(),
        path: prefix + s.endpoint@,
        rule: rule_of(s),
    }
}

/// The routes one service declares, in order.
pub open spec fn service_routes(svc: Service) -> Seq<RouteModel> {
    svc.sources@.map_values(|s: Source| route_of(svc.prefix@, s))
}

/// The routes all services declare, in order.
pub open spec fn declared(services: Seq<Service>) -> Seq<RouteModel>
    decreases services.len(),
{
    if services.len() == 0 {
        Seq::empty()
    } else {
        declared(services.drop_last()) + service_routes(services.last())
    }
}

/// The table that binding `routes` in order gives: a later route with the same key
/// replaces an earlier one.
pub open spec fn table_of(routes: Seq<RouteModel>) -> Map<RouteKey, RuleModel>
    decreases routes.len(),
{
    if routes.len() == 0 {
        Map::empty()
    } else {
        table_of(routes.drop_last()).insert(routes.last().key(), routes.last().rule)
    }
}

/// No route after the one at `i` has its key.
pub open spec fn last_with_key(routes: Seq<RouteModel>, i: int) -> bool {
    forall|j: int| i < j < routes.len() ==> #[trigger] routes[j].key() != routes[i].key()
}

pub open spec fn unique_keys(routes: Seq<RouteModel>) -> bool {
    forall|i: int, j: int|
        0 <= i < j < routes.len() ==> #[trigger] routes[i].key() != #[trigger] routes[j].key()
}

proof fn lemma_first_fault_extends(s: Seq<Source>, i: int)
    requires
        0 <= i <= s.len(),
        first_fault(s.take(i)) is Some,
    ensures
        first_fault(s) == first_fault(s.take(i)),
    decreases s.len() - i,
{
    if i < s.len() {
        assert(s.take(i + 1).drop_last() =~= s.take(i));
        lemma_first_fault_extends(s, i + 1);
    } else {
        assert(s.take(i) =~= s);
    }
}

proof fn lemma_config_fault_extends(s: Seq<Service>, i: int)
    requires
        0 <= i <= s.len(),
        config_fault(s.take(i)) is Some,
    ensures
        config_fault(s) == config_fault(s.take(i)),
    decreases s.len() - i,
{
    if i < s.len() {
        assert(s.take(i + 1).drop_last() =~= s.take(i));
        lemma_config_fault_extends(s, i + 1);
    } else {
        assert(s.take(i) =~= s);
    }
}

/// Binding routes in order gives one entry per declared key, and each key is bound to
/// the rule of the last route that declares it.
pub proof fn lemma_table_of(routes: Seq<RouteModel>)
    ensures
        forall|i: int| 0 <= i < routes.len() ==> table_of(routes).contains_key(#[trigger] routes[i].key()),
        forall|k: RouteKey| #[trigger] table_of(routes).contains_key(k) ==> exists|i: int|
            0 <= i < routes.len() && #[trigger] routes[i].key() == k,
        forall|i: int|
            0 <= i < routes.len() && #[trigger] last_with_key(routes, i)
                ==> table_of(routes)[routes[i].key()] == routes[i].rule,
    decreases routes.len(),
{
    if routes.len() > 0 {
        let init = routes.drop_last();
        lemma_table_of(init);
        let n = routes.len() - 1;
        assert forall|i: int| 0 <= i < routes.len() implies table_of(routes).contains_key(#[trigger] routes[i].key()) by {
            if i < n {
                assert(routes[i] == init[i]);
            }
        }
        assert forall|k: RouteKey| #[trigger] table_of(routes).contains_key(k) implies exists|i: int|
            0 <= i < routes.len() && #[trigger] routes[i].key() == k by {
            assert(table_of(routes) == table_of(init).insert(routes[n].key(), routes[n].rule));
            if k == routes[n].key() {
                assert(routes[n].key() == k);
            } else {
                assert(table_of(init).contains_key(k));
                let i = choose|i: int| 0 <= i < init.len() && #[trigger] init[i].key() == k;
                assert(routes[i] == init[i]);
            }
        }
        assert forall|i: int|
            0 <= i < routes.len() && #[trigger] last_with_key(routes, i)
            implies table_of(routes)[routes[i].key()] == routes[i].rule by {
            if i < n {
                assert(routes[i] == init[i]);
                assert(routes[n].key() != routes[i].key());
                assert forall|j: int| i < j < init.len() implies #[trigger] init[j].key() != init[i].key() by {
                    assert(routes[j] == init[j]);
                }
                assert(last_with_key(init, i));
            }
        }
    }
}

/// The table compiled from a valid configuration has exactly one entry per declared
/// (method, prefix + endpoint) pair, and a pair declared more than once is bound to the
/// rule of its last declaration.
pub proof fn lemma_compiled_table(services: Seq<Service>)
    ensures
        forall|i: int| 0 <= i < declared(services).len() ==> table_of(declared(services)).contains_key(
            #[trigger] declared(services)[i].key(),
        ),
        forall|k: RouteKey| #[trigger] table_of(declared(services)).contains_key(k) ==> exists|i: int|
            0 <= i < declared(services).len() && #[trigger] declared(services)[i].key() == k,
        forall|i: int|
            0 <= i < declared(services).len() && #[trigger] last_with_key(declared(services), i)
                ==> table_of(declared(services))[declared(services)[i].key()] == declared(services)[i].rule,
{
    lemma_table_of(declared(services));
}

/// Compiles the sources of one service into routes, in declaration order.
/// Fails on the first source whose method is not one of the five verbs or whose
/// status is not a status code.
pub fn create_route(service: &Service) -> (r: Result<Vec<Route>, ConfigError>)
    ensures
        match r {
            Ok(v) => first_fault(service.sources@) is None && v@.map_values(|x: Route| x@)
                == service_routes(*service),
            Err(e) => first_fault(service.sources@) == Some(e@),
        },
{
    let mut out: Vec<Route> = Vec::new();
    let mut i: usize = 0;
    while i < service.sources.len()
        invariant
            i <= service.sources@.len(),
            first_fault(service.sources@.take(i as int)) is None,
            out@.len() == i,
            forall|j: int| 0 <= j < i ==> #[trigger] out@[j]@ == route_of(service.prefix@, service.sources@[j]),
        decreases service.sources@.len() - i,
    {
        let s = &service.sources[i];
        proof {
            assert(service.sources@.take(i + 1).drop_last() =~= service.sources@.take(i as int));
            assert(service.sources@.take(i + 1).last() == *s);
        }
        match parse_method(&s.method) {
            None => {
                let e = ConfigError::UnsupportedMethod { method: s.method.clone() };
                proof {
                    lemma_first_fault_extends(service.sources@, i + 1);
                }
                return Err(e);
            },
            Some(m) => {
                if !is_valid_status(s.status) {
                    let e = ConfigError::InvalidStatus { status: s.status };
                    proof {
                        lemma_first_fault_extends(service.sources@, i + 1);
                    }
                    return Err(e);
                }
                let mut path = service.prefix.clone();
                path.append(s.endpoint.as_str());
                let rule = Rule {
                    content_type: s.content_type.clone(),
                    response: s.response.clone(),
                    status: s.status,
                };
                out.push(Route { method: m, path, rule });
            },
        }
        i += 1;
    }
    proof {
        assert(service.sources@.take(i as int) =~= service.sources@);
        assert(out@.map_values(|x: Route| x@) =~= service_routes(*service));
    }
    Ok(out)
}

/// The compiled route table: each route key bound once, to its rule.
pub struct RouteTable {
    routes: Vec<Route>,
}

impl RouteTable {
    /// The entries of the table, in the order they were first bound.
    pub closed spec fn entries(&self) -> Seq<RouteModel> {
        self.routes@.map_values(|x: Route| x@)
    }

    /// No two entries share a route key.
    pub open spec fn wf(&self) -> bool {
        unique_keys(self.entries())
    }
}

impl View for RouteTable {
    type V = Map<RouteKey, RuleModel>;

    open spec fn view(&self) -> Map<RouteKey, RuleModel> {
        table_of(self.entries())
    }
}

impl RouteTable {
    /// An empty table.
    pub fn new() -> (r: RouteTable)
        ensures
            r.wf(),
            r.entries().len() == 0,
            r@ == Map::<RouteKey, RuleModel>::empty(),
    {
        let r = RouteTable { routes: Vec::new() };
        assert(r.entries() =~= Seq::<RouteModel>::empty());
        r
    }

    /// The entries, one per route key.
    pub fn routes(&self) -> (r: &Vec<Route>)
        ensures
            r@.map_values(|x: Route| x@) == self.entries(),
    {
        &self.routes
    }

    /// Binds the route's key to its rule, replacing an earlier binding of that key.
    pub fn insert(&mut self, route: &Route)
        requires
            old(self).wf(),
        ensures
            final(self).wf(),
            final(self)@ == old(self)@.insert(route@.key(), route@.rule),
    {
        let ghost before = self.entries();
        let mut i: usize = 0;
        while i < self.routes.len()
            invariant
                self.entries() == before,
                before == old(self).entries(),
                unique_keys(before),
                i <= before.len(),
                forall|j: int| 0 <= j < i ==> #[trigger] before[j].key() != route@.key(),
            decreases before.len() - i,
        {
            if self.routes[i].method == route.method && self.routes[i].path == route.path {
                self.routes.set(i, route.duplicate());
                proof {
                    let after = self.entries();
                    assert(after =~= before.update(i as int, route@));
                    assert forall|a: int, b: int| 0 <= a < b < after.len() implies
                        #[trigger] after[a].key() != #[trigger] after[b].key() by {
                        assert(before[a].key() != before[b].key());
                    }
                    lemma_table_of(before);
                    lemma_table_of(after);
                    let want = table_of(before).insert(route@.key(), route@.rule);
                    assert forall|k: RouteKey| #[trigger] table_of(after).contains_key(k) <==> want.contains_key(k) by {
                        if table_of(after).contains_key(k) {
                            let j = choose|j: int| 0 <= j < after.len() && #[trigger] after[j].key() == k;
                            if j != i {
                                assert(before[j].key() == k);
                            }
                        }
                        if want.contains_key(k) && k != route@.key() {
                            let j = choose|j: int| 0 <= j < before.len() && #[trigger] before[j].key() == k;
                            assert(after[j].key() == k);
                        }
                        if k == route@.key() {
                            assert(after[i as int].key() == k);
                        }
                    }
                    assert forall|k: RouteKey| #[trigger] table_of(after).contains_key(k) implies
                        table_of(after)[k] == want[k] by {
                        let j = choose|j: int| 0 <= j < after.len() && #[trigger] after[j].key() == k;
                        assert forall|l: int| j < l < after.len() implies #[trigger] after[l].key() != after[j].key() by {
                        }
                        assert(last_with_key(after, j));
                        if j != i {
                            assert(before[j] == after[j]);
                            assert(after[i as int].key() != after[j].key());
                            assert forall|l: int| j < l < before.len() implies #[trigger] before[l].key() != before[j].key() by {
                            }
                            assert(last_with_key(before, j));
                        }
                    }
                    assert(table_of(after) =~= want);
                }
                return;
            }
            i += 1;
        }
        self.routes.push(route.duplicate());
        proof {
            let after = self.entries();
            assert(after =~= before.push(route@));
            assert(after.drop_last() =~= before);
            assert forall|a: int, b: int| 0 <= a < b < after.len() implies
                #[trigger] after[a].key() != #[trigger] after[b].key() by {
                if b < before.len() {
                    assert(before[a].key() != before[b].key());
                } else {
                    assert(before[a].key() != route@.key());
                }
            }
        }
    }

    /// The rule bound to a method and path, if the table holds that key.
    pub fn lookup(&self, method: Method, path: &String) -> (r: Option<&Rule>)
        requires
            self.wf(),
        ensures
            match r {
                Some(x) => self@.contains_key((method, path@)) && x@ == self@[(method, path@)],
                None => !self@.contains_key((method, path@)),
            },
    {
        let mut i: usize = 0;
        while i < self.routes.len()
            invariant
                self.wf(),
                i <= self.entries().len(),
                forall|j: int| 0 <= j < i ==> #[trigger] self.entries()[j].key() != (method, path@),
            decreases self.entries().len() - i,
        {
            if self.routes[i].method == method && self.routes[i].path == *path {
                proof {
                    assert(self.entries()[i as int] == self.routes@[i as int]@);
                    assert forall|l: int| i < l < self.entries().len() implies
                        #[trigger] self.entries()[l].key() != self.entries()[i as int].key() by {
                    }
                    assert(last_with_key(self.entries(), i as int));
                    lemma_table_of(self.entries());
                }
                return Some(&self.routes[i].rule);
            }
            assert(self.entries()[i as int] == self.routes@[i as int]@);
            i += 1;
        }
        proof {
            lemma_table_of(self.entries());
            if self@.contains_key((method, path@)) {
                let j = choose|j: int| 0 <= j < self.entries().len() && #[trigger] self.entries()[j].key() == (method, path@);
            }
        }
        None
    }
}

/// Compiles every service into one route table, services and sources in declaration
/// order. A key declared twice is bound to the rule declared last. Fails on the first
/// faulty source, in the same order.
pub fn register_route(services: &Vec<Service>) -> (r: Result<RouteTable, ConfigError>)
    ensures
        match r {
            Ok(t) => {
                &&& config_fault(services@) is None
                &&& t.wf()
                &&& t@ == table_of(declared(services@))
            },
            Err(e) => config_fault(services@) == Some(e@),
        },
{
    let mut table = RouteTable::new();
    let mut i: usize = 0;
    while i < services.len()
        invariant
            i <= services@.len(),
            config_fault(services@.take(i as int)) is None,
            table.wf(),
            table@ == table_of(declared(services@.take(i as int))),
        decreases services@.len() - i,
    {
        let ghost done = declared(services@.take(i as int));
        proof {
            assert(services@.take(i + 1).drop_last() =~= services@.take(i as int));
            assert(services@.take(i + 1).last() == services@[i as int]);
        }
        match create_route(&services[i]) {
            Err(e) => {
                proof {
                    lemma_config_fault_extends(services@, i + 1);
                }
                return Err(e);
            },
            Ok(routes) => {
                let ghost added = service_routes(services@[i as int]);
                let mut j: usize = 0;
                while j < routes.len()
                    invariant
                        j <= routes@.len(),
                        routes@.map_values(|x: Route| x@) == added,
                        table.wf(),
                        table@ == table_of(done + added.take(j as int)),
                    decreases routes@.len() - j,
                {
                    table.insert(&routes[j]);
                    proof {
                        assert((done + added.take(j + 1)).drop_last() =~= done + added.take(j as int));
                        assert(added[j as int] == routes@[j as int]@);
                    }
                    j += 1;
                }
                proof {
                    assert(added.take(j as int) =~= added);
                }
            },
        }
        i += 1;
    }
    proof {
        assert(services@.take(i as int) =~= services@);
    }
    Ok(table)
}

/// The store key of a route: the method name, one space, then the path.
pub open spec fn route_key_of(method: Method, path: Seq<char>) -> Seq<char> {
    method_name(method) + seq![' '] + path
}

/// The key under which the rule store holds the rule of a route. Every route has a key
/// of its own, so two routes never share a stored rule.
pub fn route_key(method: Method, path: &String) -> (r: String)
    ensures
        r@ == route_key_of(method, path@),
{
    let mut k = method.as_string();
    proof {
        reveal_strlit(" ");
    }
    k.append(" ");
    k.append(path.as_str());
    assert(k@ =~= route_key_of(method, path@));
    k
}

/// Distinct routes have distinct store keys: no method name holds a space, so the
/// first space ends the method.
pub proof fn lemma_route_key_injective(m1: Method, p1: Seq<char>, m2: Method, p2: Seq<char>)
    ensures
        route_key_of(m1, p1) == route_key_of(m2, p2) ==> m1 == m2 && p1 == p2,
{
    if route_key_of(m1, p1) == route_key_of(m2, p2) {
        let k = route_key_of(m1, p1);
        let n1 = method_name(m1).len() as int;
        let n2 = method_name(m2).len() as int;
        assert(k[n1] == ' ');
        assert(k[n2] == ' ');
        assert(forall|j: int| 0 <= j < n1 ==> method_name(m1)[j] != ' ');
        assert(forall|j: int| 0 <= j < n2 ==> method_name(m2)[j] != ' ');
        if n1 < n2 {
            assert(k[n1] == method_name(m2)[n1]);
        } else if n2 < n1 {
            assert(k[n2] == method_name(m1)[n2]);
        }
        assert(method_name(m1) =~= k.take(n1));
        assert(method_name(m2) =~= k.take(n2));
        assert(m1 == m2) by {
            if m1 != m2 {
                assert(k[0] == method_name(m1)[0]);
                assert(k[0] == method_name(m2)[0]);
                assert(k[1] == method_name(m1)[1]);
                assert(k[1] == method_name(m2)[1]);
            }
        }
        assert(p1 =~= k.skip(n1 + 1));
        assert(p2 =~= k.skip(n2 + 1));
    }
}

} // verus!
