use vstd::prelude::*;
use crate::definition::ServiceDef;
use crate::pattern::{classify, pattern_of, InteractionPattern};

verus! {

/// The route of a method: `/{package}.{service}/{method}`.
pub open spec fn route_of(package: Seq<char>, service: Seq<char>, method: Seq<char>) -> Seq<char> {
    seq!['/'] + package + seq!['.'] + service + seq!['/'] + method
}

/// The route of method `i` of a bound service.
pub open spec fn method_route(def: &ServiceDef, i: int) -> Seq<char> {
    route_of(def.package@, def.proto_name@, def.methods@[i].proto_name@)
}

/// Builds the route of a method.
pub fn route_path(package: &str, service: &str, method: &str) -> (r: String)
    ensures
        r@ == route_of(package@, service@, method@),
{
    proof {
        reveal_strlit("/");
        reveal_strlit(".");
    }
    let mut r = String::from_str("/");
    r.append(package);
    r.append(".");
    r.append(service);
    r.append("/");
    r.append(method);
    r
}

/// Two routes of one service are equal only where the method names are.
pub proof fn lemma_route_injective(package: Seq<char>, service: Seq<char>, a: Seq<char>, b: Seq<char>)
    requires
        route_of(package, service, a) == route_of(package, service, b),
    ensures
        a == b,
{
    let prefix = seq!['/'] + package + seq!['.'] + service + seq!['/'];
    assert(route_of(package, service, a) == prefix + a);
    assert(route_of(package, service, b) == prefix + b);
    assert(a =~= (prefix + a).subrange(prefix.len() as int, (prefix + a).len() as int));
    assert(b =~= (prefix + b).subrange(prefix.len() as int, (prefix + b).len() as int));
}

/// Exact-match routing from a request path to a method of a bound service.
#[derive(Debug)]
pub struct Router {
    pub routes: Vec<String>,
    pub patterns: Vec<InteractionPattern>,
}

impl Router {
    /// One pattern for each route, and no route twice.
    pub open spec fn wf(&self) -> bool {
        &&& self.patterns@.len() == self.routes@.len()
        &&& forall|i: int, j: int|
            0 <= i < self.routes@.len() && 0 <= j < self.routes@.len() && i != j ==> (
            #[trigger] self.routes@[i])@ != (#[trigger] self.routes@[j])@
    }

    /// Route `i` is method `i` of `def`, with that method's pattern.
    pub open spec fn serves(&self, def: &ServiceDef) -> bool {
        &&& self.routes@.len() == def.methods@.len()
        &&& forall|i: int|
            0 <= i < self.routes@.len() ==> (#[trigger] self.routes@[i])@ == method_route(def, i)
        &&& forall|i: int|
            0 <= i < self.routes@.len() ==> #[trigger] self.patterns@[i] == pattern_of(
                def.methods@[i].client_streaming,
                def.methods@[i].server_streaming,
            )
    }

    /// The method whose route is exactly `path`, if any.
    pub open spec fn resolve(&self, path: Seq<char>) -> Option<int> {
        if exists|i: int| 0 <= i < self.routes@.len() && (#[trigger] self.routes@[i])@ == path {
            Some(choose|i: int| 0 <= i < self.routes@.len() && (#[trigger] self.routes@[i])@ == path)
        } else {
            None
        }
    }

    /// Builds the routing table of a bound service.
    pub fn new(def: &ServiceDef) -> (r: Router)
        requires
            def.wf(),
        ensures
            r.wf(),
            r.serves(def),
    {
        let mut routes: Vec<String> = Vec::new();
        let mut patterns: Vec<InteractionPattern> = Vec::new();
        let mut i: usize = 0;
        while i < def.methods.len()
            invariant
                def.wf(),
                i <= def.methods@.len(),
                routes@.len() == i,
                patterns@.len() == i,
                forall|l: int| 0 <= l < i ==> (#[trigger] routes@[l])@ == method_route(def, l),
                forall|l: int|
                    0 <= l < i ==> #[trigger] patterns@[l] == pattern_of(
                        def.methods@[l].client_streaming,
                        def.methods@[l].server_streaming,
                    ),
            decreases def.methods@.len() - i,
        {
            let m = &def.methods[i];
            routes.push(route_path(def.package.as_str(), def.proto_name.as_str(), m.proto_name.as_str()));
            patterns.push(classify(m.client_streaming, m.server_streaming));
            i = i + 1;
        }
        let r = Router { routes, patterns };
        assert forall|a: int, b: int|
            0 <= a < r.routes@.len() && 0 <= b < r.routes@.len() && a != b implies (
            #[trigger] r.routes@[a])@ != (#[trigger] r.routes@[b])@ by {
            if r.routes@[a]@ == r.routes@[b]@ {
                lemma_route_injective(
                    def.package@,
                    def.proto_name@,
                    def.methods@[a].proto_name@,
                    def.methods@[b].proto_name@,
                );
            }
        }
        r
    }

    /// The method whose route is exactly `path`; `None` for any other path.
    pub fn lookup(&self, path: &str) -> (r: Option<usize>)
        requires
            self.wf(),
        ensures
            match r {
                Some(i) => self.resolve(path@) == Some(i as int) && i < self.routes@.len(),
                None => self.resolve(path@) is None,
            },
    {
        let key = String::from_str(path);
        let mut i: usize = 0;
        while i < self.routes.len()
            invariant
                self.wf(),
                key@ == path@,
                i <= self.routes@.len(),
                forall|l: int| 0 <= l < i ==> (#[trigger] self.routes@[l])@ != path@,
            decreases self.routes@.len() - i,
        {
            if self.routes[i] == key {
                assert(self.routes@[i as int]@ == path@);
                return Some(i);
            }
            i = i + 1;
        }
        None
    }
}

} // verus!
