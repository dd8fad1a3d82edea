use vstd::prelude::*;
use crate::definition::ServiceDef;
use crate::pattern::InteractionPattern;
use crate::route::{method_route, Router};
use crate::status::{Code, Status};

verus! {

/// Where a request goes: to a method with its pattern, or nowhere.
#[derive(Debug)]
pub enum Dispatch {
    Call { method: usize, pattern: InteractionPattern },
    Unimplemented(Status),
}

/// The routing side of a served service: it resolves each request on its own
/// and keeps no state between requests.
#[derive(Debug)]
pub struct Dispatcher {
    pub router: Router,
}

impl Dispatcher {
    /// Builds the dispatcher of a bound service.
    pub fn new(def: &ServiceDef) -> (r: Dispatcher)
        requires
            def.wf(),
        ensures
            r.router.wf(),
            r.router.serves(def),
    {
        Dispatcher { router: Router::new(def) }
    }

    /// Resolves a request path: the method whose route it is exactly, with
    /// that method's pattern, or an `Unimplemented` status naming the path.
    pub fn handle(&self, path: &str) -> (r: Dispatch)
        requires
            self.router.wf(),
        ensures
            match self.router.resolve(path@) {
                Some(i) => r == (Dispatch::Call { method: i as usize, pattern: self.router.patterns@[i] }),
                None => r matches Dispatch::Unimplemented(s) && s.code == Code::Unimplemented
                    && s.message@ == path@,
            },
    {
        match self.router.lookup(path) {
            Some(i) => Dispatch::Call { method: i, pattern: self.router.patterns[i] },
            None => Dispatch::Unimplemented(Status::unimplemented(path)),
        }
    }
}

/// Each method of a bound service is reached by its own route, and that route
/// reaches no other method.
pub proof fn lemma_methods_routable(router: &Router, def: &ServiceDef, i: int)
    requires
        router.wf(),
        router.serves(def),
        0 <= i < def.methods@.len(),
    ensures
        router.resolve(method_route(def, i)) == Some(i),
        forall|p: Seq<char>| router.resolve(p) == Some(i) ==> p == method_route(def, i),
{
    assert(router.routes@[i]@ == method_route(def, i));
    assert forall|p: Seq<char>| router.resolve(p) == Some(i) implies p == method_route(def, i) by {
        assert(router.routes@[i]@ == p);
    }
}

/// A path that is the route of no method resolves to nothing.
pub proof fn lemma_undeclared_unimplemented(router: &Router, def: &ServiceDef, path: Seq<char>)
    requires
        router.wf(),
        router.serves(def),
        forall|i: int| 0 <= i < def.methods@.len() ==> path != #[trigger] method_route(def, i),
    ensures
        router.resolve(path) is None,
{
    if exists|i: int| 0 <= i < router.routes@.len() && (#[trigger] router.routes@[i])@ == path {
        let i = choose|i: int| 0 <= i < router.routes@.len() && (#[trigger] router.routes@[i])@ == path;
        assert(path == method_route(def, i));
    }
}

} // verus!
