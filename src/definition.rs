use vstd::prelude::*;

verus! {

/// syn's path type: the implementing type of a service, carried through as is.
#[verifier::external_type_specification]
#[verifier::external_body]
pub struct ExPath(syn::Path);

/// A method as the interface description declares it.
#[derive(Debug)]
pub struct Method {
    /// Name of the handler function that implements the method.
    pub name: String,
    /// Name of the method on the wire.
    pub proto_name: String,
    pub input_type: String,
    pub output_type: String,
    pub client_streaming: bool,
    pub server_streaming: bool,
}

/// A service as the interface description declares it.
#[derive(Debug)]
pub struct Service {
    pub name: String,
    pub package: String,
    pub proto_name: String,
    pub methods: Vec<Method>,
}

/// A function of the implementation block: its name and whether it is `async`.
#[derive(Clone, Debug)]
pub struct ImplFn {
    pub name: String,
    pub is_async: bool,
}

/// A service bound to its implementation: each declared method, in declaration
/// order, with the index of the function that handles it.
pub struct ServiceDef {
    pub name: syn::Path,
    pub name_str: String,
    pub package: String,
    pub proto_name: String,
    pub proto_path: String,
    pub methods: Vec<Method>,
    pub handlers: Vec<usize>,
}

/// What makes a service definition impossible to bind.
#[derive(Clone, Copy, Debug, PartialEq, Eq, Structural)]
pub enum BindErrorKind {
    /// Two declared methods share a handler name.
    DuplicateMethod,
    /// Two declared methods share a wire name, hence a route.
    DuplicateRoute,
    /// A declared method has no `async` function of its name.
    MissingHandler,
}

/// A binding failure, with the declaration it was found at.
#[derive(Debug)]
pub struct BindError {
    pub kind: BindErrorKind,
    pub index: usize,
    pub method: String,
}

/// Function `f` can handle method `m`.
pub open spec fn handles(f: ImplFn, m: Method) -> bool {
    f.is_async && f.name@ == m.name@
}

pub open spec fn has_handler(fns: Seq<ImplFn>, m: Method) -> bool {
    exists|k: int| 0 <= k < fns.len() && #[trigger] handles(fns[k], m)
}

/// `k` is the first function of `fns` that handles `m`.
pub open spec fn is_first_handler(fns: Seq<ImplFn>, m: Method, k: int) -> bool {
    &&& 0 <= k < fns.len()
    &&& handles(fns[k], m)
    &&& forall|j: int| 0 <= j < k ==> !#[trigger] handles(fns[j], m)
}

/// What is wrong with declaration `i`, given the declarations before it.
pub open spec fn problem_at(ms: Seq<Method>, fns: Seq<ImplFn>, i: int) -> Option<BindErrorKind> {
    if exists|j: int| 0 <= j < i && #[trigger] ms[j].name@ == ms[i].name@ {
        Some(BindErrorKind::DuplicateMethod)
    } else if exists|j: int| 0 <= j < i && #[trigger] ms[j].proto_name@ == ms[i].proto_name@ {
        Some(BindErrorKind::DuplicateRoute)
    } else if !has_handler(fns, ms[i]) {
        Some(BindErrorKind::MissingHandler)
    } else {
        None
    }
}

/// No two methods share a wire name.
pub open spec fn unique_wire_names(ms: Seq<Method>) -> bool {
    forall|i: int, j: int|
        0 <= i < ms.len() && 0 <= j < ms.len() && i != j ==> (#[trigger] ms[i]).proto_name@ != (
        #[trigger] ms[j]).proto_name@
}

/// Declarations that can be bound have unique wire names.
pub proof fn lemma_bindable_unique(ms: Seq<Method>, fns: Seq<ImplFn>)
    requires
        bindable(ms, fns),
    ensures
        unique_wire_names(ms),
{
    assert forall|i: int, j: int|
        0 <= i < ms.len() && 0 <= j < ms.len() && i != j implies (#[trigger] ms[i]).proto_name@
        != (#[trigger] ms[j]).proto_name@ by {
        let (a, b) = if i < j { (i, j) } else { (j, i) };
        assert(problem_at(ms, fns, b) is None);
        if ms[a].proto_name@ == ms[b].proto_name@ {
            assert(ms[a].name@ != ms[b].name@);
        }
    }
}

/// The declarations can be bound: unique names, unique wire names, and a
/// handler for each.
pub open spec fn bindable(ms: Seq<Method>, fns: Seq<ImplFn>) -> bool {
    forall|i: int| 0 <= i < ms.len() ==> (#[trigger] problem_at(ms, fns, i)) is None
}

impl ServiceDef {
    /// The methods and their handlers correspond one to one, and no two
    /// methods share a wire name.
    pub open spec fn wf(&self) -> bool {
        &&& self.handlers@.len() == self.methods@.len()
        &&& unique_wire_names(self.methods@)
    }

    /// Well formed, and bound to the functions `fns`: names and wire names are
    /// unique, and each handler is the first `async` function of its method's name.
    pub open spec fn bound_to(&self, fns: Seq<ImplFn>) -> bool {
        &&& self.wf()
        &&& bindable(self.methods@, fns)
        &&& forall|i: int|
            0 <= i < self.methods@.len() ==> is_first_handler(
                fns,
                self.methods@[i],
                #[trigger] self.handlers@[i] as int,
            )
    }
}

/// Index of the first function of `fns` that handles `m`, if any.
fn find_handler(fns: &Vec<ImplFn>, m: &Method) -> (r: Option<usize>)
    ensures
        match r {
            Some(k) => is_first_handler(fns@, *m, k as int),
            None => !has_handler(fns@, *m),
        },
{
    let mut k: usize = 0;
    while k < fns.len()
        invariant
            k <= fns@.len(),
            forall|j: int| 0 <= j < k ==> !#[trigger] handles(fns@[j], *m),
        decreases fns@.len() - k,
    {
        if fns[k].is_async && fns[k].name == m.name {
            return Some(k);
        }
        k = k + 1;
    }
    None
}

/// What is wrong with declaration `i`, checked as `problem_at` states it.
fn check_declaration(ms: &Vec<Method>, fns: &Vec<ImplFn>, i: usize) -> (r: Result<
    usize,
    BindErrorKind,
>)
    requires
        i < ms@.len(),
    ensures
        match r {
            Ok(k) => problem_at(ms@, fns@, i as int) is None && is_first_handler(
                fns@,
                ms@[i as int],
                k as int,
            ),
            Err(e) => problem_at(ms@, fns@, i as int) == Some(e),
        },
{
    let mut j: usize = 0;
    while j < i
        invariant
            i < ms@.len(),
            j <= i,
            forall|l: int| 0 <= l < j ==> #[trigger] ms@[l].name@ != ms@[i as int].name@,
        decreases i - j,
    {
        if ms[j].name == ms[i].name {
            return Err(BindErrorKind::DuplicateMethod);
        }
        j = j + 1;
    }
    let mut j: usize = 0;
    while j < i
        invariant
            i < ms@.len(),
            j <= i,
            forall|l: int| 0 <= l < i ==> #[trigger] ms@[l].name@ != ms@[i as int].name@,
            forall|l: int|
                0 <= l < j ==> #[trigger] ms@[l].proto_name@ != ms@[i as int].proto_name@,
        decreases i - j,
    {
        if ms[j].proto_name == ms[i].proto_name {
            return Err(BindErrorKind::DuplicateRoute);
        }
        j = j + 1;
    }
    match find_handler(fns, &ms[i]) {
        Some(k) => Ok(k),
        None => Err(BindErrorKind::MissingHandler),
    }
}

/// Binds the declared methods of `service` to the functions of an
/// implementation block. Methods keep their declaration order; functions that
/// no method declares are ignored. The first declaration that repeats a name or
/// a wire name, or that no `async` function handles, makes the binding fail.
pub fn parse_service_impl(name: syn::Path, fns: &Vec<ImplFn>, service: Service, proto_path: String) -> (r:
    Result<ServiceDef, BindError>)
    ensures
        match r {
            Ok(d) => {
                &&& d.bound_to(fns@)
                &&& d.methods@ == service.methods@
                &&& d.name == name
                &&& d.name_str == service.name
                &&& d.package == service.package
                &&& d.proto_name == service.proto_name
                &&& d.proto_path == proto_path
            },
            Err(e) => {
                &&& e.index < service.methods@.len()
                &&& problem_at(service.methods@, fns@, e.index as int) == Some(e.kind)
                &&& forall|j: int|
                    0 <= j < e.index ==> (#[trigger] problem_at(service.methods@, fns@, j)) is None
                &&& e.method@ == service.methods@[e.index as int].name@
            },
        },
{
    let mut handlers: Vec<usize> = Vec::new();
    let mut i: usize = 0;
    while i < service.methods.len()
        invariant
            i <= service.methods@.len(),
            handlers@.len() == i,
            forall|l: int| 0 <= l < i ==> (#[trigger] problem_at(service.methods@, fns@, l)) is None,
            forall|l: int|
                0 <= l < i ==> is_first_handler(
                    fns@,
                    service.methods@[l],
                    #[trigger] handlers@[l] as int,
                ),
        decreases service.methods@.len() - i,
    {
        match check_declaration(&service.methods, fns, i) {
            Ok(k) => {
                handlers.push(k);
            },
            Err(kind) => {
                let method = service.methods[i].name.clone();
                return Err(BindError { kind, index: i, method });
            },
        }
        i = i + 1;
    }
    proof {
        lemma_bindable_unique(service.methods@, fns@);
    }
    Ok(
        ServiceDef {
            name,
            name_str: service.name,
            package: service.package,
            proto_name: service.proto_name,
            proto_path,
            methods: service.methods,
            handlers,
        },
    )
}

/// In a bound definition a method's name identifies it: two methods with the
/// same name are the same method, so each declared method stands at exactly
/// one place, with the first `async` function of its name as handler.
pub proof fn lemma_bound_method_unique(d: &ServiceDef, fns: Seq<ImplFn>, i: int, j: int)
    requires
        d.bound_to(fns),
        0 <= i < d.methods@.len(),
        0 <= j < d.methods@.len(),
        d.methods@[i].name@ == d.methods@[j].name@,
    ensures
        i == j,
        is_first_handler(fns, d.methods@[i], d.handlers@[i] as int),
{
    let ms = d.methods@;
    assert(d.handlers@[i] == d.handlers@[i]);
    if i != j {
        let (a, b) = if i < j { (i, j) } else { (j, i) };
        assert(problem_at(ms, fns, b) is None);
        assert(ms[a].name@ == ms[b].name@);
    }
}

} // verus!
