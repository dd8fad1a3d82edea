use vstd::prelude::*;
use crate::definition::ServiceDef;
use crate::pattern::{classify, pattern_of, InteractionPattern};
use crate::route::{method_route, route_path};

verus! {

/// syn's parse error, handed back as is.
#[verifier::external_type_specification]
#[verifier::external_body]
pub struct ExError(syn::Error);

/// Relies on `syn::parse_str::<syn::Path>`: it parses the whole text as a
/// path or fails. Which of the two depends on the lexer in use (the compiler's
/// inside a procedural macro, proc-macro2's own elsewhere), so nothing is
/// claimed of it.
#[verifier::external_body]
fn parse_path(s: &str) -> (r: Result<syn::Path, syn::Error>) {
    syn::parse_str::<syn::Path>(s)
}

/// The path of a message type: `{proto_path}::{message}`.
pub open spec fn type_path_of(proto_path: Seq<char>, message: Seq<char>) -> Seq<char> {
    proto_path + seq![':', ':'] + message
}

/// Builds the path of a message type inside the generated module.
pub fn type_path(proto_path: &str, message: &str) -> (r: String)
    ensures
        r@ == type_path_of(proto_path@, message@),
{
    proof {
        reveal_strlit("::");
    }
    let mut r = String::from_str(proto_path);
    r.append("::");
    r.append(message);
    r
}

/// What is generated for one method: its route, its pattern, the function that
/// handles it, and the paths of its request and response types.
pub struct MethodPlan {
    pub route: String,
    pub pattern: InteractionPattern,
    pub handler: usize,
    pub request: syn::Path,
    pub response: syn::Path,
}

/// Which message type of a method is not a path.
#[derive(Clone, Copy, Debug, PartialEq, Eq, Structural)]
pub enum TypeSide {
    Input,
    Output,
}

/// A method whose message type does not parse as a path.
#[derive(Clone, Copy, Debug, PartialEq, Eq, Structural)]
pub struct PlanError {
    pub index: usize,
    pub side: TypeSide,
}

/// Plans method `i` of a bound service from the parsed paths of its request
/// and response types: the plan when both parsed, else the side that failed,
/// the request side first.
pub fn plan_method(
    def: &ServiceDef,
    i: usize,
    request: Result<syn::Path, syn::Error>,
    response: Result<syn::Path, syn::Error>,
) -> (r: Result<MethodPlan, PlanError>)
    requires
        def.wf(),
        i < def.methods@.len(),
    ensures
        match (request, response) {
            (Ok(a), Ok(b)) => r matches Ok(p) && {
                &&& p.route@ == method_route(def, i as int)
                &&& p.pattern == pattern_of(
                    def.methods@[i as int].client_streaming,
                    def.methods@[i as int].server_streaming,
                )
                &&& p.handler == def.handlers@[i as int]
                &&& p.request == a
                &&& p.response == b
            },
            (Err(_), _) => r == Err::<MethodPlan, PlanError>((PlanError { index: i, side: TypeSide::Input })),
            (Ok(_), Err(_)) => r == Err::<MethodPlan, PlanError>((PlanError { index: i, side: TypeSide::Output })),
        },
{
    let request = match request {
        Ok(p) => p,
        Err(_) => {
            return Err(PlanError { index: i, side: TypeSide::Input });
        },
    };
    let response = match response {
        Ok(p) => p,
        Err(_) => {
            return Err(PlanError { index: i, side: TypeSide::Output });
        },
    };
    let m = &def.methods[i];
    Ok(
        MethodPlan {
            route: route_path(def.package.as_str(), def.proto_name.as_str(), m.proto_name.as_str()),
            pattern: classify(m.client_streaming, m.server_streaming),
            handler: def.handlers[i],
            request,
            response,
        },
    )
}

/// Plans the generated code of each method of a bound service, in order,
/// from the parsed paths `{proto_path}::{type}` of its message types. On
/// success each plan has its method's route, pattern and handler; otherwise
/// the error names the first method with a type that did not parse.
pub fn plan_methods(def: &ServiceDef) -> (r: Result<Vec<MethodPlan>, PlanError>)
    requires
        def.wf(),
    ensures
        match r {
            Ok(v) => {
                &&& v@.len() == def.methods@.len()
                &&& forall|i: int|
                    0 <= i < v@.len() ==> {
                        &&& (#[trigger] v@[i]).route@ == method_route(def, i)
                        &&& v@[i].pattern == pattern_of(
                            def.methods@[i].client_streaming,
                            def.methods@[i].server_streaming,
                        )
                        &&& v@[i].handler == def.handlers@[i]
                    }
            },
            Err(e) => e.index < def.methods@.len(),
        },
{
    let mut plans: Vec<MethodPlan> = Vec::new();
    let mut i: usize = 0;
    while i < def.methods.len()
        invariant
            def.wf(),
            i <= def.methods@.len(),
            plans@.len() == i,
            forall|l: int|
                0 <= l < i ==> {
                    &&& (#[trigger] plans@[l]).route@ == method_route(def, l)
                    &&& plans@[l].pattern == pattern_of(
                        def.methods@[l].client_streaming,
                        def.methods@[l].server_streaming,
                    )
                    &&& plans@[l].handler == def.handlers@[l]
                },
        decreases def.methods@.len() - i,
    {
        let m = &def.methods[i];
        let request = parse_path(type_path(def.proto_path.as_str(), m.input_type.as_str()).as_str());
        let response = parse_path(type_path(def.proto_path.as_str(), m.output_type.as_str()).as_str());
        let plan = plan_method(def, i, request, response)?;
        plans.push(plan);
        i = i + 1;
    }
    Ok(plans)
}

} // verus!
