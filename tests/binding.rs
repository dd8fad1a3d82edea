use quote::ToTokens;
use rpc_dispatch::codegen::{plan_method, plan_methods, type_path, PlanError, TypeSide};
use rpc_dispatch::definition::{parse_service_impl, BindErrorKind, ImplFn, Method, Service, ServiceDef};
use rpc_dispatch::pattern::InteractionPattern;
use rpc_dispatch::route::route_path;

fn method(name: &str, proto: &str, client: bool, server: bool) -> Method {
    Method {
        name: name.to_string(),
        proto_name: proto.to_string(),
        input_type: "HelloRequest".to_string(),
        output_type: "HelloReply".to_string(),
        client_streaming: client,
        server_streaming: server,
    }
}

fn service(methods: Vec<Method>) -> Service {
    Service {
        name: "Greeter".to_string(),
        package: "helloworld".to_string(),
        proto_name: "Greeter".to_string(),
        methods,
    }
}

fn async_fn(name: &str) -> ImplFn {
    ImplFn { name: name.to_string(), is_async: true }
}

fn self_path() -> syn::Path {
    syn::parse_str::<syn::Path>("MyGreeter").unwrap()
}

fn bound(methods: Vec<Method>, fns: Vec<ImplFn>) -> ServiceDef {
    match parse_service_impl(self_path(), &fns, service(methods), "hello_world".to_string()) {
        Ok(d) => d,
        Err(e) => panic!("binding failed: {:?}", e),
    }
}

#[test]
fn binding_keeps_declaration_order() {
    let d = bound(
        vec![method("say_hello", "SayHello", false, false), method("say_more", "SayMore", false, true)],
        vec![async_fn("say_more"), async_fn("say_hello")],
    );
    assert_eq!(d.methods.len(), 2);
    assert_eq!(d.methods[0].proto_name, "SayHello");
    assert_eq!(d.methods[1].proto_name, "SayMore");
    assert_eq!(d.handlers, vec![1, 0]);
    assert_eq!(d.name_str, "Greeter");
    assert_eq!(d.package, "helloworld");
    assert_eq!(d.proto_path, "hello_world");
}

#[test]
fn binding_ignores_undeclared_functions() {
    let d = bound(
        vec![method("say_hello", "SayHello", false, false)],
        vec![async_fn("helper"), ImplFn { name: "new".to_string(), is_async: false }, async_fn("say_hello")],
    );
    assert_eq!(d.methods.len(), 1);
    assert_eq!(d.handlers, vec![2]);
}

#[test]
fn binding_without_methods_is_empty() {
    let d = bound(vec![], vec![async_fn("say_hello")]);
    assert!(d.methods.is_empty());
    assert!(d.handlers.is_empty());
}

#[test]
fn missing_handler_names_the_method() {
    let fns = vec![async_fn("say_hello")];
    let r = parse_service_impl(
        self_path(),
        &fns,
        service(vec![method("say_hello", "SayHello", false, false), method("say_more", "SayMore", true, true)]),
        "hello_world".to_string(),
    );
    let e = r.err().unwrap();
    assert_eq!(e.kind, BindErrorKind::MissingHandler);
    assert_eq!(e.index, 1);
    assert_eq!(e.method, "say_more");
}

#[test]
fn synchronous_function_is_no_handler() {
    let fns = vec![ImplFn { name: "say_hello".to_string(), is_async: false }];
    let r = parse_service_impl(
        self_path(),
        &fns,
        service(vec![method("say_hello", "SayHello", false, false)]),
        "hello_world".to_string(),
    );
    let e = r.err().unwrap();
    assert_eq!(e.kind, BindErrorKind::MissingHandler);
    assert_eq!(e.method, "say_hello");
}

#[test]
fn duplicate_method_is_refused() {
    let fns = vec![async_fn("say_hello")];
    let r = parse_service_impl(
        self_path(),
        &fns,
        service(vec![method("say_hello", "SayHello", false, false), method("say_hello", "SayHi", false, false)]),
        "hello_world".to_string(),
    );
    let e = r.err().unwrap();
    assert_eq!(e.kind, BindErrorKind::DuplicateMethod);
    assert_eq!(e.index, 1);
}

#[test]
fn duplicate_route_is_refused() {
    let fns = vec![async_fn("say_hello"), async_fn("say_hi")];
    let r = parse_service_impl(
        self_path(),
        &fns,
        service(vec![method("say_hello", "SayHello", false, false), method("say_hi", "SayHello", false, false)]),
        "hello_world".to_string(),
    );
    let e = r.err().unwrap();
    assert_eq!(e.kind, BindErrorKind::DuplicateRoute);
    assert_eq!(e.index, 1);
    assert_eq!(e.method, "say_hi");
}

#[test]
fn route_path_format() {
    assert_eq!(route_path("helloworld", "Greeter", "SayHello"), "/helloworld.Greeter/SayHello");
    assert_eq!(route_path("", "", ""), "/./");
}

#[test]
fn type_path_format() {
    assert_eq!(type_path("hello_world", "HelloRequest"), "hello_world::HelloRequest");
}

#[test]
fn plan_lists_routes_patterns_and_handlers() {
    let d = bound(
        vec![
            method("a", "A", false, false),
            method("b", "B", false, true),
            method("c", "C", true, false),
            method("d", "D", true, true),
        ],
        vec![async_fn("d"), async_fn("c"), async_fn("b"), async_fn("a")],
    );
    let plans = plan_methods(&d).ok().unwrap();
    assert_eq!(plans.len(), 4);
    assert_eq!(plans[0].route, "/helloworld.Greeter/A");
    assert_eq!(plans[3].route, "/helloworld.Greeter/D");
    assert_eq!(plans[0].pattern, InteractionPattern::Unary);
    assert_eq!(plans[1].pattern, InteractionPattern::ServerStreaming);
    assert_eq!(plans[2].pattern, InteractionPattern::ClientStreaming);
    assert_eq!(plans[3].pattern, InteractionPattern::Bidirectional);
    assert_eq!(plans[0].handler, 3);
    assert_eq!(plans[3].handler, 0);
    assert_eq!(plans[0].request.to_token_stream().to_string(), "hello_world :: HelloRequest");
    assert_eq!(plans[0].response.to_token_stream().to_string(), "hello_world :: HelloReply");
}

#[test]
fn plan_refuses_a_type_that_is_not_a_path() {
    let mut m = method("a", "A", false, false);
    m.output_type = "not a path".to_string();
    let d = bound(vec![method("b", "B", false, false), m], vec![async_fn("a"), async_fn("b")]);
    let e = plan_methods(&d).err().unwrap();
    assert_eq!(e.index, 1);
    assert_eq!(e.side, TypeSide::Output);

    let mut m = method("a", "A", false, false);
    m.input_type = "1Bad".to_string();
    m.output_type = "".to_string();
    let d = bound(vec![m], vec![async_fn("a")]);
    let e = plan_methods(&d).err().unwrap();
    assert_eq!(e.index, 0);
    assert_eq!(e.side, TypeSide::Input);
}

#[test]
fn plan_method_from_parse_results() {
    let d = bound(vec![method("a", "A", true, false)], vec![async_fn("a")]);
    let ok = || Ok(syn::parse_str::<syn::Path>("x::Y").unwrap());
    let bad = || syn::parse_str::<syn::Path>("not a path");

    let p = plan_method(&d, 0, ok(), ok()).ok().unwrap();
    assert_eq!(p.route, "/helloworld.Greeter/A");
    assert_eq!(p.pattern, InteractionPattern::ClientStreaming);
    assert_eq!(p.handler, 0);
    assert_eq!(p.request.to_token_stream().to_string(), "x :: Y");

    let e = plan_method(&d, 0, bad(), ok()).err().unwrap();
    assert_eq!(e, PlanError { index: 0, side: TypeSide::Input });
    let e = plan_method(&d, 0, bad(), bad()).err().unwrap();
    assert_eq!(e, PlanError { index: 0, side: TypeSide::Input });
    let e = plan_method(&d, 0, ok(), bad()).err().unwrap();
    assert_eq!(e, PlanError { index: 0, side: TypeSide::Output });
}
