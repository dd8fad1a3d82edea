use rpc_dispatch::definition::{parse_service_impl, ImplFn, Method, Service, ServiceDef};
use rpc_dispatch::dispatch::{Dispatch, Dispatcher};
use rpc_dispatch::pattern::{classify, InteractionPattern};
use rpc_dispatch::route::Router;
use rpc_dispatch::status::{Code, Status};

fn method(name: &str, proto: &str, client: bool, server: bool) -> Method {
    Method {
        name: name.to_string(),
        proto_name: proto.to_string(),
        input_type: "Point".to_string(),
        output_type: "Feature".to_string(),
        client_streaming: client,
        server_streaming: server,
    }
}

fn route_guide() -> ServiceDef {
    let methods = vec![
        method("get_feature", "GetFeature", false, false),
        method("list_features", "ListFeatures", false, true),
        method("record_route", "RecordRoute", true, false),
        method("route_chat", "RouteChat", true, true),
    ];
    let fns = vec![
        ImplFn { name: "route_chat".to_string(), is_async: true },
        ImplFn { name: "record_route".to_string(), is_async: true },
        ImplFn { name: "list_features".to_string(), is_async: true },
        ImplFn { name: "get_feature".to_string(), is_async: true },
    ];
    let service = Service {
        name: "RouteGuide".to_string(),
        package: "routeguide".to_string(),
        proto_name: "RouteGuide".to_string(),
        methods,
    };
    let name = syn::parse_str::<syn::Path>("RouteGuideImpl").unwrap();
    parse_service_impl(name, &fns, service, "routeguide".to_string()).ok().unwrap()
}

#[test]
fn every_method_is_routable_by_its_path() {
    let d = Dispatcher::new(&route_guide());
    let cases = [
        ("/routeguide.RouteGuide/GetFeature", 0, InteractionPattern::Unary),
        ("/routeguide.RouteGuide/ListFeatures", 1, InteractionPattern::ServerStreaming),
        ("/routeguide.RouteGuide/RecordRoute", 2, InteractionPattern::ClientStreaming),
        ("/routeguide.RouteGuide/RouteChat", 3, InteractionPattern::Bidirectional),
    ];
    for (path, index, pattern) in cases {
        match d.handle(path) {
            Dispatch::Call { method, pattern: p } => {
                assert_eq!(method, index);
                assert_eq!(p, pattern);
            }
            Dispatch::Unimplemented(s) => panic!("{} not routed: {:?}", path, s),
        }
    }
}

#[test]
fn router_lookup_is_exact() {
    let r = Router::new(&route_guide());
    assert_eq!(r.routes.len(), 4);
    assert_eq!(r.lookup("/routeguide.RouteGuide/RouteChat"), Some(3));
    assert_eq!(r.lookup("/routeguide.RouteGuide/routechat"), None);
    assert_eq!(r.lookup("/routeguide.RouteGuide/RouteChat/"), None);
    assert_eq!(r.lookup("/routeguide.RouteGuide/Route"), None);
    assert_eq!(r.lookup("/routeguide.RouteGuide/"), None);
    assert_eq!(r.lookup(""), None);
}

#[test]
fn undeclared_path_is_unimplemented() {
    let d = Dispatcher::new(&route_guide());
    for path in ["/routeguide.RouteGuide/Missing", "/other.RouteGuide/GetFeature", "GetFeature", ""] {
        match d.handle(path) {
            Dispatch::Unimplemented(s) => {
                assert_eq!(s.code, Code::Unimplemented);
                assert_eq!(s.message, path);
            }
            Dispatch::Call { method, .. } => panic!("{} routed to {}", path, method),
        }
    }
}

#[test]
fn repeated_requests_resolve_independently() {
    let d = Dispatcher::new(&route_guide());
    let first = d.handle("/routeguide.RouteGuide/GetFeature");
    let missing = d.handle("/routeguide.RouteGuide/Nope");
    let second = d.handle("/routeguide.RouteGuide/GetFeature");
    assert!(matches!(first, Dispatch::Call { method: 0, .. }));
    assert!(matches!(missing, Dispatch::Unimplemented(_)));
    assert!(matches!(second, Dispatch::Call { method: 0, .. }));
}

#[test]
fn classifier_covers_all_flags() {
    let cases = [
        (false, false, InteractionPattern::Unary),
        (false, true, InteractionPattern::ServerStreaming),
        (true, false, InteractionPattern::ClientStreaming),
        (true, true, InteractionPattern::Bidirectional),
    ];
    for (c, s, p) in cases {
        let got = classify(c, s);
        assert_eq!(got, p);
        assert_eq!(got.client_streaming(), c);
        assert_eq!(got.server_streaming(), s);
        assert_eq!(classify(got.client_streaming(), got.server_streaming()), got);
    }
}

#[test]
fn status_constructors() {
    let s = Status::new(Code::NotFound, "no feature".to_string());
    assert_eq!(s.code, Code::NotFound);
    assert_eq!(s.message, "no feature");
    let u = Status::unimplemented("/a.B/C");
    assert_eq!(u.code, Code::Unimplemented);
    assert_eq!(u.message, "/a.B/C");
}
