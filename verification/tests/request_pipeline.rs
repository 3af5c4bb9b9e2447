use std::sync::Arc;

use bullg::models::{ContextPath, Route, RouteConfig, Service, ServiceContextPaths};
use bullg::pipeline::{
    apply_identity_headers, dec_string, not_found_html, plan_upstream, rewrite_upstream_headers,
    url_base, url_host, year_of_epoch_secs, RunningState, UpstreamPlan,
};
use bullg::plugins::RequestContext;
use bullg::response::Response;
use bullg::router::ServiceRouter;

fn payments_service() -> Service {
    let mut svc = Service {
        id: String::from("payments"),
        name: String::from("payments"),
        url: String::from("http://up:9000"),
        description: String::new(),
        tags: vec![],
        protocols: vec![],
        spec: None,
        versions: vec![],
        upstreams: vec![],
        context_paths: ServiceContextPaths {
            enable: true,
            paths: vec![Arc::new(ContextPath { path: String::from("/pay"), versions: vec![] })],
        },
        plugins: vec![],
        policies: vec![],
        consumers: vec![],
        routes: vec![Arc::new(Route {
            id: String::from("charge"),
            name: String::from("charge"),
            description: String::new(),
            tags: vec![],
            enabled: true,
            versions: vec![],
            config: RouteConfig {
                protocols: vec![],
                path: String::from("/charge"),
                backend: String::new(),
                methods: vec![],
            },
            plugins: vec![],
        })],
        router: bullg::router::RouteTable::new(),
    };
    svc.build_router();
    svc
}

fn payments_router() -> ServiceRouter {
    let svc = payments_service();
    let maps = svc.get_service_maps();
    let mut router = ServiceRouter::new();
    router.add_service_mapper(maps);
    router
}

fn running_state() -> RunningState {
    RunningState { router: payments_router(), global_plugins: vec![] }
}

fn ctx_for(path: &str, query: Option<&str>) -> RequestContext {
    let uri = match query {
        Some(q) => format!("{}?{}", path, q),
        None => String::from(path),
    };
    RequestContext::new(
        String::from("GET"),
        uri,
        String::from(path),
        query.map(String::from),
        vec![],
        Vec::new(),
    )
}

#[test]
fn dec_string_renders_decimals() {
    assert_eq!(dec_string(0), "0");
    assert_eq!(dec_string(7), "7");
    assert_eq!(dec_string(42), "42");
    assert_eq!(dec_string(90210), "90210");
}

#[test]
fn url_base_and_host_read_the_authority() {
    assert_eq!(url_base("http://up:9000"), "http://up:9000");
    assert_eq!(url_base("http://up:9000/x/y"), "http://up:9000");
    assert_eq!(url_host("http://up:9000"), "up");
    assert_eq!(url_host("https://example.test/path"), "example.test");
}

#[test]
fn prefix_routing_forwards_with_path_and_query() {
    let state = running_state();
    let ctx = ctx_for("/pay/charge", Some("amt=5"));
    match plan_upstream(&state.router, &ctx) {
        UpstreamPlan::Forward { url, host } => {
            assert_eq!(url, "http://up:9000/pay/charge?amt=5");
            assert_eq!(host, "up");
        }
        other => panic!("expected a forward plan, got {:?}", other),
    }
}

#[test]
fn short_circuit_skips_the_upstream() {
    let state = running_state();
    let mut ctx = ctx_for("/pay/charge", None);
    ctx.set_status(418);
    assert!(matches!(plan_upstream(&state.router, &ctx), UpstreamPlan::ShortCircuit));
}

#[test]
fn unmatched_paths_plan_not_found() {
    let state = running_state();
    let ctx = ctx_for("/elsewhere", None);
    assert!(matches!(plan_upstream(&state.router, &ctx), UpstreamPlan::NotFound));
}

#[test]
fn unresolved_route_plans_not_found() {
    let state = running_state();
    let ctx = ctx_for("/pay/unknown", None);
    assert!(matches!(plan_upstream(&state.router, &ctx), UpstreamPlan::NotFound));
}

#[test]
fn fallback_service_still_needs_a_route() {
    let mut svc = payments_service();
    svc.context_paths = ServiceContextPaths { enable: false, paths: vec![] };
    let maps = svc.get_service_maps();
    let mut router = ServiceRouter::new();
    router.add_service_mapper(maps);
    let ctx = ctx_for("/anything", None);
    assert!(matches!(plan_upstream(&router, &ctx), UpstreamPlan::NotFound));
}

#[test]
fn epoch_years_are_civil_years() {
    assert_eq!(year_of_epoch_secs(0), 1970);
    assert_eq!(year_of_epoch_secs(31535999), 1970);
    assert_eq!(year_of_epoch_secs(31536000), 1971);
    assert_eq!(year_of_epoch_secs(1767225600), 2026);
}

#[test]
fn host_header_moves_to_x_forwarded_host() {
    let mut ctx = ctx_for("/pay/charge", None);
    ctx.header_put("host", String::from("client.example"));
    rewrite_upstream_headers(&mut ctx, "up");
    assert_eq!(ctx.header_get("x-forwarded-host"), Some(String::from("client.example")));
    assert_eq!(ctx.header_get("host"), Some(String::from("up")));
    assert_eq!(ctx.header_get("via"), Some(String::from("bullg")));
    assert_eq!(ctx.header_get("referer"), Some(String::from("/pay/charge")));
}

#[test]
fn missing_host_header_synthesizes_no_forwarded_host() {
    let mut ctx = ctx_for("/pay/charge", None);
    rewrite_upstream_headers(&mut ctx, "up");
    assert_eq!(ctx.header_get("x-forwarded-host"), None);
    assert_eq!(ctx.header_get("host"), Some(String::from("up")));
}

#[test]
fn identity_headers_carry_the_request_id() {
    let mut ctx = ctx_for("/x", None);
    let id = ctx.get_id().clone();
    apply_identity_headers(&mut ctx, &id, 1234, 1);
    assert_eq!(ctx.header_get("X-Request-Id"), Some(id.clone()));
    assert_eq!(ctx.header_get("Via"), Some(String::from("bullg")));
    assert_eq!(ctx.header_get("Server"), Some(String::from("bullg/0.1.0")));
    assert_eq!(ctx.header_get("X-Powered-By"), Some(String::from("bullg-0.1.0/VIKSHRO")));
    assert_eq!(ctx.header_get("X-Server"), Some(String::from("bullg/0.1.0")));
    assert_eq!(ctx.header_get("X-Gateway"), Some(String::from("bullg Gateway/0.1.0")));
    assert_eq!(ctx.header_get("X-Latency-Us"), Some(String::from("1234")));
    assert_eq!(ctx.header_get("X-Latency"), Some(String::from("1")));
    assert_eq!(ctx.header_get("Content-Type"), Some(String::from("text/html")));
}

#[test]
fn content_type_from_upstream_is_preserved() {
    let mut ctx = ctx_for("/x", None);
    ctx.header_put("Content-Type", String::from("application/json"));
    let id = ctx.get_id().clone();
    apply_identity_headers(&mut ctx, &id, 1, 0);
    assert_eq!(ctx.header_get("content-type"), Some(String::from("application/json")));
}

#[test]
fn not_found_page_embeds_the_request_id_and_year() {
    let page = not_found_html("abc-123", 2026);
    assert!(page.contains("abc-123"));
    assert!(page.contains("2026"));
    assert!(page.contains("bullg Gateway"));
    assert!(page.starts_with("<html>"));
    assert!(page.ends_with("</html>"));
}

#[test]
fn gateway_identity_functions_agree() {
    assert_eq!(bullg::app_name(), "bullg");
    assert_eq!(bullg::app_version(), "0.1.0");
    assert_eq!(bullg::gateway_name(), "bullg Gateway");
}

#[test]
fn response_builders_set_status_headers_and_body() {
    let r = Response::new().status(201).header("X-K", String::from("v")).body(b"abc".to_vec());
    assert_eq!(r.status, 201);
    assert_eq!(r.body, b"abc".to_vec());
    assert_eq!(r.headers, vec![(String::from("X-K"), String::from("v"))]);

    let t = Response::ok_text("hi");
    assert_eq!(t.status, 200);
    assert_eq!(t.body, b"hi".to_vec());
    assert_eq!(
        t.headers,
        vec![(String::from("Content-Type"), String::from("text/plain; charset=utf-8"))]
    );
    assert!(!t.is_empty());

    let nf = Response::not_found("gone");
    assert_eq!(nf.status, 404);
    let br = Response::bad_request("bad");
    assert_eq!(br.status, 400);
    let ie = Response::internal_error("boom");
    assert_eq!(ie.status, 500);

    let h = Response::new().html("<p>x</p>");
    assert_eq!(
        h.headers,
        vec![(String::from("Content-Type"), String::from("text/html; charset=utf-8"))]
    );
}
