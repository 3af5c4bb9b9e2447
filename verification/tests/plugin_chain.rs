use std::sync::Arc;

use bullg::models::AppliedPlugin;
use bullg::plugins::{
    builtin, run_plugins, BasicAuth, Cors, Phase, RequestTermination, RequestContext,
    SecurityHeadersPlugin,
};
use bullg::value::KvValue;

fn ctx_with_headers(headers: Vec<(&str, &str)>) -> RequestContext {
    RequestContext::new(
        String::from("GET"),
        String::from("/anything"),
        String::from("/anything"),
        None,
        headers
            .into_iter()
            .map(|(k, v)| (String::from(k), String::from(v)))
            .collect(),
        Vec::new(),
    )
}

fn applied(name: &str, config: Option<KvValue>) -> Arc<AppliedPlugin> {
    Arc::new(AppliedPlugin {
        id: String::from(name),
        name: String::from(name),
        description: None,
        kind: String::new(),
        tags: vec![],
        phase: None,
        enabled: true,
        version: None,
        versions: None,
        config,
        order: None,
        priority: None,
    })
}

fn obj(fields: Vec<(&str, KvValue)>) -> KvValue {
    KvValue::Obj(fields.into_iter().map(|(k, v)| (String::from(k), v)).collect())
}

#[test]
fn request_ids_are_uuid_sized() {
    let ctx = ctx_with_headers(vec![]);
    assert_eq!(ctx.get_id().chars().count(), 36);
}

#[test]
fn cors_sets_allow_origin() {
    let mut ctx = ctx_with_headers(vec![]);
    let cfg = Some(obj(vec![("allow_origin", KvValue::Str(String::from("https://a")))]));
    Cors.apply(&mut ctx, &cfg).unwrap();
    assert_eq!(
        ctx.header_get("access-control-allow-origin"),
        Some(String::from("https://a"))
    );
    let mut ctx2 = ctx_with_headers(vec![]);
    Cors.apply(&mut ctx2, &None).unwrap();
    assert_eq!(ctx2.header_get("access-control-allow-origin"), Some(String::from("*")));
}

#[test]
fn termination_sets_status_and_body() {
    let mut ctx = ctx_with_headers(vec![]);
    let cfg = Some(obj(vec![
        ("enabled", KvValue::Bool(true)),
        ("status", KvValue::Int(418)),
        ("body", KvValue::Str(String::from("nope"))),
    ]));
    RequestTermination.apply(&mut ctx, &cfg).unwrap();
    assert_eq!(ctx.status, Some(418));
    assert_eq!(ctx.body, b"nope".to_vec());
}

#[test]
fn termination_disabled_leaves_context_alone() {
    let mut ctx = ctx_with_headers(vec![]);
    let cfg = Some(obj(vec![("enabled", KvValue::Bool(false))]));
    RequestTermination.apply(&mut ctx, &cfg).unwrap();
    assert_eq!(ctx.status, None);
    assert!(ctx.body.is_empty());
}

#[test]
fn termination_defaults_to_403() {
    let mut ctx = ctx_with_headers(vec![]);
    let cfg = Some(obj(vec![("enabled", KvValue::Bool(true))]));
    RequestTermination.apply(&mut ctx, &cfg).unwrap();
    assert_eq!(ctx.status, Some(403));
    assert_eq!(ctx.body, b"Request terminated".to_vec());
}

#[test]
fn basic_auth_rejects_wrong_password() {
    // user "u", password "wrong"
    let mut ctx = ctx_with_headers(vec![("Authorization", "Basic dTp3cm9uZw==")]);
    let cfg = Some(obj(vec![
        ("user", KvValue::Str(String::from("u"))),
        ("pass", KvValue::Str(String::from("p"))),
        ("message", KvValue::Str(String::from("bye"))),
    ]));
    BasicAuth.apply(&mut ctx, &cfg).unwrap();
    assert_eq!(ctx.status, Some(401));
    assert_eq!(ctx.body, b"bye".to_vec());
}

#[test]
fn basic_auth_accepts_matching_credentials() {
    // "u:p" encodes to dTpw
    let mut ctx = ctx_with_headers(vec![("Authorization", "Basic dTpw")]);
    let cfg = Some(obj(vec![
        ("user", KvValue::Str(String::from("u"))),
        ("pass", KvValue::Str(String::from("p"))),
    ]));
    BasicAuth.apply(&mut ctx, &cfg).unwrap();
    assert_eq!(ctx.status, None);
}

#[test]
fn basic_auth_without_configured_user_passes() {
    let mut ctx = ctx_with_headers(vec![]);
    BasicAuth.apply(&mut ctx, &None).unwrap();
    assert_eq!(ctx.status, None);
}

#[test]
fn security_headers_are_inserted() {
    let mut ctx = ctx_with_headers(vec![]);
    SecurityHeadersPlugin.apply(&mut ctx, &None).unwrap();
    assert_eq!(ctx.header_get("x-content-type-options"), Some(String::from("nosniff")));
    assert_eq!(ctx.header_get("x-frame-options"), Some(String::from("DENY")));
    assert_eq!(
        ctx.header_get("strict-transport-security"),
        Some(String::from("max-age=63072000; includeSubDomains; preload"))
    );
}

#[test]
fn http_log_endpoint_reads_config() {
    let cfg = Some(obj(vec![("endpoint", KvValue::Str(String::from("http://log")))]));
    assert_eq!(bullg::plugins::http_log_endpoint(&cfg), Some(String::from("http://log")));
    assert_eq!(bullg::plugins::http_log_endpoint(&None), None);
}

#[test]
fn pre_chain_short_circuits_after_termination() {
    let registry = builtin();
    let mut ctx = ctx_with_headers(vec![]);
    let list = vec![
        applied(
            "request_termination",
            Some(obj(vec![
                ("enabled", KvValue::Bool(true)),
                ("status", KvValue::Int(418)),
                ("body", KvValue::Str(String::from("nope"))),
            ])),
        ),
        applied("cors", None),
    ];
    run_plugins(&registry, Phase::Pre, &mut ctx, &list);
    assert_eq!(ctx.status, Some(418));
    assert_eq!(ctx.body, b"nope".to_vec());
    assert_eq!(
        ctx.header_get("access-control-allow-origin"),
        None,
        "the chain must stop before the second plugin"
    );
}

#[test]
fn post_chain_runs_to_completion_and_keeps_status() {
    let registry = builtin();
    let mut ctx = ctx_with_headers(vec![]);
    ctx.set_status(200);
    let list = vec![applied("security_headers", None), applied("http_log", None)];
    run_plugins(&registry, Phase::Post, &mut ctx, &list);
    assert_eq!(ctx.status, Some(200));
    assert_eq!(ctx.header_get("x-frame-options"), Some(String::from("DENY")));
}

#[test]
fn unknown_plugin_names_are_skipped() {
    let registry = builtin();
    let mut ctx = ctx_with_headers(vec![]);
    let list = vec![applied("no_such_plugin", None)];
    run_plugins(&registry, Phase::Pre, &mut ctx, &list);
    assert_eq!(ctx.status, None);
}

#[test]
fn header_map_is_case_insensitive() {
    let mut ctx = ctx_with_headers(vec![("Host", "example.test")]);
    assert_eq!(ctx.header_get("host"), Some(String::from("example.test")));
    ctx.header_put("HOST", String::from("other"));
    assert_eq!(ctx.header_get("Host"), Some(String::from("other")));
    assert_eq!(ctx.headers.len(), 1);
    ctx.header_remove("hOsT");
    assert_eq!(ctx.header_get("host"), None);
}

#[test]
fn vars_bag_round_trips() {
    let mut ctx = ctx_with_headers(vec![]);
    ctx.var_put(String::from("k"), KvValue::Int(7));
    assert_eq!(ctx.var_get("k"), Some(&KvValue::Int(7)));
    assert_eq!(ctx.var_get("missing"), None);
}
