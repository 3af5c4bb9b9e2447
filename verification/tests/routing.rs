use std::sync::Arc;

use bullg::models::{
    AppliedPlugin, ContextPath, Route, RouteConfig, Service, ServiceContextPaths, ServiceMapper,
    ServiceVersion,
};
use bullg::paths::normalize_context_path;
use bullg::router::{RouteTable, ServiceRouter};

fn plain_route(id: &str, path: &str, enabled: bool, versions: Vec<&str>) -> Route {
    Route {
        id: String::from(id),
        name: String::from(id),
        description: String::new(),
        tags: vec![],
        enabled,
        versions: versions.into_iter().map(String::from).collect(),
        config: RouteConfig {
            protocols: vec![],
            path: String::from(path),
            backend: String::new(),
            methods: vec![],
        },
        plugins: vec![],
    }
}

fn plain_service(name: &str, cps: Vec<(&str, Vec<&str>)>, enable: bool, routes: Vec<Route>) -> Service {
    Service {
        id: String::from(name),
        name: String::from(name),
        url: String::from("http://up:9000"),
        description: String::new(),
        tags: vec![],
        protocols: vec![],
        spec: None,
        versions: vec![],
        upstreams: vec![],
        context_paths: ServiceContextPaths {
            enable,
            paths: cps
                .into_iter()
                .map(|(p, vs)| {
                    Arc::new(ContextPath {
                        path: String::from(p),
                        versions: vs.into_iter().map(String::from).collect(),
                    })
                })
                .collect(),
        },
        plugins: vec![],
        policies: vec![],
        consumers: vec![],
        routes: routes.into_iter().map(Arc::new).collect(),
        router: RouteTable::new(),
    }
}

#[test]
fn normalize_strips_trailing_and_adds_leading_slash() {
    assert_eq!(normalize_context_path("/pay/"), "/pay");
    assert_eq!(normalize_context_path("pay"), "/pay");
    assert_eq!(normalize_context_path("/pay///"), "/pay");
    assert_eq!(normalize_context_path(""), "/");
}

#[test]
fn trailing_slash_paths_normalize_to_the_same_key() {
    assert_eq!(normalize_context_path("/api"), normalize_context_path("/api/"));
}

#[test]
fn prefix_routing_finds_service_and_route() {
    let mut svc = plain_service(
        "payments",
        vec![("/pay", vec![])],
        true,
        vec![plain_route("charge", "/charge", true, vec![])],
    );
    svc.build_router();
    let mut router = ServiceRouter::new();
    router.add_service_mapper(vec![ServiceMapper { key: String::from("/pay"), value: svc }]);

    let (found, remainder) = router.find_service("/pay/charge").expect("service should match");
    assert_eq!(found.name, "payments");
    assert_eq!(remainder, "/charge");

    let route = found.router.find_route(&remainder).expect("route should match");
    assert_eq!(route.id, "charge");
}

#[test]
fn longest_prefix_wins() {
    let a = plain_service("api", vec![("/api", vec![])], true, vec![]);
    let b = plain_service("api-v2", vec![("/api/v2", vec![])], true, vec![]);
    let mut router = ServiceRouter::new();
    router.add_service_mapper(vec![
        ServiceMapper { key: String::from("/api"), value: a },
        ServiceMapper { key: String::from("/api/v2"), value: b },
    ]);
    let (found, remainder) = router.find_service("/api/v2/users").expect("match");
    assert_eq!(found.name, "api-v2");
    assert_eq!(remainder, "/users");
    let (found2, _) = router.find_service("/api/other").expect("match");
    assert_eq!(found2.name, "api");
}

#[test]
fn fallback_service_answers_unmatched_paths() {
    let fallback = plain_service("default", vec![], false, vec![]);
    let mut router = ServiceRouter::new();
    router.add_service_mapper(vec![ServiceMapper {
        key: String::from("ignored"),
        value: fallback,
    }]);
    let (found, remainder) = router.find_service("/anything").expect("fallback");
    assert_eq!(found.name, "default");
    assert_eq!(remainder, "");
}

#[test]
fn miss_without_fallback_is_none() {
    let router = ServiceRouter::new();
    assert!(router.find_service("/nothing").is_none());
}

#[test]
fn first_key_binding_wins() {
    let a = plain_service("first", vec![("/x", vec![])], true, vec![]);
    let b = plain_service("second", vec![("/x", vec![])], true, vec![]);
    let mut router = ServiceRouter::new();
    router.add_service_mapper(vec![
        ServiceMapper { key: String::from("/x"), value: a },
        ServiceMapper { key: String::from("/x/"), value: b },
    ]);
    let (found, _) = router.find_service("/x/1").expect("match");
    assert_eq!(found.name, "first");
}

#[test]
fn disabled_routes_stay_out_of_the_table() {
    let routes = vec![
        Arc::new(plain_route("on", "/on", true, vec![])),
        Arc::new(plain_route("off", "/off", false, vec![])),
    ];
    let table = RouteTable::build(&routes);
    assert!(table.find_route("/on").is_some());
    assert!(table.find_route("/off").is_none());
}

#[test]
fn remove_route_takes_the_entry_out() {
    let routes = vec![Arc::new(plain_route("r", "/r", true, vec![]))];
    let mut table = RouteTable::build(&routes);
    let removed = table.remove_route("/r");
    assert!(removed.is_some());
    assert!(table.find_route("/r").is_none());
}

fn versioned_service() -> Service {
    let mut svc = plain_service(
        "api",
        vec![("/api", vec![])],
        true,
        vec![
            plain_route("list", "/list", true, vec!["v2"]),
            plain_route("ping", "/ping", true, vec![]),
        ],
    );
    svc.versions = vec![
        Arc::new(ServiceVersion {
            id: String::from("v1"),
            name: String::from("v1"),
            enabled: true,
            description: String::new(),
            deprecated: false,
        }),
        Arc::new(ServiceVersion {
            id: String::from("v2"),
            name: String::from("v2"),
            enabled: true,
            description: String::new(),
            deprecated: false,
        }),
    ];
    svc
}

#[test]
fn versioned_projection_yields_one_key_per_version() {
    let svc = versioned_service();
    let maps = svc.get_service_maps();
    assert_eq!(maps.len(), 2);
    assert_eq!(maps[0].key, "/api/v1/");
    assert_eq!(maps[1].key, "/api/v2/");
}

#[test]
fn versioned_projection_filters_routes_per_version() {
    let svc = versioned_service();
    let maps = svc.get_service_maps();
    let mut router = ServiceRouter::new();
    router.add_service_mapper(maps);

    let (v1, rem1) = router.find_service("/api/v1/list").expect("v1 matches");
    assert_eq!(v1.versions.len(), 1);
    assert_eq!(v1.versions[0].id, "v1");
    assert!(v1.router.find_route(&rem1).is_none(), "list is filtered out of v1");

    let (v2, rem2) = router.find_service("/api/v2/list").expect("v2 matches");
    assert_eq!(v2.versions[0].id, "v2");
    assert!(v2.router.find_route(&rem2).is_some(), "list stays in v2");
}

#[test]
fn service_without_versions_projects_once() {
    let svc = plain_service("solo", vec![("/solo", vec![])], true, vec![]);
    let maps = svc.get_service_maps();
    assert_eq!(maps.len(), 1);
    assert_eq!(maps[0].key, "/solo");

    let bare = plain_service("bare", vec![], false, vec![]);
    let maps2 = bare.get_service_maps();
    assert_eq!(maps2.len(), 1);
    assert_eq!(maps2[0].key, "/bare/");
}

#[test]
fn version_filter_applies_to_plugins() {
    let mut svc = versioned_service();
    svc.plugins = vec![Arc::new(AppliedPlugin {
        id: String::from("p1"),
        name: String::from("cors"),
        description: None,
        kind: String::new(),
        tags: vec![],
        phase: None,
        enabled: true,
        version: None,
        versions: Some(vec![String::from("v2")]),
        config: None,
        order: None,
        priority: None,
    })];
    let maps = svc.get_service_maps();
    assert_eq!(maps[0].value.plugins.len(), 0);
    assert_eq!(maps[1].value.plugins.len(), 1);
}

#[test]
fn template_merge_binds_each_key_once() {
    let t = bullg::models::ServicesTemplate {
        gateway: String::new(),
        version: String::new(),
        release_channel: String::new(),
        bullg_versions: vec![],
        developer: String::new(),
        global: bullg::models::GlobalApplied { plugins: vec![], policies: vec![] },
        services: vec![
            plain_service("one", vec![("/shared", vec![])], true, vec![]),
            plain_service("two", vec![("/shared", vec![])], true, vec![]),
        ],
    };
    let maps = t.get_services_map_vec();
    assert_eq!(maps.len(), 1);
    assert_eq!(maps[0].key, "/shared");
    assert_eq!(maps[0].value.name, "two");
}

#[test]
fn get_service_map_uses_first_path_or_name() {
    let svc = plain_service("named", vec![("/first", vec![]), ("/second", vec![])], true, vec![]);
    let m = svc.get_service_map();
    assert_eq!(m.key, "/first");
    let bare = plain_service("bare", vec![], false, vec![]);
    let m2 = bare.get_service_map();
    assert_eq!(m2.key, "/bare");
}

#[test]
fn version_without_covering_path_is_skipped() {
    let mut svc = plain_service("gap", vec![("/only-v1", vec!["v1"])], true, vec![]);
    svc.versions = vec![
        Arc::new(ServiceVersion {
            id: String::from("v1"),
            name: String::from("v1"),
            enabled: true,
            description: String::new(),
            deprecated: false,
        }),
        Arc::new(ServiceVersion {
            id: String::from("v2"),
            name: String::from("v2"),
            enabled: true,
            description: String::new(),
            deprecated: false,
        }),
    ];
    let maps = svc.get_service_maps();
    assert_eq!(maps.len(), 1);
    assert_eq!(maps[0].key, "/only-v1");
    assert_eq!(maps[0].value.versions[0].id, "v1");
}

#[test]
fn duplicate_version_ids_project_once() {
    let mut svc = plain_service("twin", vec![("/twin", vec![])], true, vec![]);
    let v = ServiceVersion {
        id: String::from("v1"),
        name: String::from("v1"),
        enabled: true,
        description: String::new(),
        deprecated: false,
    };
    svc.versions = vec![
        Arc::new(ServiceVersion { id: v.id.clone(), name: v.name.clone(), enabled: true, description: String::new(), deprecated: false }),
        Arc::new(v),
    ];
    let maps = svc.get_service_maps();
    assert_eq!(maps.len(), 1);
}

#[test]
fn reference_maps_key_each_version() {
    let mut svc = plain_service(
        "refsvc",
        vec![("/v1-only", vec!["v1"]), ("/any", vec![])],
        true,
        vec![],
    );
    svc.versions = vec![
        Arc::new(ServiceVersion {
            id: String::from("v1"),
            name: String::from("v1"),
            enabled: true,
            description: String::new(),
            deprecated: false,
        }),
        Arc::new(ServiceVersion {
            id: String::from("v2"),
            name: String::from("v2"),
            enabled: true,
            description: String::new(),
            deprecated: false,
        }),
    ];
    let maps = svc.get_service_maps_ref();
    assert_eq!(maps.len(), 2);
    assert_eq!(maps[0].key, "/v1-only");
    assert_eq!(maps[1].key, "/any");

    let t = bullg::models::ServicesTemplate {
        gateway: String::new(),
        version: String::new(),
        release_channel: String::new(),
        bullg_versions: vec![],
        developer: String::new(),
        global: bullg::models::GlobalApplied { plugins: vec![], policies: vec![] },
        services: vec![svc],
    };
    let merged = t.get_services_map_vec_ref();
    assert_eq!(merged.len(), 2);
}
