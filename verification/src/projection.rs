//! Snapshot-to-router projection: a service with versions is split into one
//! per-version copy, each holding only the upstreams, plugins, policies,
//! consumers, routes and spec versions that match its version, keyed by a
//! per-version context path.

use std::sync::Arc;
use vstd::prelude::*;

use crate::models::Upstream;
use crate::models::{
    contains_version, matches_version, opt_versions_match, share, versions_match, AppliedPlugin,
    AppliedPolicy, ContextPath, Route, RouteConfig, Service, ServiceConsumer, ServiceContextPaths,
    ServiceMapper, ServiceSpec, ServiceVersion,
};
use crate::paths::strip_trailing_slashes;
use crate::router::{enabled_route_pred, RouteTable};
use crate::value::clone_string;

verus! {

/// The declared version ids of a service, in order.
pub open spec fn all_version_ids(s: Service) -> Seq<Seq<char>> {
    s.versions@.map_values(|sv: Arc<ServiceVersion>| (*sv).id@)
}

/// The versions with this exact id.
pub open spec fn version_id_pred(v: Seq<char>) -> spec_fn(Arc<ServiceVersion>) -> bool {
    |sv: Arc<ServiceVersion>| (*sv).id@ == v
}

/// The upstreams eligible for version `v`.
pub open spec fn upstream_pred(v: Seq<char>) -> spec_fn(Arc<Upstream>) -> bool {
    |u: Arc<Upstream>| versions_match((*u).versions@, v)
}

/// The applied plugins eligible for version `v`.
pub open spec fn plugin_pred(v: Seq<char>) -> spec_fn(Arc<AppliedPlugin>) -> bool {
    |pl: Arc<AppliedPlugin>| opt_versions_match((*pl).versions, v)
}

/// The applied policies eligible for version `v`.
pub open spec fn policy_pred(v: Seq<char>) -> spec_fn(Arc<AppliedPolicy>) -> bool {
    |po: Arc<AppliedPolicy>| opt_versions_match((*po).version, v)
}

/// The consumers eligible for version `v`.
pub open spec fn consumer_pred(v: Seq<char>) -> spec_fn(Arc<ServiceConsumer>) -> bool {
    |c: Arc<ServiceConsumer>| versions_match((*c).versions@, v)
}

/// The routes eligible for version `v`.
pub open spec fn route_pred(v: Seq<char>) -> spec_fn(Arc<Route>) -> bool {
    |rt: Arc<Route>| versions_match((*rt).versions@, v)
}

/// The spec versions equal to `v`.
pub open spec fn id_eq_pred(v: Seq<char>) -> spec_fn(String) -> bool {
    |s: String| s@ == v
}

/// A context path covers `v` when `v` is declared on the service and the
/// path's own version set is empty or lists it.
pub open spec fn cp_covers(cp: ContextPath, all: Seq<Seq<char>>, v: Seq<char>) -> bool {
    all.contains(v) && (cp.versions@.len() == 0 || crate::models::version_in(cp.versions@, v))
}

/// Some declared context path with base path `p` covers `v`.
pub open spec fn path_covers(
    cps: Seq<Arc<ContextPath>>,
    all: Seq<Seq<char>>,
    p: Seq<char>,
    v: Seq<char>,
) -> bool {
    exists|c: int|
        0 <= c < cps.len() && (*(#[trigger] cps[c])).path@ == p && cp_covers(*cps[c], all, v)
}

/// The base path `p` covers more than one version.
pub open spec fn multi_covered(cps: Seq<Arc<ContextPath>>, all: Seq<Seq<char>>, p: Seq<char>) -> bool {
    exists|v1: Seq<char>, v2: Seq<char>|
        #[trigger] path_covers(cps, all, p, v1) && #[trigger] path_covers(cps, all, p, v2) && v1
            != v2
}

/// The per-version key under a base path that covers several versions: the
/// base path without trailing slashes, a slash, the version, a slash.
pub open spec fn versioned_key(p: Seq<char>, v: Seq<char>) -> Seq<char> {
    strip_trailing_slashes(p) + seq!['/'] + v + seq!['/']
}

/// Index `c` holds the first occurrence of its base path.
pub open spec fn is_first_path(cps: Seq<Arc<ContextPath>>, c: int) -> bool {
    forall|c2: int| 0 <= c2 < c ==> (*(#[trigger] cps[c2])).path@ != (*cps[c]).path@
}

/// The routing key version `v` receives from the declared context paths:
/// walking distinct base paths in order of first occurrence, the first one
/// that covers `v` yields its key — versioned when the path covers several
/// versions, verbatim when it covers `v` alone.
pub open spec fn chosen_from(
    cps: Seq<Arc<ContextPath>>,
    all: Seq<Seq<char>>,
    v: Seq<char>,
    c: int,
) -> Option<Seq<char>>
    decreases cps.len() - c,
{
    if c < 0 || c >= cps.len() {
        None
    } else if is_first_path(cps, c) && path_covers(cps, all, (*cps[c]).path@, v) {
        if multi_covered(cps, all, (*cps[c]).path@) {
            Some(versioned_key((*cps[c]).path@, v))
        } else {
            Some((*cps[c]).path@)
        }
    } else {
        chosen_from(cps, all, v, c + 1)
    }
}

/// The default base path of a service without usable context paths.
pub open spec fn default_base(s: Service) -> Seq<char> {
    seq!['/'] + s.name@ + seq!['/']
}

/// The service's context paths are usable for addressing.
pub open spec fn cps_usable(s: Service) -> bool {
    s.context_paths.enable && s.context_paths.paths@.len() > 0
}

/// More than one distinct version id is declared.
pub open spec fn multi_ids(all: Seq<Seq<char>>) -> bool {
    exists|i: int, j: int|
        0 <= i < all.len() && 0 <= j < all.len() && #[trigger] all[i] != #[trigger] all[j]
}

/// The routing key version `v` receives.
pub open spec fn chosen_key(s: Service, v: Seq<char>) -> Option<Seq<char>> {
    let all = all_version_ids(s);
    if cps_usable(s) {
        chosen_from(s.context_paths.paths@, all, v, 0)
    } else {
        if all.contains(v) {
            if multi_ids(all) {
                Some(versioned_key(default_base(s), v))
            } else {
                Some(default_base(s))
            }
        } else {
            None
        }
    }
}

/// Version index `i` produces a mapper: it receives a key that no earlier
/// version received.
pub open spec fn emit_at(s: Service, i: int) -> bool {
    let all = all_version_ids(s);
    &&& 0 <= i < all.len()
    &&& chosen_key(s, all[i]) is Some
    &&& !(exists|j: int| 0 <= j < i && #[trigger] chosen_key(s, all[j]) == chosen_key(s, all[i]))
}

/// The `(key, version)` pairs the projection emits, from version index `i`
/// on.
pub open spec fn emitted_from(s: Service, i: int) -> Seq<(Seq<char>, Seq<char>)>
    decreases all_version_ids(s).len() - i,
{
    let all = all_version_ids(s);
    if i < 0 || i >= all.len() {
        Seq::empty()
    } else if emit_at(s, i) {
        seq![(chosen_key(s, all[i]).unwrap(), all[i])] + emitted_from(s, i + 1)
    } else {
        emitted_from(s, i + 1)
    }
}

/// The route list of a per-version copy: the eligible routes in order, each
/// equal to its original except that its plugins are filtered for `v`.
pub open spec fn route_list_projection(
    pr: Seq<Arc<Route>>,
    fr: Seq<Arc<Route>>,
    v: Seq<char>,
) -> bool {
    &&& pr.len() == fr.len()
    &&& forall|i: int| 0 <= i < pr.len() ==> route_projection(*(#[trigger] pr[i]), *fr[i], v)
}

/// `a` is `b` with its plugins filtered for `v`.
pub open spec fn route_projection(a: Route, b: Route, v: Seq<char>) -> bool {
    &&& a.id == b.id
    &&& a.name == b.name
    &&& a.description == b.description
    &&& a.tags@ == b.tags@
    &&& a.enabled == b.enabled
    &&& a.versions@ == b.versions@
    &&& route_config_eq(a.config, b.config)
    &&& a.plugins@ == b.plugins@.filter(plugin_pred(v))
}

/// The two route configurations read the same.
pub open spec fn route_config_eq(a: RouteConfig, b: RouteConfig) -> bool {
    &&& a.protocols@ == b.protocols@
    &&& a.path == b.path
    &&& a.backend == b.backend
    &&& a.methods@ == b.methods@
}

/// The spec block of a per-version copy: absent iff absent, otherwise equal
/// with only the versions equal to `v` retained.
pub open spec fn spec_block_projection(
    a: Option<Arc<ServiceSpec>>,
    b: Option<Arc<ServiceSpec>>,
    v: Seq<char>,
) -> bool {
    match (a, b) {
        (None, None) => true,
        (Some(x), Some(y)) => {
            &&& (*x).enabled == (*y).enabled
            &&& (*x).route == (*y).route
            &&& (*x).versions@ == (*y).versions@.filter(id_eq_pred(v))
        },
        _ => false,
    }
}

/// `p` is the per-version copy of `s` for version `v` under routing key
/// `key`: unversioned fields carried over, every versioned list filtered,
/// the context paths replaced by the single chosen path, and the route table
/// compiled from the filtered routes.
pub open spec fn is_projection(p: Service, s: Service, v: Seq<char>, key: Seq<char>) -> bool {
    &&& p.id == s.id
    &&& p.name == s.name
    &&& p.url == s.url
    &&& p.description == s.description
    &&& p.tags@ == s.tags@
    &&& p.protocols@ == s.protocols@
    &&& p.versions@ == s.versions@.filter(version_id_pred(v))
    &&& p.upstreams@ == s.upstreams@.filter(upstream_pred(v))
    &&& p.plugins@ == s.plugins@.filter(plugin_pred(v))
    &&& p.policies@ == s.policies@.filter(policy_pred(v))
    &&& p.consumers@ == s.consumers@.filter(consumer_pred(v))
    &&& route_list_projection(p.routes@, s.routes@.filter(route_pred(v)), v)
    &&& spec_block_projection(p.spec, s.spec, v)
    &&& p.context_paths.enable
    &&& p.context_paths.paths@.len() == 1
    &&& (*p.context_paths.paths@[0]).path@ == key
    &&& (*p.context_paths.paths@[0]).versions@.len() == 1
    &&& (*p.context_paths.paths@[0]).versions@[0]@ == v
    &&& p.router.entries@ == p.routes@.filter(enabled_route_pred())
}

/// The key of the single mapper of a service without declared versions: its
/// first context path when usable, else the default base path.
pub open spec fn no_version_key(s: Service) -> Seq<char> {
    if cps_usable(s) {
        (*s.context_paths.paths@[0]).path@
    } else {
        default_base(s)
    }
}

/// `p` reads as `s` itself, with its route table compiled from its routes.
pub open spec fn is_full_copy(p: Service, s: Service) -> bool {
    &&& p.id == s.id
    &&& p.name == s.name
    &&& p.url == s.url
    &&& p.description == s.description
    &&& p.tags@ == s.tags@
    &&& p.protocols@ == s.protocols@
    &&& p.versions@ == s.versions@
    &&& p.upstreams@ == s.upstreams@
    &&& p.plugins@ == s.plugins@
    &&& p.policies@ == s.policies@
    &&& p.consumers@ == s.consumers@
    &&& p.routes@ == s.routes@
    &&& p.spec == s.spec
    &&& p.context_paths.enable == s.context_paths.enable
    &&& p.context_paths.paths@ == s.context_paths.paths@
    &&& p.router.entries@ == p.routes@.filter(enabled_route_pred())
}

fn copy_str_vec(v: &Vec<String>) -> (r: Vec<String>)
    ensures
        r@ == v@,
{
    let mut out: Vec<String> = Vec::new();
    let mut i: usize = 0;
    while i < v.len()
        invariant
            0 <= i <= v@.len(),
            out@ =~= v@.subrange(0, i as int),
        decreases v@.len() - i,
    {
        out.push(clone_string(&v[i]));
        i = i + 1;
    }
    proof {
        assert(out@ =~= v@);
    }
    out
}

fn copy_protocols(v: &Vec<crate::models::Protocols>) -> (r: Vec<crate::models::Protocols>)
    ensures
        r@ == v@,
{
    let mut out: Vec<crate::models::Protocols> = Vec::new();
    let mut i: usize = 0;
    while i < v.len()
        invariant
            0 <= i <= v@.len(),
            out@ =~= v@.subrange(0, i as int),
        decreases v@.len() - i,
    {
        out.push(v[i]);
        i = i + 1;
    }
    proof {
        assert(out@ =~= v@);
    }
    out
}

fn copy_arc_vec<T>(v: &Vec<Arc<T>>) -> (r: Vec<Arc<T>>)
    ensures
        r@ == v@,
{
    let mut out: Vec<Arc<T>> = Vec::new();
    let mut i: usize = 0;
    while i < v.len()
        invariant
            0 <= i <= v@.len(),
            out@ =~= v@.subrange(0, i as int),
        decreases v@.len() - i,
    {
        out.push(share(&v[i]));
        i = i + 1;
    }
    proof {
        assert(out@ =~= v@);
    }
    out
}

fn copy_opt_spec(o: &Option<Arc<ServiceSpec>>) -> (r: Option<Arc<ServiceSpec>>)
    ensures
        r == *o,
{
    match o {
        Some(x) => Some(share(x)),
        None => None,
    }
}

fn filter_versions(v: &Vec<Arc<ServiceVersion>>, ver: &str) -> (r: Vec<Arc<ServiceVersion>>)
    ensures
        r@ == v@.filter(version_id_pred(ver@)),
{
    let mut out: Vec<Arc<ServiceVersion>> = Vec::new();
    let mut i: usize = 0;
    while i < v.len()
        invariant
            0 <= i <= v@.len(),
            out@ == v@.subrange(0, i as int).filter(version_id_pred(ver@)),
        decreases v@.len() - i,
    {
        let ghost prefix = v@.subrange(0, i as int);
        proof {
            assert(v@.subrange(0, i + 1) =~= prefix.push(v@[i as int]));
            prefix.lemma_filter_push(v@[i as int], version_id_pred(ver@));
        }
        if crate::kv::str_eq(v[i].id.as_str(), ver) {
            out.push(share(&v[i]));
        }
        i = i + 1;
    }
    proof {
        assert(v@.subrange(0, v@.len() as int) =~= v@);
    }
    out
}

fn filter_upstreams(v: &Vec<Arc<Upstream>>, ver: &str) -> (r: Vec<Arc<Upstream>>)
    ensures
        r@ == v@.filter(upstream_pred(ver@)),
{
    let mut out: Vec<Arc<Upstream>> = Vec::new();
    let mut i: usize = 0;
    while i < v.len()
        invariant
            0 <= i <= v@.len(),
            out@ == v@.subrange(0, i as int).filter(upstream_pred(ver@)),
        decreases v@.len() - i,
    {
        let ghost prefix = v@.subrange(0, i as int);
        proof {
            assert(v@.subrange(0, i + 1) =~= prefix.push(v@[i as int]));
            prefix.lemma_filter_push(v@[i as int], upstream_pred(ver@));
        }
        if matches_version(&v[i].versions, ver) {
            out.push(share(&v[i]));
        }
        i = i + 1;
    }
    proof {
        assert(v@.subrange(0, v@.len() as int) =~= v@);
    }
    out
}

fn opt_matches_version(versions: &Option<Vec<String>>, ver: &str) -> (r: bool)
    ensures
        r == opt_versions_match(*versions, ver@),
{
    match versions {
        None => true,
        Some(vs) => matches_version(vs, ver),
    }
}

fn filter_plugins(v: &Vec<Arc<AppliedPlugin>>, ver: &str) -> (r: Vec<Arc<AppliedPlugin>>)
    ensures
        r@ == v@.filter(plugin_pred(ver@)),
{
    let mut out: Vec<Arc<AppliedPlugin>> = Vec::new();
    let mut i: usize = 0;
    while i < v.len()
        invariant
            0 <= i <= v@.len(),
            out@ == v@.subrange(0, i as int).filter(plugin_pred(ver@)),
        decreases v@.len() - i,
    {
        let ghost prefix = v@.subrange(0, i as int);
        proof {
            assert(v@.subrange(0, i + 1) =~= prefix.push(v@[i as int]));
            prefix.lemma_filter_push(v@[i as int], plugin_pred(ver@));
        }
        if opt_matches_version(&v[i].versions, ver) {
            out.push(share(&v[i]));
        }
        i = i + 1;
    }
    proof {
        assert(v@.subrange(0, v@.len() as int) =~= v@);
    }
    out
}

fn filter_policies(v: &Vec<Arc<AppliedPolicy>>, ver: &str) -> (r: Vec<Arc<AppliedPolicy>>)
    ensures
        r@ == v@.filter(policy_pred(ver@)),
{
    let mut out: Vec<Arc<AppliedPolicy>> = Vec::new();
    let mut i: usize = 0;
    while i < v.len()
        invariant
            0 <= i <= v@.len(),
            out@ == v@.subrange(0, i as int).filter(policy_pred(ver@)),
        decreases v@.len() - i,
    {
        let ghost prefix = v@.subrange(0, i as int);
        proof {
            assert(v@.subrange(0, i + 1) =~= prefix.push(v@[i as int]));
            prefix.lemma_filter_push(v@[i as int], policy_pred(ver@));
        }
        if opt_matches_version(&v[i].version, ver) {
            out.push(share(&v[i]));
        }
        i = i + 1;
    }
    proof {
        assert(v@.subrange(0, v@.len() as int) =~= v@);
    }
    out
}

fn filter_consumers(v: &Vec<Arc<ServiceConsumer>>, ver: &str) -> (r: Vec<Arc<ServiceConsumer>>)
    ensures
        r@ == v@.filter(consumer_pred(ver@)),
{
    let mut out: Vec<Arc<ServiceConsumer>> = Vec::new();
    let mut i: usize = 0;
    while i < v.len()
        invariant
            0 <= i <= v@.len(),
            out@ == v@.subrange(0, i as int).filter(consumer_pred(ver@)),
        decreases v@.len() - i,
    {
        let ghost prefix = v@.subrange(0, i as int);
        proof {
            assert(v@.subrange(0, i + 1) =~= prefix.push(v@[i as int]));
            prefix.lemma_filter_push(v@[i as int], consumer_pred(ver@));
        }
        if matches_version(&v[i].versions, ver) {
            out.push(share(&v[i]));
        }
        i = i + 1;
    }
    proof {
        assert(v@.subrange(0, v@.len() as int) =~= v@);
    }
    out
}

fn filter_id_eq(v: &Vec<String>, ver: &str) -> (r: Vec<String>)
    ensures
        r@ == v@.filter(id_eq_pred(ver@)),
{
    let mut out: Vec<String> = Vec::new();
    let mut i: usize = 0;
    while i < v.len()
        invariant
            0 <= i <= v@.len(),
            out@ == v@.subrange(0, i as int).filter(id_eq_pred(ver@)),
        decreases v@.len() - i,
    {
        let ghost prefix = v@.subrange(0, i as int);
        proof {
            assert(v@.subrange(0, i + 1) =~= prefix.push(v@[i as int]));
            prefix.lemma_filter_push(v@[i as int], id_eq_pred(ver@));
        }
        if crate::kv::str_eq(v[i].as_str(), ver) {
            out.push(clone_string(&v[i]));
        }
        i = i + 1;
    }
    proof {
        assert(v@.subrange(0, v@.len() as int) =~= v@);
    }
    out
}

fn copy_route_config(c: &RouteConfig) -> (r: RouteConfig)
    ensures
        route_config_eq(r, *c),
{
    RouteConfig {
        protocols: copy_protocols(&c.protocols),
        path: clone_string(&c.path),
        backend: clone_string(&c.backend),
        methods: copy_str_vec(&c.methods),
    }
}

fn project_routes(routes: &Vec<Arc<Route>>, ver: &str) -> (r: Vec<Arc<Route>>)
    ensures
        route_list_projection(r@, routes@.filter(route_pred(ver@)), ver@),
{
    let mut out: Vec<Arc<Route>> = Vec::new();
    let mut i: usize = 0;
    while i < routes.len()
        invariant
            0 <= i <= routes@.len(),
            route_list_projection(
                out@,
                routes@.subrange(0, i as int).filter(route_pred(ver@)),
                ver@,
            ),
        decreases routes@.len() - i,
    {
        let ghost prefix = routes@.subrange(0, i as int);
        proof {
            assert(routes@.subrange(0, i + 1) =~= prefix.push(routes@[i as int]));
            prefix.lemma_filter_push(routes@[i as int], route_pred(ver@));
        }
        let rt = &routes[i];
        if matches_version(&rt.versions, ver) {
            let projected = Route {
                id: clone_string(&rt.id),
                name: clone_string(&rt.name),
                description: clone_string(&rt.description),
                tags: copy_str_vec(&rt.tags),
                enabled: rt.enabled,
                versions: copy_str_vec(&rt.versions),
                config: copy_route_config(&rt.config),
                plugins: filter_plugins(&rt.plugins, ver),
            };
            out.push(Arc::new(projected));
        }
        i = i + 1;
    }
    proof {
        assert(routes@.subrange(0, routes@.len() as int) =~= routes@);
    }
    out
}

fn project_spec_block(o: &Option<Arc<ServiceSpec>>, ver: &str) -> (r: Option<Arc<ServiceSpec>>)
    ensures
        spec_block_projection(r, *o, ver@),
{
    match o {
        None => None,
        Some(x) => {
            let projected = ServiceSpec {
                enabled: x.enabled,
                route: clone_string(&x.route),
                versions: filter_id_eq(&x.versions, ver),
            };
            Some(Arc::new(projected))
        },
    }
}


/// The character sequences of a string list.
pub open spec fn str_views(v: Seq<String>) -> Seq<Seq<char>> {
    v.map_values(|s: String| s@)
}

fn make_versioned_key(p: &str, v: &str) -> (r: String)
    ensures
        r@ == versioned_key(p@, v@),
{
    let stripped = crate::paths::strip_trailing(p);
    let a = stripped.concat("/");
    let b = a.concat(v);
    let r = b.concat("/");
    proof {
        reveal_strlit("/");
        assert(r@ =~= versioned_key(p@, v@));
    }
    r
}

fn make_default_base(name: &str) -> (r: String)
    ensures
        r@ == seq!['/'] + name@ + seq!['/'],
{
    let a = String::from_str("/").concat(name);
    let r = a.concat("/");
    proof {
        reveal_strlit("/");
        assert(r@ =~= seq!['/'] + name@ + seq!['/']);
    }
    r
}

fn path_covers_exec(
    cps: &Vec<Arc<ContextPath>>,
    all_ids: &Vec<String>,
    p: &str,
    v: &str,
) -> (r: bool)
    ensures
        r == path_covers(cps@, str_views(all_ids@), p@, v@),
{
    if !contains_version(all_ids, v) {
        proof {
            assert forall|c: int|
                0 <= c < cps@.len() implies !((*(#[trigger] cps@[c])).path@ == p@ && cp_covers(
                *cps@[c],
                str_views(all_ids@),
                v@,
            )) by {
                if str_views(all_ids@).contains(v@) {
                    let w = choose|w: int|
                        0 <= w < str_views(all_ids@).len() && str_views(all_ids@)[w] == v@;
                    assert(all_ids@[w]@ == v@);
                }
            }
        }
        return false;
    }
    proof {
        let w = choose|w: int| 0 <= w < all_ids@.len() && (#[trigger] all_ids@[w])@ == v@;
        assert(str_views(all_ids@)[w] == v@);
        assert(str_views(all_ids@).contains(v@));
    }
    let mut c: usize = 0;
    while c < cps.len()
        invariant
            str_views(all_ids@).contains(v@),
            0 <= c <= cps@.len(),
            forall|j: int|
                0 <= j < c ==> !((*(#[trigger] cps@[j])).path@ == p@ && cp_covers(
                    *cps@[j],
                    str_views(all_ids@),
                    v@,
                )),
        decreases cps@.len() - c,
    {
        let cp = &cps[c];
        if crate::kv::str_eq(cp.path.as_str(), p) {
            if cp.versions.len() == 0 || contains_version(&cp.versions, v) {
                return true;
            }
        }
        c = c + 1;
    }
    false
}

fn multi_covered_exec(cps: &Vec<Arc<ContextPath>>, all_ids: &Vec<String>, p: &str) -> (r: bool)
    ensures
        r == multi_covered(cps@, str_views(all_ids@), p@),
{
    let ghost all = str_views(all_ids@);
    let mut first: Option<usize> = None;
    let mut t: usize = 0;
    while t < all_ids.len()
        invariant
            all == str_views(all_ids@),
            0 <= t <= all_ids@.len(),
            match first {
                None => forall|j: int|
                    0 <= j < t ==> !path_covers(cps@, all, p@, (#[trigger] all_ids@[j])@),
                Some(fi) => 0 <= fi < all_ids@.len() && path_covers(
                    cps@,
                    all,
                    p@,
                    all_ids@[fi as int]@,
                ),
            },
        decreases all_ids@.len() - t,
    {
        let already = match first {
            Some(_) => true,
            None => false,
        };
        if !already && path_covers_exec(cps, all_ids, p, all_ids[t].as_str()) {
            first = Some(t);
        }
        t = t + 1;
    }
    match first {
        None => {
            proof {
                if multi_covered(cps@, all, p@) {
                    let (v1, v2) = choose|v1: Seq<char>, v2: Seq<char>|
                        #[trigger] path_covers(cps@, all, p@, v1) && #[trigger] path_covers(
                            cps@,
                            all,
                            p@,
                            v2,
                        ) && v1 != v2;
                    let c = choose|c: int|
                        0 <= c < cps@.len() && (*(#[trigger] cps@[c])).path@ == p@ && cp_covers(
                            *cps@[c],
                            all,
                            v1,
                        );
                    let w = choose|w: int| 0 <= w < all.len() && all[w] == v1;
                    assert(all_ids@[w]@ == v1);
                    assert(path_covers(cps@, all, p@, (all_ids@[w])@));
                }
            }
            false
        },
        Some(fi) => {
            let ghost fv = all_ids@[fi as int]@;
            let mut u: usize = 0;
            while u < all_ids.len()
                invariant
                    all == str_views(all_ids@),
                    0 <= fi < all_ids@.len(),
                    path_covers(cps@, all, p@, fv),
                    fv == all_ids@[fi as int]@,
                    0 <= u <= all_ids@.len(),
                    forall|j: int|
                        0 <= j < u ==> !(path_covers(cps@, all, p@, (#[trigger] all_ids@[j])@)
                            && (all_ids@[j])@ != fv),
                decreases all_ids@.len() - u,
            {
                if !crate::kv::str_eq(all_ids[u].as_str(), all_ids[fi].as_str()) {
                    if path_covers_exec(cps, all_ids, p, all_ids[u].as_str()) {
                        return true;
                    }
                }
                u = u + 1;
            }
            proof {
                if multi_covered(cps@, all, p@) {
                    let (v1, v2) = choose|v1: Seq<char>, v2: Seq<char>|
                        #[trigger] path_covers(cps@, all, p@, v1) && #[trigger] path_covers(
                            cps@,
                            all,
                            p@,
                            v2,
                        ) && v1 != v2;
                    let other = if v1 == fv {
                        v2
                    } else {
                        v1
                    };
                    assert(path_covers(cps@, all, p@, other) && other != fv);
                    let c = choose|c: int|
                        0 <= c < cps@.len() && (*(#[trigger] cps@[c])).path@ == p@ && cp_covers(
                            *cps@[c],
                            all,
                            other,
                        );
                    let w = choose|w: int| 0 <= w < all.len() && all[w] == other;
                    assert(all_ids@[w]@ == other);
                    assert(path_covers(cps@, all, p@, (all_ids@[w])@) && (all_ids@[w])@ != fv);
                }
            }
            false
        },
    }
}

fn multi_ids_exec(all_ids: &Vec<String>) -> (r: bool)
    ensures
        r == multi_ids(str_views(all_ids@)),
{
    let ghost all = str_views(all_ids@);
    if all_ids.len() == 0 {
        return false;
    }
    let mut u: usize = 1;
    while u < all_ids.len()
        invariant
            all == str_views(all_ids@),
            all_ids@.len() > 0,
            1 <= u <= all_ids@.len(),
            forall|j: int| 0 <= j < u ==> (#[trigger] all_ids@[j])@ == all_ids@[0]@,
        decreases all_ids@.len() - u,
    {
        if !crate::kv::str_eq(all_ids[u].as_str(), all_ids[0].as_str()) {
            proof {
                assert(all[u as int] != all[0]);
            }
            return true;
        }
        u = u + 1;
    }
    proof {
        if multi_ids(all) {
            let (i, j) = choose|i: int, j: int|
                0 <= i < all.len() && 0 <= j < all.len() && #[trigger] all[i] != #[trigger] all[j];
            assert(all_ids@[i]@ == all_ids@[0]@);
            assert(all_ids@[j]@ == all_ids@[0]@);
        }
    }
    false
}

fn chosen_key_exec(s: &Service, all_ids: &Vec<String>, v: &str) -> (r: Option<String>)
    requires
        str_views(all_ids@) == all_version_ids(*s),
    ensures
        ((r matches Some(k) && chosen_key(*s, v@) == Some(k@)) || (r is None && chosen_key(
            *s,
            v@,
        ) is None)),
{
    let ghost all = all_version_ids(*s);
    if s.context_paths.enable && s.context_paths.paths.len() > 0 {
        let cps = &s.context_paths.paths;
        let mut c: usize = 0;
        while c < cps.len()
            invariant
                all == all_version_ids(*s),
                str_views(all_ids@) == all,
                cps == &s.context_paths.paths,
                cps_usable(*s),
                0 <= c <= cps@.len(),
                chosen_from(cps@, all, v@, 0) == chosen_from(cps@, all, v@, c as int),
            decreases cps@.len() - c,
        {
            let mut first = true;
            let mut c2: usize = 0;
            while c2 < c
                invariant
                    cps == &s.context_paths.paths,
                    0 <= c2 <= c < cps@.len(),
                    first == (forall|j: int|
                        0 <= j < c2 ==> (*(#[trigger] cps@[j])).path@ != (*cps@[c as int]).path@),
                decreases c - c2,
            {
                if crate::kv::str_eq(cps[c2].path.as_str(), cps[c].path.as_str()) {
                    proof {
                        assert((*cps@[c2 as int]).path@ == (*cps@[c as int]).path@);
                    }
                    first = false;
                    c2 = c;
                } else {
                    proof {
                        if first {
                            assert(forall|j: int|
                                0 <= j < c2 + 1 ==> (*(#[trigger] cps@[j])).path@
                                    != (*cps@[c as int]).path@);
                        } else {
                            let w = choose|j: int|
                                0 <= j < c2 && (*(#[trigger] cps@[j])).path@
                                    == (*cps@[c as int]).path@;
                            assert(0 <= w < c2 + 1 && (*cps@[w]).path@ == (*cps@[c as int]).path@);
                        }
                    }
                    c2 = c2 + 1;
                }
            }
            if first && path_covers_exec(cps, all_ids, cps[c].path.as_str(), v) {
                if multi_covered_exec(cps, all_ids, cps[c].path.as_str()) {
                    return Some(make_versioned_key(cps[c].path.as_str(), v));
                } else {
                    return Some(clone_string(&cps[c].path));
                }
            }
            c = c + 1;
        }
        None
    } else {
        if contains_version(all_ids, v) {
            proof {
                let w = choose|w: int| 0 <= w < all_ids@.len() && (#[trigger] all_ids@[w])@ == v@;
                assert(str_views(all_ids@)[w] == v@);
                assert(all.contains(v@));
            }
            let base = make_default_base(s.name.as_str());
            if multi_ids_exec(all_ids) {
                Some(make_versioned_key(base.as_str(), v))
            } else {
                Some(base)
            }
        } else {
            proof {
                if all.contains(v@) {
                    let w = choose|w: int| 0 <= w < all.len() && all[w] == v@;
                    assert(all_ids@[w]@ == v@);
                }
            }
            None
        }
    }
}


/// `p` reads as `s` itself, with the same compiled route table.
pub open spec fn is_plain_copy(p: Service, s: Service) -> bool {
    &&& p.id == s.id
    &&& p.name == s.name
    &&& p.url == s.url
    &&& p.description == s.description
    &&& p.tags@ == s.tags@
    &&& p.protocols@ == s.protocols@
    &&& p.versions@ == s.versions@
    &&& p.upstreams@ == s.upstreams@
    &&& p.plugins@ == s.plugins@
    &&& p.policies@ == s.policies@
    &&& p.consumers@ == s.consumers@
    &&& p.routes@ == s.routes@
    &&& p.spec == s.spec
    &&& p.context_paths.enable == s.context_paths.enable
    &&& p.context_paths.paths@ == s.context_paths.paths@
    &&& p.router.entries@ == s.router.entries@
}

fn copy_service_plain(s: &Service) -> (r: Service)
    ensures
        is_plain_copy(r, *s),
{
    Service {
        id: clone_string(&s.id),
        name: clone_string(&s.name),
        url: clone_string(&s.url),
        description: clone_string(&s.description),
        tags: copy_str_vec(&s.tags),
        protocols: copy_protocols(&s.protocols),
        spec: copy_opt_spec(&s.spec),
        versions: copy_arc_vec(&s.versions),
        upstreams: copy_arc_vec(&s.upstreams),
        context_paths: ServiceContextPaths {
            enable: s.context_paths.enable,
            paths: copy_arc_vec(&s.context_paths.paths),
        },
        plugins: copy_arc_vec(&s.plugins),
        policies: copy_arc_vec(&s.policies),
        consumers: copy_arc_vec(&s.consumers),
        routes: copy_arc_vec(&s.routes),
        router: RouteTable { entries: copy_arc_vec(&s.router.entries) },
    }
}

fn project_service(s: &Service, ver: &str, key: String) -> (r: Service)
    ensures
        is_projection(r, *s, ver@, key@),
{
    let cp = ContextPath { path: key, versions: vec![ver.to_owned()] };
    let routes = project_routes(&s.routes, ver);
    let router = RouteTable::build(&routes);
    Service {
        id: clone_string(&s.id),
        name: clone_string(&s.name),
        url: clone_string(&s.url),
        description: clone_string(&s.description),
        tags: copy_str_vec(&s.tags),
        protocols: copy_protocols(&s.protocols),
        spec: project_spec_block(&s.spec, ver),
        versions: filter_versions(&s.versions, ver),
        upstreams: filter_upstreams(&s.upstreams, ver),
        context_paths: ServiceContextPaths { enable: true, paths: vec![Arc::new(cp)] },
        plugins: filter_plugins(&s.plugins, ver),
        policies: filter_policies(&s.policies, ver),
        consumers: filter_consumers(&s.consumers, ver),
        routes,
        router,
    }
}

impl Service {
    /// A single mapper binding this service under its first context path when
    /// the block is usable, else under a slash and its name.
    pub fn get_service_map(&self) -> (r: ServiceMapper)
        ensures
            cps_usable(*self) ==> r.key@ == (*self.context_paths.paths@[0]).path@,
            !cps_usable(*self) ==> r.key@ == seq!['/'] + self.name@,
            is_plain_copy(r.value, *self),
    {
        let key = if self.context_paths.enable && self.context_paths.paths.len() > 0 {
            clone_string(&self.context_paths.paths[0].path)
        } else {
            let k = String::from_str("/").concat(self.name.as_str());
            proof {
                reveal_strlit("/");
                assert(k@ =~= seq!['/'] + self.name@);
            }
            k
        };
        ServiceMapper { key, value: copy_service_plain(self) }
    }

    /// The per-version mappers of this service.  A service without declared
    /// versions yields one mapper: a copy of itself with its route table
    /// compiled, keyed by its first usable context path or a slash-wrapped
    /// default.  Otherwise each version that receives a fresh routing key
    /// yields one mapper, in version order, holding the per-version
    /// projection of the service.
    pub fn get_service_maps(&self) -> (r: Vec<ServiceMapper>)
        ensures
            self.versions@.len() == 0 ==> r@.len() == 1 && r@[0].key@ == no_version_key(*self)
                && is_full_copy(r@[0].value, *self),
            self.versions@.len() > 0 ==> {
                &&& r@.len() == emitted_from(*self, 0).len()
                &&& forall|idx: int|
                    0 <= idx < r@.len() ==> (#[trigger] r@[idx]).key@
                        == emitted_from(*self, 0)[idx].0 && is_projection(
                        r@[idx].value,
                        *self,
                        emitted_from(*self, 0)[idx].1,
                        emitted_from(*self, 0)[idx].0,
                    )
            },
    {
        if self.versions.len() == 0 {
            let key = if self.context_paths.enable && self.context_paths.paths.len() > 0 {
                clone_string(&self.context_paths.paths[0].path)
            } else {
                make_default_base(self.name.as_str())
            };
            let mut own = copy_service_plain(self);
            own.build_router();
            let mut out: Vec<ServiceMapper> = Vec::new();
            out.push(ServiceMapper { key, value: own });
            return out;
        }
        let all_ids = self.get_version_ids();
        proof {
            assert(str_views(all_ids@) =~= all_version_ids(*self));
        }
        let ghost e_all = emitted_from(*self, 0);
        let ghost mut done: Seq<(Seq<char>, Seq<char>)> = Seq::empty();
        let mut out: Vec<ServiceMapper> = Vec::new();
        let mut seen: Vec<String> = Vec::new();
        let mut i: usize = 0;
        proof {
            assert(e_all =~= done + emitted_from(*self, 0));
        }
        while i < all_ids.len()
            invariant
                str_views(all_ids@) == all_version_ids(*self),
                0 <= i <= all_ids@.len(),
                e_all == emitted_from(*self, 0),
                e_all == done + emitted_from(*self, i as int),
                out@.len() == done.len(),
                forall|idx: int|
                    0 <= idx < done.len() ==> (#[trigger] out@[idx]).key@ == done[idx].0
                        && is_projection(out@[idx].value, *self, done[idx].1, done[idx].0),
                forall|k: Seq<char>|
                    #![trigger crate::models::version_in(seen@, k)]
                    crate::models::version_in(seen@, k) <==> (exists|j: int|
                        0 <= j < i && #[trigger] chosen_key(
                            *self,
                            all_version_ids(*self)[j],
                        ) == Some(k)),
            decreases all_ids@.len() - i,
        {
            let ghost all = all_version_ids(*self);
            let ghost v = all[i as int];
            proof {
                assert(str_views(all_ids@)[i as int] == all_ids@[i as int]@);
            }
            let chosen = chosen_key_exec(self, &all_ids, all_ids[i].as_str());
            let ghost prev_seen = seen@;
            match chosen {
                None => {
                    proof {
                        assert(!emit_at(*self, i as int));
                        assert(emitted_from(*self, i as int) == emitted_from(*self, i + 1));
                        assert forall|k: Seq<char>|
                            #![trigger crate::models::version_in(seen@, k)]
                            crate::models::version_in(seen@, k) <==> (exists|j: int|
                                0 <= j < i + 1 && #[trigger] chosen_key(*self, all[j]) == Some(
                                    k,
                                )) by {
                            if exists|j: int|
                                0 <= j < i + 1 && #[trigger] chosen_key(*self, all[j]) == Some(k) {
                                let j = choose|j: int|
                                    0 <= j < i + 1 && #[trigger] chosen_key(*self, all[j])
                                        == Some(k);
                                assert(j < i);
                            }
                        }
                    }
                },
                Some(key) => {
                    let mut in_seen = false;
                    let mut t: usize = 0;
                    while t < seen.len()
                        invariant
                            seen@ == prev_seen,
                            0 <= t <= seen@.len(),
                            in_seen ==> crate::models::version_in(seen@, key@),
                            !in_seen ==> forall|j: int|
                                0 <= j < t ==> (#[trigger] seen@[j])@ != key@,
                        decreases seen@.len() - t,
                    {
                        if crate::kv::str_eq(seen[t].as_str(), key.as_str()) {
                            in_seen = true;
                            t = seen.len();
                        } else {
                            t = t + 1;
                        }
                    }
                    if in_seen {
                        proof {
                            assert(crate::models::version_in(seen@, key@));
                            assert(!emit_at(*self, i as int));
                            assert(emitted_from(*self, i as int) == emitted_from(*self, i + 1));
                            assert forall|k: Seq<char>|
                                #![trigger crate::models::version_in(seen@, k)]
                                crate::models::version_in(seen@, k) <==> (exists|j: int|
                                    0 <= j < i + 1 && #[trigger] chosen_key(*self, all[j]) == Some(
                                        k,
                                    )) by {
                                if exists|j: int|
                                    0 <= j < i + 1 && #[trigger] chosen_key(*self, all[j]) == Some(
                                        k,
                                    ) {
                                    let j = choose|j: int|
                                        0 <= j < i + 1 && #[trigger] chosen_key(*self, all[j])
                                            == Some(k);
                                    if j == i {
                                        assert(k == key@);
                                    }
                                }
                            }
                        }
                    } else {
                        proof {
                            assert(!crate::models::version_in(seen@, key@));
                            assert(emit_at(*self, i as int));
                            assert(emitted_from(*self, i as int) == seq![(key@, v)]
                                + emitted_from(*self, i + 1));
                        }
                        let mapper_key = clone_string(&key);
                        let value = project_service(self, all_ids[i].as_str(), key);
                        out.push(ServiceMapper { key: mapper_key, value });
                        seen.push(clone_string(&seen_key_copy_helper(&out)));
                        proof {
                            done = done.push((out@.last().key@, v));
                            assert(e_all =~= (done.drop_last() + (seq![
                                (out@.last().key@, v),
                            ] + emitted_from(*self, i + 1))));
                            assert(e_all =~= done + emitted_from(*self, i + 1));
                            assert forall|k: Seq<char>|
                                #![trigger crate::models::version_in(seen@, k)]
                                crate::models::version_in(seen@, k) <==> (exists|j: int|
                                    0 <= j < i + 1 && #[trigger] chosen_key(*self, all[j]) == Some(
                                        k,
                                    )) by {
                                if crate::models::version_in(seen@, k) {
                                    let t2 = choose|t2: int|
                                        0 <= t2 < seen@.len() && (#[trigger] seen@[t2])@ == k;
                                    if t2 < prev_seen.len() {
                                        assert(prev_seen[t2]@ == k);
                                        assert(crate::models::version_in(prev_seen, k));
                                    } else {
                                        assert(k == out@.last().key@);
                                        assert(chosen_key(*self, all[i as int]) == Some(k));
                                    }
                                }
                                if exists|j: int|
                                    0 <= j < i + 1 && #[trigger] chosen_key(*self, all[j]) == Some(
                                        k,
                                    ) {
                                    let j = choose|j: int|
                                        0 <= j < i + 1 && #[trigger] chosen_key(*self, all[j])
                                            == Some(k);
                                    if j < i {
                                        assert(crate::models::version_in(prev_seen, k));
                                        let t2 = choose|t2: int|
                                            0 <= t2 < prev_seen.len() && (
                                            #[trigger] prev_seen[t2])@ == k;
                                        assert(seen@[t2]@ == k);
                                    } else {
                                        assert(k == out@.last().key@);
                                        assert(seen@.last()@ == k);
                                    }
                                }
                            }
                        }
                    }
                },
            }
            i = i + 1;
        }
        proof {
            assert(emitted_from(*self, all_ids@.len() as int) =~= Seq::<
                (Seq<char>, Seq<char>),
            >::empty());
            assert(e_all =~= done);
        }
        out
    }
}

fn seen_key_copy_helper(out: &Vec<ServiceMapper>) -> (r: &String)
    requires
        out@.len() > 0,
    ensures
        *r == out@.last().key,
{
    &out[out.len() - 1].key
}


/// Some mapper in the list binds the key `k`.
pub open spec fn mapper_keys_has(l: Seq<ServiceMapper>, k: Seq<char>) -> bool {
    exists|i: int| 0 <= i < l.len() && (#[trigger] l[i]).key@ == k
}

/// `m` is one of the mappers the projection of `s` emits.
pub open spec fn service_emits(m: ServiceMapper, s: Service) -> bool {
    if s.versions@.len() == 0 {
        m.key@ == no_version_key(s) && is_full_copy(m.value, s)
    } else {
        exists|idx: int|
            0 <= idx < emitted_from(s, 0).len() && m.key@ == (#[trigger] emitted_from(s, 0)[idx]).0
                && is_projection(m.value, s, emitted_from(s, 0)[idx].1, emitted_from(s, 0)[idx].0)
    }
}

/// The projection of `s` emits a mapper keyed `k`.
pub open spec fn emits_key(s: Service, k: Seq<char>) -> bool {
    if s.versions@.len() == 0 {
        k == no_version_key(s)
    } else {
        exists|idx: int|
            0 <= idx < emitted_from(s, 0).len() && (#[trigger] emitted_from(s, 0)[idx]).0 == k
    }
}

/// `m` is a mapper some service in the list emits.
pub open spec fn mapper_ok(m: ServiceMapper, services: Seq<Service>) -> bool {
    exists|si: int| 0 <= si < services.len() && service_emits(m, #[trigger] services[si])
}

fn upsert_mapper(out: &mut Vec<ServiceMapper>, m: ServiceMapper)
    ensures
        forall|i: int|
            0 <= i < final(out)@.len() ==> (#[trigger] final(out)@[i]) == m || (exists|j: int|
                0 <= j < old(out)@.len() && final(out)@[i] == (#[trigger] old(out)@[j])),
        forall|k: Seq<char>|
            #![trigger mapper_keys_has(final(out)@, k)]
            mapper_keys_has(final(out)@, k) <==> (mapper_keys_has(old(out)@, k) || k == m.key@),
        (forall|i1: int, i2: int|
            0 <= i1 < i2 < old(out)@.len() ==> (#[trigger] old(out)@[i1]).key@ != (
            #[trigger] old(out)@[i2]).key@) ==> (forall|i1: int, i2: int|
            0 <= i1 < i2 < final(out)@.len() ==> (#[trigger] final(out)@[i1]).key@ != (
            #[trigger] final(out)@[i2]).key@),
{
    let mut i: usize = 0;
    while i < out.len()
        invariant
            out@ == old(out)@,
            0 <= i <= out@.len(),
            forall|j: int| 0 <= j < i ==> (#[trigger] out@[j]).key@ != m.key@,
        decreases out@.len() - i,
    {
        if crate::kv::str_eq(out[i].key.as_str(), m.key.as_str()) {
            let ghost mk = m.key@;
            out[i] = m;
            proof {
                assert(out@ == old(out)@.update(i as int, out@[i as int]));
                assert(out@[i as int].key@ == mk);
                assert forall|k: Seq<char>|
                    #![trigger mapper_keys_has(out@, k)]
                    mapper_keys_has(out@, k) <==> (mapper_keys_has(old(out)@, k) || k == mk) by {
                    if mapper_keys_has(out@, k) {
                        let w = choose|w: int|
                            0 <= w < out@.len() && (#[trigger] out@[w]).key@ == k;
                        if w != i {
                            assert(old(out)@[w].key@ == k);
                        }
                    }
                    if mapper_keys_has(old(out)@, k) {
                        let w = choose|w: int|
                            0 <= w < old(out)@.len() && (#[trigger] old(out)@[w]).key@ == k;
                        if w == i {
                            assert(old(out)@[i as int].key@ == mk);
                            assert(out@[i as int].key@ == k);
                        } else {
                            assert(out@[w].key@ == k);
                        }
                    }
                    if k == mk {
                        assert(out@[i as int].key@ == k);
                    }
                }
            }
            proof {
                assert forall|ii: int|
                    0 <= ii < out@.len() implies (#[trigger] out@[ii]) == m || (exists|j: int|
                    0 <= j < old(out)@.len() && out@[ii] == (#[trigger] old(out)@[j])) by {
                    if ii != i {
                        assert(out@[ii] == old(out)@[ii]);
                    }
                }
            }
            return ;
        }
        i = i + 1;
    }
    let ghost mk = m.key@;
    out.push(m);
    proof {
        assert(out@.drop_last() =~= old(out)@);
        assert forall|k: Seq<char>|
            #![trigger mapper_keys_has(out@, k)]
            mapper_keys_has(out@, k) <==> (mapper_keys_has(old(out)@, k) || k == mk) by {
            if mapper_keys_has(out@, k) {
                let w = choose|w: int| 0 <= w < out@.len() && (#[trigger] out@[w]).key@ == k;
                if w < old(out)@.len() {
                    assert(old(out)@[w].key@ == k);
                } else {
                    assert(k == mk);
                }
            }
            if mapper_keys_has(old(out)@, k) {
                let w = choose|w: int| 0 <= w < old(out)@.len() && (#[trigger] old(out)@[w]).key@ == k;
                assert(out@[w].key@ == k);
            }
            if k == mk {
                assert(out@[out@.len() - 1].key@ == k);
            }
        }
        assert forall|i1: int, i2: int| 0 <= i1 < i2 < out@.len() && (forall|p1: int, p2: int|
            0 <= p1 < p2 < old(out)@.len() ==> (#[trigger] old(out)@[p1]).key@ != (
            #[trigger] old(out)@[p2]).key@) implies (#[trigger] out@[i1]).key@ != (
        #[trigger] out@[i2]).key@ by {
            if i2 == out@.len() - 1 {
                assert(out@[i1] == old(out)@[i1]);
                assert(old(out)@[i1].key@ != mk);
            } else {
                assert(out@[i1] == old(out)@[i1]);
                assert(out@[i2] == old(out)@[i2]);
            }
        }
    }
}

impl crate::models::ServicesTemplate {
    /// One router-ready mapper list for the whole template: the per-version
    /// mappers of every service, merged by key with the later binding
    /// replacing the earlier, every key bound once, and every key any
    /// service emits present.
    pub fn get_services_map_vec(&self) -> (r: Vec<ServiceMapper>)
        ensures
            forall|i1: int, i2: int|
                0 <= i1 < i2 < r@.len() ==> (#[trigger] r@[i1]).key@ != (#[trigger] r@[i2]).key@,
            forall|i: int| 0 <= i < r@.len() ==> mapper_ok(#[trigger] r@[i], self.services@),
            forall|si: int, k: Seq<char>|
                0 <= si < self.services@.len() && #[trigger] emits_key(self.services@[si], k)
                    ==> mapper_keys_has(r@, k),
    {
        let mut out: Vec<ServiceMapper> = Vec::new();
        let mut si: usize = 0;
        while si < self.services.len()
            invariant
                0 <= si <= self.services@.len(),
                forall|i1: int, i2: int|
                    0 <= i1 < i2 < out@.len() ==> (#[trigger] out@[i1]).key@ != (
                    #[trigger] out@[i2]).key@,
                forall|i: int| 0 <= i < out@.len() ==> mapper_ok(#[trigger] out@[i], self.services@),
                forall|s2: int, k: Seq<char>|
                    0 <= s2 < si && #[trigger] emits_key(self.services@[s2], k) ==> mapper_keys_has(
                        out@,
                        k,
                    ),
            decreases self.services@.len() - si,
        {
            let svc = &self.services[si];
            let maps = svc.get_service_maps();
            let ghost maps0 = maps@;
            let ghost svc_g = self.services@[si as int];
            let mut rest = maps;
            while rest.len() > 0
                invariant
                    0 <= si < self.services@.len(),
                    svc_g == self.services@[si as int],
                    rest@.len() <= maps0.len(),
                    rest@ =~= maps0.subrange(maps0.len() - rest@.len(), maps0.len() as int),
                    forall|mi: int| 0 <= mi < maps0.len() ==> service_emits(#[trigger] maps0[mi], svc_g),
                    forall|i1: int, i2: int|
                        0 <= i1 < i2 < out@.len() ==> (#[trigger] out@[i1]).key@ != (
                        #[trigger] out@[i2]).key@,
                    forall|i: int|
                        0 <= i < out@.len() ==> mapper_ok(#[trigger] out@[i], self.services@),
                    forall|s2: int, k: Seq<char>|
                        0 <= s2 < si && #[trigger] emits_key(self.services@[s2], k)
                            ==> mapper_keys_has(out@, k),
                    forall|mi: int|
                        0 <= mi < maps0.len() - rest@.len() ==> mapper_keys_has(
                            out@,
                            (#[trigger] maps0[mi]).key@,
                        ),
                decreases rest@.len(),
            {
                let ghost pre = rest@;
                let ghost done_n = maps0.len() - pre.len();
                let m = rest.remove(0);
                proof {
                    assert(pre.drop_first() =~= rest@);
                    assert(m == maps0[done_n]);
                }
                let ghost prev_out = out@;
                upsert_mapper(&mut out, m);
                proof {
                    assert forall|i: int|
                        0 <= i < out@.len() implies mapper_ok(#[trigger] out@[i], self.services@) by {
                        if out@[i] == maps0[done_n] {
                            assert(service_emits(out@[i], svc_g));
                        } else {
                            let j = choose|j: int|
                                0 <= j < prev_out.len() && out@[i] == (#[trigger] prev_out[j]);
                            assert(mapper_ok(prev_out[j], self.services@));
                        }
                    }
                    assert forall|s2: int, k: Seq<char>|
                        0 <= s2 < si && #[trigger] emits_key(self.services@[s2], k) implies
                        mapper_keys_has(out@, k) by {
                        assert(mapper_keys_has(prev_out, k));
                    }
                    assert forall|mi: int|
                        0 <= mi < maps0.len() - rest@.len() implies mapper_keys_has(
                            out@,
                            (#[trigger] maps0[mi]).key@,
                        ) by {
                        if mi < done_n {
                            assert(mapper_keys_has(prev_out, maps0[mi].key@));
                        } else {
                            assert(maps0[mi].key@ == maps0[done_n].key@);
                        }
                    }
                }
            }
            proof {
                assert forall|s2: int, k: Seq<char>|
                    0 <= s2 < si + 1 && #[trigger] emits_key(self.services@[s2], k) implies
                    mapper_keys_has(out@, k) by {
                    if s2 == si {
                        if svc_g.versions@.len() == 0 {
                            assert(maps0.len() == 1);
                            assert(maps0[0].key@ == no_version_key(svc_g));
                            assert(mapper_keys_has(out@, maps0[0].key@));
                        } else {
                            let idx = choose|idx: int|
                                0 <= idx < emitted_from(svc_g, 0).len() && (
                                #[trigger] emitted_from(svc_g, 0)[idx]).0 == k;
                            assert(maps0[idx].key@ == k);
                            assert(mapper_keys_has(out@, maps0[idx].key@));
                        }
                    }
                }
            }
            si = si + 1;
        }
        out
    }
}


/// The key a version receives in the reference projection: the path of the
/// first context path whose version set is empty or lists it, else the bare
/// service name.  The enable flag plays no part here.
pub open spec fn ref_key_from(cps: Seq<Arc<ContextPath>>, v: Seq<char>, c: int) -> Option<Seq<char>>
    decreases cps.len() - c,
{
    if c < 0 || c >= cps.len() {
        None
    } else if (*cps[c]).versions@.len() == 0 || crate::models::version_in((*cps[c]).versions@, v) {
        Some((*cps[c]).path@)
    } else {
        ref_key_from(cps, v, c + 1)
    }
}

/// The reference-projection key of version `v` on service `s`.
pub open spec fn ref_key(s: Service, v: Seq<char>) -> Seq<char> {
    match ref_key_from(s.context_paths.paths@, v, 0) {
        Some(p) => p,
        None => s.name@,
    }
}

fn ref_key_exec(s: &Service, v: &str) -> (r: String)
    ensures
        r@ == ref_key(*s, v@),
{
    let cps = &s.context_paths.paths;
    let mut c: usize = 0;
    while c < cps.len()
        invariant
            cps == &s.context_paths.paths,
            0 <= c <= cps@.len(),
            ref_key_from(cps@, v@, 0) == ref_key_from(cps@, v@, c as int),
        decreases cps@.len() - c,
    {
        if cps[c].versions.len() == 0 || contains_version(&cps[c].versions, v) {
            return clone_string(&cps[c].path);
        }
        c = c + 1;
    }
    clone_string(&s.name)
}

impl Service {
    /// The reference mapper list: one mapper per declared version — or a
    /// single one for a service without versions — each holding a copy of
    /// the whole service, keyed by the first context path covering the
    /// version, or the first path, or the bare name.
    pub fn get_service_maps_ref(&self) -> (r: Vec<ServiceMapper>)
        ensures
            self.versions@.len() == 0 ==> r@.len() == 1 && r@[0].key@ == (
            if self.context_paths.paths@.len() > 0 {
                (*self.context_paths.paths@[0]).path@
            } else {
                self.name@
            }) && is_plain_copy(r@[0].value, *self),
            self.versions@.len() > 0 ==> r@.len() == self.versions@.len() && forall|i: int|
                0 <= i < r@.len() ==> (#[trigger] r@[i]).key@ == ref_key(
                    *self,
                    all_version_ids(*self)[i],
                ) && is_plain_copy(r@[i].value, *self),
    {
        let mut out: Vec<ServiceMapper> = Vec::new();
        if self.versions.len() == 0 {
            let key = if self.context_paths.paths.len() > 0 {
                clone_string(&self.context_paths.paths[0].path)
            } else {
                clone_string(&self.name)
            };
            out.push(ServiceMapper { key, value: copy_service_plain(self) });
            return out;
        }
        let all_ids = self.get_version_ids();
        proof {
            assert(str_views(all_ids@) =~= all_version_ids(*self));
        }
        let mut i: usize = 0;
        while i < all_ids.len()
            invariant
                str_views(all_ids@) == all_version_ids(*self),
                all_ids@.len() == self.versions@.len(),
                0 <= i <= all_ids@.len(),
                out@.len() == i,
                forall|j: int|
                    0 <= j < i ==> (#[trigger] out@[j]).key@ == ref_key(
                        *self,
                        all_version_ids(*self)[j],
                    ) && is_plain_copy(out@[j].value, *self),
            decreases all_ids@.len() - i,
        {
            proof {
                assert(str_views(all_ids@)[i as int] == all_ids@[i as int]@);
            }
            let key = ref_key_exec(self, all_ids[i].as_str());
            out.push(ServiceMapper { key, value: copy_service_plain(self) });
            i = i + 1;
        }
        out
    }
}

/// `m` is a mapper the reference projection of `s` emits.
pub open spec fn service_emits_ref(m: ServiceMapper, s: Service) -> bool {
    if s.versions@.len() == 0 {
        m.key@ == (if s.context_paths.paths@.len() > 0 {
            (*s.context_paths.paths@[0]).path@
        } else {
            s.name@
        }) && is_plain_copy(m.value, s)
    } else {
        exists|i: int|
            0 <= i < s.versions@.len() && m.key@ == ref_key(s, #[trigger] all_version_ids(s)[i])
                && is_plain_copy(m.value, s)
    }
}

/// `m` is a mapper the reference projection of some listed service emits.
pub open spec fn mapper_ok_ref(m: ServiceMapper, services: Seq<Service>) -> bool {
    exists|si: int| 0 <= si < services.len() && service_emits_ref(m, #[trigger] services[si])
}

impl crate::models::ServicesTemplate {
    /// The reference mapper list for the whole template, merged by key with
    /// the later binding replacing the earlier and each key bound once.
    pub fn get_services_map_vec_ref(&self) -> (r: Vec<ServiceMapper>)
        ensures
            forall|i1: int, i2: int|
                0 <= i1 < i2 < r@.len() ==> (#[trigger] r@[i1]).key@ != (#[trigger] r@[i2]).key@,
            forall|i: int| 0 <= i < r@.len() ==> mapper_ok_ref(#[trigger] r@[i], self.services@),
    {
        let mut out: Vec<ServiceMapper> = Vec::new();
        let mut si: usize = 0;
        while si < self.services.len()
            invariant
                0 <= si <= self.services@.len(),
                forall|i1: int, i2: int|
                    0 <= i1 < i2 < out@.len() ==> (#[trigger] out@[i1]).key@ != (
                    #[trigger] out@[i2]).key@,
                forall|i: int|
                    0 <= i < out@.len() ==> mapper_ok_ref(#[trigger] out@[i], self.services@),
            decreases self.services@.len() - si,
        {
            let svc = &self.services[si];
            let maps = svc.get_service_maps_ref();
            let ghost maps0 = maps@;
            let ghost svc_g = self.services@[si as int];
            let mut rest = maps;
            while rest.len() > 0
                invariant
                    0 <= si < self.services@.len(),
                    svc_g == self.services@[si as int],
                    rest@.len() <= maps0.len(),
                    rest@ =~= maps0.subrange(maps0.len() - rest@.len(), maps0.len() as int),
                    forall|mi: int|
                        0 <= mi < maps0.len() ==> service_emits_ref(#[trigger] maps0[mi], svc_g),
                    forall|i1: int, i2: int|
                        0 <= i1 < i2 < out@.len() ==> (#[trigger] out@[i1]).key@ != (
                        #[trigger] out@[i2]).key@,
                    forall|i: int|
                        0 <= i < out@.len() ==> mapper_ok_ref(#[trigger] out@[i], self.services@),
                decreases rest@.len(),
            {
                let ghost pre = rest@;
                let ghost done_n = maps0.len() - pre.len();
                let m = rest.remove(0);
                proof {
                    assert(pre.drop_first() =~= rest@);
                    assert(m == maps0[done_n]);
                }
                let ghost prev_out = out@;
                upsert_mapper(&mut out, m);
                proof {
                    assert forall|i: int|
                        0 <= i < out@.len() implies mapper_ok_ref(
                        #[trigger] out@[i],
                        self.services@,
                    ) by {
                        if out@[i] == maps0[done_n] {
                            assert(service_emits_ref(out@[i], svc_g));
                        } else {
                            let j = choose|j: int|
                                0 <= j < prev_out.len() && out@[i] == (#[trigger] prev_out[j]);
                            assert(mapper_ok_ref(prev_out[j], self.services@));
                        }
                    }
                }
            }
            si = si + 1;
        }
        out
    }
}

} // verus!
