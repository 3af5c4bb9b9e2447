//! The routing tables: a prefix table mapping normalized context-path keys
//! to shared service references, with an ordered fallback list for services
//! without enabled context paths, and a per-service route table.  A request
//! path is answered by the service with the longest matching key; the
//! remainder of the path is handed back as the service-relative route path.

use std::sync::Arc;
use vstd::prelude::*;

use crate::models::{share, Route, Service, ServiceMapper};
use crate::paths::{match_remainder, normalize_context_path, normalized, prefix_matches};

verus! {

/// Whether the route is enabled.
pub open spec fn route_enabled(r: Arc<Route>) -> bool {
    (*r).enabled
}

/// The predicate selecting enabled routes.
pub open spec fn enabled_route_pred() -> spec_fn(Arc<Route>) -> bool {
    |rt: Arc<Route>| route_enabled(rt)
}

/// The per-service route table: the enabled routes, keyed by their configured
/// path, first insertion winning.
#[derive(Debug)]
pub struct RouteTable {
    pub entries: Vec<Arc<Route>>,
}

impl RouteTable {
    /// An empty route table.
    pub fn new() -> (r: RouteTable)
        ensures
            r.entries@ == Seq::<Arc<Route>>::empty(),
    {
        let r = RouteTable { entries: Vec::new() };
        proof {
            assert(r.entries@ =~= Seq::<Arc<Route>>::empty());
        }
        r
    }

    /// `add_route`: an enabled route is appended; a disabled one is not
    /// inserted.
    pub fn add_route(&mut self, route: Arc<Route>)
        ensures
            route_enabled(route) ==> final(self).entries@ == old(self).entries@.push(route),
            !route_enabled(route) ==> final(self).entries@ == old(self).entries@,
    {
        if route.enabled {
            self.entries.push(route);
        }
    }

    /// `find_route`: the first route whose configured path equals the
    /// remaining request path, or `None`.
    pub fn find_route(&self, path: &str) -> (r: Option<Arc<Route>>)
        ensures
            match r {
                Some(rt) => exists|i: int|
                    0 <= i < self.entries@.len() && rt == self.entries@[i] && (
                    #[trigger] self.entries@[i]).config.path@ == path@ && forall|j: int|
                        0 <= j < i ==> (*(#[trigger] self.entries@[j])).config.path@ != path@,
                None => forall|i: int|
                    0 <= i < self.entries@.len() ==> (*(#[trigger] self.entries@[i])).config.path@
                        != path@,
            },
    {
        let mut i: usize = 0;
        while i < self.entries.len()
            invariant
                0 <= i <= self.entries@.len(),
                forall|j: int|
                    0 <= j < i ==> (*(#[trigger] self.entries@[j])).config.path@ != path@,
            decreases self.entries@.len() - i,
        {
            if crate::kv::str_eq(self.entries[i].config.path.as_str(), path) {
                return Some(share(&self.entries[i]));
            }
            i = i + 1;
        }
        None
    }

    /// `remove_route`: the first route with the given path leaves the table
    /// and is returned.
    pub fn remove_route(&mut self, path: &str) -> (r: Option<Arc<Route>>)
        ensures
            match r {
                Some(rt) => exists|i: int|
                    0 <= i < old(self).entries@.len() && rt == old(self).entries@[i] && (
                    #[trigger] old(self).entries@[i]).config.path@ == path@ && final(self).entries@
                        == old(self).entries@.remove(i) && forall|j: int|
                        0 <= j < i ==> (*(#[trigger] old(self).entries@[j])).config.path@ != path@,
                None => final(self).entries@ == old(self).entries@ && forall|i: int|
                    0 <= i < old(self).entries@.len() ==> (
                    #[trigger] old(self).entries@[i]).config.path@ != path@,
            },
    {
        let mut i: usize = 0;
        while i < self.entries.len()
            invariant
                self.entries@ == old(self).entries@,
                0 <= i <= self.entries@.len(),
                forall|j: int|
                    0 <= j < i ==> (*(#[trigger] self.entries@[j])).config.path@ != path@,
            decreases self.entries@.len() - i,
        {
            if crate::kv::str_eq(self.entries[i].config.path.as_str(), path) {
                let rt = self.entries.remove(i);
                return Some(rt);
            }
            i = i + 1;
        }
        None
    }

    /// The compiled table for a route list: exactly its enabled routes, in
    /// order.
    pub fn build(routes: &Vec<Arc<Route>>) -> (r: RouteTable)
        ensures
            r.entries@ == routes@.filter(enabled_route_pred()),
    {
        broadcast use Seq::<_>::lemma_filter_push;

        let mut table = RouteTable::new();
        let mut i: usize = 0;
        while i < routes.len()
            invariant
                0 <= i <= routes@.len(),
                table.entries@ == routes@.subrange(0, i as int).filter(enabled_route_pred()),
            decreases routes@.len() - i,
        {
            let ghost prefix = routes@.subrange(0, i as int);
            proof {
                assert(routes@.subrange(0, i + 1) =~= prefix.push(routes@[i as int]));
                prefix.lemma_filter_push(routes@[i as int], enabled_route_pred());
            }
            table.add_route(share(&routes[i]));
            i = i + 1;
        }
        proof {
            assert(routes@.subrange(0, routes@.len() as int) =~= routes@);
        }
        table
    }
}

impl Service {
    /// `remove_router`: take one route's path out of this service's compiled
    /// table — the first entry bound to it leaves, or nothing changes when
    /// none is; the route list itself stays.
    pub fn remove_router(&mut self, route: &Route)
        ensures
            *final(self) == (Service { router: final(self).router, ..*old(self) }),
            (route_path_unbound(old(self).router.entries@, route.config.path@))
                ==> final(self).router.entries@ == old(self).router.entries@,
            (!route_path_unbound(old(self).router.entries@, route.config.path@)) ==> exists|i: int|
                0 <= i < old(self).router.entries@.len()
                    && (*(#[trigger] old(self).router.entries@[i])).config.path@
                    == route.config.path@ && final(self).router.entries@ == old(
                    self,
                ).router.entries@.remove(i) && (forall|j: int|
                    0 <= j < i ==> (*(#[trigger] old(self).router.entries@[j])).config.path@
                        != route.config.path@),
    {
        let _ = self.router.remove_route(route.config.path.as_str());
    }

    /// `build_router`: recompile this service's route table from its routes;
    /// only enabled routes are inserted, and nothing else changes.
    pub fn build_router(&mut self)
        ensures
            final(self).router.entries@ == old(self).routes@.filter(enabled_route_pred()),
            *final(self) == (Service { router: final(self).router, ..*old(self) }),
    {
        self.router = RouteTable::build(&self.routes);
    }
}

/// No entry of the table is keyed by this path.
pub open spec fn route_path_unbound(entries: Seq<Arc<Route>>, path: Seq<char>) -> bool {
    forall|i: int| 0 <= i < entries.len() ==> (*(#[trigger] entries[i])).config.path@ != path
}

/// The abstract content of the service table: normalized keys with the
/// service each is bound to.
pub open spec fn sr_model(entries: Seq<(String, Arc<Service>)>) -> Seq<(Seq<char>, Service)> {
    entries.map_values(|p: (String, Arc<Service>)| (p.0@, *p.1))
}

/// `k` occurs among the keys of the model.
pub open spec fn model_has_key(model: Seq<(Seq<char>, Service)>, k: Seq<char>) -> bool {
    exists|i: int| 0 <= i < model.len() && (#[trigger] model[i]).0 == k
}

/// Entry `i` matches the request path.
pub open spec fn matches_at(model: Seq<(Seq<char>, Service)>, path: Seq<char>, i: int) -> bool {
    prefix_matches(model[i].0, path)
}

/// Entry `i` matches the request path and no matching entry has a longer key:
/// the longest prefix wins.
pub open spec fn is_best_match(model: Seq<(Seq<char>, Service)>, path: Seq<char>, i: int) -> bool {
    &&& 0 <= i < model.len()
    &&& matches_at(model, path, i)
    &&& forall|j: int|
        0 <= j < model.len() && matches_at(model, path, j) ==> (#[trigger] model[j]).0.len()
            <= model[i].0.len()
}

/// One step of feeding mappers to the router: a mapper with enabled context
/// paths binds its normalized key unless that key is already bound (the first
/// binding wins); one without goes to the ordered fallback list.
pub open spec fn apply_mappers(
    model: Seq<(Seq<char>, Service)>,
    defaults: Seq<Service>,
    maps: Seq<ServiceMapper>,
) -> (Seq<(Seq<char>, Service)>, Seq<Service>)
    decreases maps.len(),
{
    if maps.len() == 0 {
        (model, defaults)
    } else {
        let m = maps[0];
        if m.value.context_paths.enable {
            let key = normalized(m.key@);
            if model_has_key(model, key) {
                apply_mappers(model, defaults, maps.drop_first())
            } else {
                apply_mappers(model.push((key, m.value)), defaults, maps.drop_first())
            }
        } else {
            apply_mappers(model, defaults.push(m.value), maps.drop_first())
        }
    }
}

/// One step of updating the router in place: a mapper with enabled context
/// paths binds its normalized key unless that key is already bound; one
/// without is skipped.
pub open spec fn apply_updates(
    model: Seq<(Seq<char>, Service)>,
    maps: Seq<ServiceMapper>,
) -> Seq<(Seq<char>, Service)>
    decreases maps.len(),
{
    if maps.len() == 0 {
        model
    } else {
        let m = maps[0];
        if m.value.context_paths.enable {
            let key = normalized(m.key@);
            if model_has_key(model, key) {
                apply_updates(model, maps.drop_first())
            } else {
                apply_updates(model.push((key, m.value)), maps.drop_first())
            }
        } else {
            apply_updates(model, maps.drop_first())
        }
    }
}

/// The service router: the prefix table and the fallback list.
#[derive(Debug)]
pub struct ServiceRouter {
    pub entries: Vec<(String, Arc<Service>)>,
    pub default_services: Vec<Arc<Service>>,
}

impl ServiceRouter {
    /// The abstract prefix table.
    pub open spec fn model(self) -> Seq<(Seq<char>, Service)> {
        sr_model(self.entries@)
    }

    /// The abstract fallback list.
    pub open spec fn defaults_model(self) -> Seq<Service> {
        self.default_services@.map_values(|s: Arc<Service>| *s)
    }

    /// An empty router.
    pub fn new() -> (r: ServiceRouter)
        ensures
            r.model() == Seq::<(Seq<char>, Service)>::empty(),
            r.defaults_model() == Seq::<Service>::empty(),
    {
        let r = ServiceRouter { entries: Vec::new(), default_services: Vec::new() };
        proof {
            assert(r.model() =~= Seq::<(Seq<char>, Service)>::empty());
            assert(r.defaults_model() =~= Seq::<Service>::empty());
        }
        r
    }

    fn has_key(&self, key: &str) -> (r: bool)
        ensures
            r == model_has_key(self.model(), key@),
    {
        let mut i: usize = 0;
        while i < self.entries.len()
            invariant
                0 <= i <= self.entries@.len(),
                forall|j: int| 0 <= j < i ==> (#[trigger] self.model()[j]).0 != key@,
            decreases self.entries@.len() - i,
        {
            if crate::kv::str_eq(self.entries[i].0.as_str(), key) {
                proof {
                    assert(self.model()[i as int].0 == key@);
                }
                return true;
            }
            i = i + 1;
        }
        false
    }

    /// `add_service_mapper`: feed a mapper list to the router, in order; each
    /// mapper with enabled context paths binds its normalized key unless the
    /// key is already bound, and every other mapper joins the fallback list.
    pub fn add_service_mapper(&mut self, servicemaps: Vec<ServiceMapper>)
        ensures
            (final(self).model(), final(self).defaults_model()) == apply_mappers(
                old(self).model(),
                old(self).defaults_model(),
                servicemaps@,
            ),
    {
        let ghost orig = servicemaps@;
        let ghost goal = apply_mappers(old(self).model(), old(self).defaults_model(), orig);
        let mut rest = servicemaps;
        while rest.len() > 0
            invariant
                goal == apply_mappers(self.model(), self.defaults_model(), rest@),
            decreases rest@.len(),
        {
            let ghost pre = rest@;
            let m = rest.remove(0);
            proof {
                assert(pre.drop_first() =~= rest@);
            }
            if m.value.context_paths.enable {
                let key = normalize_context_path(m.key.as_str());
                if self.has_key(key.as_str()) {
                } else {
                    let ghost old_model = self.model();
                    self.entries.push((key, Arc::new(m.value)));
                    proof {
                        assert(self.model() =~= old_model.push(
                            (normalized(pre[0].key@), pre[0].value),
                        ));
                    }
                }
            } else {
                let ghost old_defaults = self.defaults_model();
                self.default_services.push(Arc::new(m.value));
                proof {
                    assert(self.defaults_model() =~= old_defaults.push(pre[0].value));
                }
            }
        }
    }

    /// `update_service_mappers`: feed a mapper list to the router in place;
    /// mappers with enabled context paths bind fresh normalized keys, the
    /// rest are skipped, and the fallback list stays.
    pub fn update_service_mappers(&mut self, servicemaps: Vec<ServiceMapper>)
        ensures
            final(self).model() == apply_updates(old(self).model(), servicemaps@),
            final(self).defaults_model() == old(self).defaults_model(),
    {
        let ghost orig = servicemaps@;
        let ghost goal = apply_updates(old(self).model(), orig);
        let mut rest = servicemaps;
        while rest.len() > 0
            invariant
                goal == apply_updates(self.model(), rest@),
                self.defaults_model() == old(self).defaults_model(),
            decreases rest@.len(),
        {
            let ghost pre = rest@;
            let m = rest.remove(0);
            proof {
                assert(pre.drop_first() =~= rest@);
            }
            if m.value.context_paths.enable {
                let key = normalize_context_path(m.key.as_str());
                if self.has_key(key.as_str()) {
                } else {
                    let ghost old_model = self.model();
                    self.entries.push((key, Arc::new(m.value)));
                    proof {
                        assert(self.model() =~= old_model.push(
                            (normalized(pre[0].key@), pre[0].value),
                        ));
                        assert(self.defaults_model() =~= old(self).defaults_model());
                    }
                }
            }
        }
    }

    /// `find_service`: the service bound to the longest key the request path
    /// falls under, with the remaining route path; when no key matches, the
    /// first fallback service with an empty remainder; otherwise nothing.
    pub fn find_service(&self, path: &str) -> (r: Option<(Arc<Service>, String)>)
        ensures
            (exists|i: int| 0 <= i < self.model().len() && matches_at(self.model(), path@, i))
                ==> (r matches Some((svc, rem)) && exists|i: int|
                is_best_match(self.model(), path@, i) && *svc == (#[trigger] self.model()[i]).1
                    && rem@ == match_remainder(self.model()[i].0, path@)),
            (!(exists|i: int| 0 <= i < self.model().len() && matches_at(self.model(), path@, i))
                && self.defaults_model().len() > 0) ==> (r matches Some((svc, rem)) && *svc
                == self.defaults_model()[0] && rem@ == Seq::<char>::empty()),
            (!(exists|i: int| 0 <= i < self.model().len() && matches_at(self.model(), path@, i))
                && self.defaults_model().len() == 0) ==> r is None,
    {
        let path_len = path.unicode_len();
        let mut best: Option<usize> = None;
        let mut i: usize = 0;
        while i < self.entries.len()
            invariant
                path_len == path@.len(),
                0 <= i <= self.entries@.len(),
                match best {
                    None => forall|j: int| 0 <= j < i ==> !matches_at(self.model(), path@, j),
                    Some(b) => {
                        &&& 0 <= b < i <= self.model().len()
                        &&& matches_at(self.model(), path@, b as int)
                        &&& forall|j: int|
                            0 <= j < i && matches_at(self.model(), path@, j) ==> (
                            #[trigger] self.model()[j]).0.len() <= self.model()[b as int].0.len()
                    },
                },
            decreases self.entries@.len() - i,
        {
            let k = &self.entries[i].0;
            let klen = k.as_str().unicode_len();
            let matched = path_len > klen && crate::patterns::starts_with_str(path, k.as_str())
                && path.get_char(klen) == '/';
            proof {
                assert(matched == matches_at(self.model(), path@, i as int));
            }
            if matched {
                let take = match best {
                    None => true,
                    Some(b) => klen > self.entries[b].0.as_str().unicode_len(),
                };
                if take {
                    best = Some(i);
                }
            }
            i = i + 1;
        }
        match best {
            Some(b) => {
                let klen = self.entries[b].0.as_str().unicode_len();
                let rem = path.substring_char(klen, path_len).to_owned();
                Some((share(&self.entries[b].1), rem))
            },
            None => {
                if self.default_services.len() > 0 {
                    let rem = String::new();
                    Some((share(&self.default_services[0]), rem))
                } else {
                    None
                }
            },
        }
    }

    /// `remove_service`: the entry bound to exactly this key leaves the
    /// table and its service is returned.
    pub fn remove_service(&mut self, path: &str) -> (r: Option<Arc<Service>>)
        ensures
            match r {
                Some(svc) => exists|i: int|
                    0 <= i < old(self).model().len()
                        && *svc == (#[trigger] old(self).model()[i]).1
                        && old(self).model()[i].0 == path@
                        && final(self).model() == old(self).model().remove(i),
                None => final(self).model() == old(self).model() && !model_has_key(
                    old(self).model(),
                    path@,
                ),
            },
            final(self).defaults_model() == old(self).defaults_model(),
    {
        let mut i: usize = 0;
        while i < self.entries.len()
            invariant
                self.entries@ == old(self).entries@,
                self.default_services@ == old(self).default_services@,
                0 <= i <= self.entries@.len(),
                forall|j: int| 0 <= j < i ==> (#[trigger] self.model()[j]).0 != path@,
            decreases self.entries@.len() - i,
        {
            if crate::kv::str_eq(self.entries[i].0.as_str(), path) {
                let ghost old_e = self.entries@;
                let (_k, svc) = self.entries.remove(i);
                proof {
                    assert(self.model() =~= sr_model(old_e).remove(i as int));
                    assert(sr_model(old_e) == old(self).model());
                    assert((old(self).model()[i as int]).0 == path@);
                    assert((old(self).model()[i as int]).1 == *svc);
                }
                return Some(svc);
            }
            i = i + 1;
        }
        None
    }
}


/// Feeding mappers binds exactly the normalized keys of the enabled
/// mappers, beyond whatever was bound before.
pub proof fn lemma_apply_mappers_keys(
    model: Seq<(Seq<char>, Service)>,
    defaults: Seq<Service>,
    maps: Seq<ServiceMapper>,
    k: Seq<char>,
)
    ensures
        model_has_key(apply_mappers(model, defaults, maps).0, k) <==> (model_has_key(model, k)
            || exists|j: int|
            0 <= j < maps.len() && (#[trigger] maps[j]).value.context_paths.enable && normalized(
                maps[j].key@,
            ) == k),
    decreases maps.len(),
{
    if maps.len() == 0 {
    } else {
        let m = maps[0];
        let rest = maps.drop_first();
        if m.value.context_paths.enable {
            let key0 = normalized(m.key@);
            if model_has_key(model, key0) {
                lemma_apply_mappers_keys(model, defaults, rest, k);
            } else {
                let model2 = model.push((key0, m.value));
                lemma_apply_mappers_keys(model2, defaults, rest, k);
                if model_has_key(model2, k) {
                    let i = choose|i: int| 0 <= i < model2.len() && (#[trigger] model2[i]).0 == k;
                    if i < model.len() {
                        assert(model[i].0 == k);
                    }
                }
                if model_has_key(model, k) {
                    let i = choose|i: int| 0 <= i < model.len() && (#[trigger] model[i]).0 == k;
                    assert(model2[i].0 == k);
                }
                if k == key0 {
                    assert(model2[model.len() as int].0 == k);
                }
            }
        } else {
            lemma_apply_mappers_keys(model, defaults.push(m.value), rest, k);
        }
        if exists|j: int|
            0 <= j < maps.len() && (#[trigger] maps[j]).value.context_paths.enable && normalized(
                maps[j].key@,
            ) == k {
            let j = choose|j: int|
                0 <= j < maps.len() && (#[trigger] maps[j]).value.context_paths.enable
                    && normalized(maps[j].key@) == k;
            if j > 0 {
                assert(rest[j - 1] == maps[j]);
            }
        }
        if exists|j: int|
            0 <= j < rest.len() && (#[trigger] rest[j]).value.context_paths.enable && normalized(
                rest[j].key@,
            ) == k {
            let j = choose|j: int|
                0 <= j < rest.len() && (#[trigger] rest[j]).value.context_paths.enable
                    && normalized(rest[j].key@) == k;
            assert(maps[j + 1] == rest[j]);
        }
    }
}

#[verifier::rlimit(60)]
proof fn lemma_argmax_match(model: Seq<(Seq<char>, Service)>, path: Seq<char>, n: int)
    requires
        0 < n <= model.len(),
        exists|i: int| 0 <= i < n && matches_at(model, path, i),
    ensures
        exists|i: int|
            0 <= i < n && #[trigger] matches_at(model, path, i) && (forall|j: int|
                0 <= j < n && matches_at(model, path, j) ==> (#[trigger] model[j]).0.len()
                    <= model[i].0.len()),
    decreases n,
{
    if n == 1 {
        assert(matches_at(model, path, 0));
    } else {
        if matches_at(model, path, n - 1) {
            if exists|i: int| 0 <= i < n - 1 && matches_at(model, path, i) {
                lemma_argmax_match(model, path, n - 1);
                let b = choose|i: int|
                    0 <= i < n - 1 && #[trigger] matches_at(model, path, i) && (forall|j: int|
                        0 <= j < n - 1 && matches_at(model, path, j) ==> (
                        #[trigger] model[j]).0.len() <= model[i].0.len());
                if model[n - 1].0.len() > model[b].0.len() {
                    assert(matches_at(model, path, n - 1) && (forall|j: int|
                        0 <= j < n && matches_at(model, path, j) ==> (#[trigger] model[j]).0.len()
                            <= model[n - 1].0.len()));
                } else {
                    assert(matches_at(model, path, b) && (forall|j: int|
                        0 <= j < n && matches_at(model, path, j) ==> (#[trigger] model[j]).0.len()
                            <= model[b].0.len()));
                }
            } else {
                assert(matches_at(model, path, n - 1) && (forall|j: int|
                    0 <= j < n && matches_at(model, path, j) ==> (#[trigger] model[j]).0.len()
                        <= model[n - 1].0.len()));
            }
        } else {
            lemma_argmax_match(model, path, n - 1);
            let b = choose|i: int|
                0 <= i < n - 1 && #[trigger] matches_at(model, path, i) && (forall|j: int|
                    0 <= j < n - 1 && matches_at(model, path, j) ==> (#[trigger] model[j]).0.len()
                        <= model[i].0.len());
            assert(matches_at(model, path, b) && (forall|j: int|
                0 <= j < n && matches_at(model, path, j) ==> (#[trigger] model[j]).0.len()
                    <= model[b].0.len()));
        }
    }
}

/// Among the entries matching a path, one is a longest match.
pub proof fn lemma_best_match_exists(model: Seq<(Seq<char>, Service)>, path: Seq<char>)
    requires
        exists|i: int| 0 <= i < model.len() && matches_at(model, path, i),
    ensures
        exists|i: int| #[trigger] is_best_match(model, path, i),
{
    lemma_argmax_match(model, path, model.len() as int);
    let b = choose|i: int|
        0 <= i < model.len() && #[trigger] matches_at(model, path, i) && (forall|j: int|
            0 <= j < model.len() && matches_at(model, path, j) ==> (#[trigger] model[j]).0.len()
                <= model[i].0.len());
    assert(is_best_match(model, path, b));
}

/// The end-to-end routing invariant: in a router freshly fed a mapper list,
/// every request path that falls under the normalized context-path key of
/// any enabled mapper is matched — some entry is a longest match, unique
/// when keys are distinct, so `find_service` answers such a path with the
/// service bound to the longest matching key and the path's remainder.
pub proof fn lemma_router_serves_mapped_paths(maps: Seq<ServiceMapper>, j: int, path: Seq<char>)
    requires
        0 <= j < maps.len(),
        maps[j].value.context_paths.enable,
        prefix_matches(normalized(maps[j].key@), path),
    ensures
        exists|i: int|
            #[trigger] is_best_match(
                apply_mappers(
                    Seq::<(Seq<char>, Service)>::empty(),
                    Seq::<Service>::empty(),
                    maps,
                ).0,
                path,
                i,
            ),
{
    let model = apply_mappers(
        Seq::<(Seq<char>, Service)>::empty(),
        Seq::<Service>::empty(),
        maps,
    ).0;
    let k = normalized(maps[j].key@);
    lemma_apply_mappers_keys(
        Seq::<(Seq<char>, Service)>::empty(),
        Seq::<Service>::empty(),
        maps,
        k,
    );
    assert(model_has_key(model, k));
    let i0 = choose|i: int| 0 <= i < model.len() && (#[trigger] model[i]).0 == k;
    assert(matches_at(model, path, i0));
    lemma_best_match_exists(model, path);
}

/// The longest matching key is unique when keys are distinct: any two best

/// matches for one path are the same entry, so at most one service wins per
/// concrete path.
pub proof fn lemma_best_match_unique(
    model: Seq<(Seq<char>, Service)>,
    path: Seq<char>,
    i: int,
    j: int,
)
    requires
        forall|p: int, q: int|
            0 <= p < q < model.len() ==> (#[trigger] model[p]).0 != (#[trigger] model[q]).0,
        is_best_match(model, path, i),
        is_best_match(model, path, j),
    ensures
        i == j,
{
    assert(model[i].0.len() <= model[j].0.len());
    assert(model[j].0.len() <= model[i].0.len());
    assert(model[i].0 =~= path.subrange(0, model[i].0.len() as int));
    assert(model[j].0 =~= path.subrange(0, model[j].0.len() as int));
    assert(model[i].0 == model[j].0);
    if i < j {
        assert((model[i]).0 != (model[j]).0);
    } else if j < i {
        assert((model[j]).0 != (model[i]).0);
    }
}

} // verus!
