//! The resolved dependency graph of a lockfile.

use crate::config;
use crate::text;
use crate::text_map;
use crate::text_map::TextMap;
use vstd::prelude::*;

verus! {

/// The kind of a direct dependency.
#[derive(Debug, Clone, Copy, PartialEq, Eq, Structural)]
pub enum DepType {
    Production,
    Dev,
    Optional,
}

/// A direct dependency of an importer.
#[derive(Debug)]
pub struct DirectDep {
    /// The key of the package in the graph.
    pub dep_path: String,
    pub dep_type: DepType,
}

/// A package of the graph.
#[derive(Debug)]
pub struct LockedPackage {
    /// The version of each dependency, by name.
    pub dependencies: TextMap<String>,
}

/// The graph of a lockfile.
#[derive(Debug)]
pub struct LockfileGraph {
    /// The direct dependencies of each importer; the project at the root is `.`.
    pub importers: TextMap<Vec<DirectDep>>,
    /// The packages by their keys.
    pub packages: TextMap<LockedPackage>,
}

/// Which direct dependencies a command is about.
#[derive(Debug, Clone, Copy, PartialEq, Eq, Structural)]
pub enum DepFilter {
    /// All of them.
    All,
    /// `--prod`: production and optional ones.
    ProdOnly,
    /// `--dev`: development ones.
    DevOnly,
}

impl DepFilter {
    /// Whether a kind of dependency is kept.
    pub open spec fn admits(self, dep_type: DepType) -> bool {
        match self {
            DepFilter::All => true,
            DepFilter::ProdOnly => dep_type != DepType::Dev,
            DepFilter::DevOnly => dep_type == DepType::Dev,
        }
    }

    /// The filter for the flags `--prod` and `--dev`; the first one counts if both are set.
    pub fn from_flags(prod: bool, dev: bool) -> (r: DepFilter)
        ensures
            r == (if prod {
                DepFilter::ProdOnly
            } else if dev {
                DepFilter::DevOnly
            } else {
                DepFilter::All
            }),
    {
        match (prod, dev) {
            (true, _) => DepFilter::ProdOnly,
            (_, true) => DepFilter::DevOnly,
            _ => DepFilter::All,
        }
    }

    /// Whether a kind of dependency is kept.
    pub fn keeps(self, dep_type: DepType) -> (r: bool)
        ensures
            r == self.admits(dep_type),
    {
        match (self, dep_type) {
            (DepFilter::All, _) => true,
            (DepFilter::ProdOnly, DepType::Production) => true,
            (DepFilter::ProdOnly, DepType::Optional) => true,
            (DepFilter::DevOnly, DepType::Dev) => true,
            _ => false,
        }
    }
}

/// The direct dependencies of the project at the root.
pub open spec fn root_deps_of(g: LockfileGraph) -> Seq<DirectDep> {
    deps_of(g, "."@)
}

/// The direct dependencies of an importer.
pub open spec fn deps_of(g: LockfileGraph, importer: Seq<char>) -> Seq<DirectDep> {
    if g.importers@.contains_key(importer) {
        g.importers@[importer]@
    } else {
        Seq::empty()
    }
}

/// Whether a direct dependency counts.
pub open spec fn counts(d: DirectDep, filter: DepFilter, no_optional: bool) -> bool {
    filter.admits(d.dep_type) && !(no_optional && d.dep_type == DepType::Optional)
}

/// The keys of the direct dependencies of the root that count.
pub open spec fn starts_at_root(g: LockfileGraph, filter: DepFilter, no_optional: bool) -> Set<
    Seq<char>,
> {
    Set::new(
        |k: Seq<char>|
            exists|i: int|
                0 <= i < root_deps_of(g).len() && counts(
                    #[trigger] root_deps_of(g)[i],
                    filter,
                    no_optional,
                ) && root_deps_of(g)[i].dep_path@ == k,
    )
}

/// The keys that a list of direct dependencies names.
pub open spec fn dep_paths(deps: Seq<DirectDep>) -> Set<Seq<char>> {
    Set::new(
        |k: Seq<char>|
            exists|i: int| 0 <= i < deps.len() && (#[trigger] deps[i]).dep_path@ == k,
    )
}

/// The keys of the direct dependencies of all importers.
pub open spec fn starts_anywhere(g: LockfileGraph) -> Set<Seq<char>> {
    Set::new(
        |k: Seq<char>|
            exists|importer: Seq<char>| #[trigger] dep_paths(deps_of(g, importer)).contains(k),
    )
}

/// The key of a package with this name and version.
pub open spec fn package_key(name: Seq<char>, version: Seq<char>) -> Seq<char> {
    name + "@"@ + version
}

/// Whether the package under `from` depends on the one under `to`.
pub open spec fn depends(g: LockfileGraph, from: Seq<char>, to: Seq<char>) -> bool {
    &&& g.packages@.contains_key(from)
    &&& exists|name: Seq<char>| #[trigger]
        g.packages@[from].dependencies@.contains_key(name) && package_key(
            name,
            g.packages@[from].dependencies@[name]@,
        ) == to
}

/// Whether `path` leads from one of `starts` through packages of the graph.
pub open spec fn is_path(g: LockfileGraph, starts: Set<Seq<char>>, path: Seq<Seq<char>>) -> bool {
    &&& path.len() > 0
    &&& starts.contains(path[0])
    &&& forall|i: int| 0 <= i < path.len() ==> g.packages@.contains_key(#[trigger] path[i])
    &&& forall|i: int|
        0 <= i < path.len() - 1 ==> depends(g, #[trigger] path[i], path[i + 1])
}

/// Whether the package under `k` is reached from one of `starts`.
pub open spec fn reachable(g: LockfileGraph, starts: Set<Seq<char>>, k: Seq<char>) -> bool {
    exists|path: Seq<Seq<char>>| #[trigger] is_path(g, starts, path) && path.last() == k
}

/// The keys of the packages that are reached from one of `starts`.
pub open spec fn reached(g: LockfileGraph, starts: Set<Seq<char>>) -> Set<Seq<char>> {
    Set::new(|k: Seq<char>| reachable(g, starts, k))
}

impl LockfileGraph {
    /// The direct dependencies of the project at the root.
    pub fn root_deps(&self) -> (r: Option<&Vec<DirectDep>>)
        ensures
            match r {
                Some(v) => v@ == root_deps_of(*self),
                None => root_deps_of(*self).len() == 0,
            },
    {
        self.importers.get(".")
    }

    /// The package under a key.
    pub fn get_package(&self, dep_path: &str) -> (r: Option<&LockedPackage>)
        ensures
            match r {
                Some(p) => self.packages@.contains_key(dep_path@) && *p
                    == self.packages@[dep_path@],
                None => !self.packages@.contains_key(dep_path@),
            },
    {
        self.packages.get(dep_path)
    }

    /// Drops the packages that no importer reaches.
    pub fn prune(&mut self)
        ensures
            final(self).importers == old(self).importers,
            final(self).packages@ == old(self).packages@.restrict(
                reached(*old(self), starts_anywhere(*old(self))),
            ),
    {
        let starts = self.all_direct();
        let keys = reached_keys(self, starts);
        self.packages.retain_keys(&keys);
    }

    /// The keys of the direct dependencies of all importers.
    fn all_direct(&self) -> (r: Vec<String>)
        ensures
            text_map::text_set(r@) == starts_anywhere(*self),
    {
        let n = self.importers.len();
        let mut r: Vec<String> = Vec::new();
        let mut i: usize = 0;
        while i < n
            invariant
                n == self.importers.pairs().len(),
                text_map::ascending(self.importers.pairs()),
                i <= n,
                forall|k: Seq<char>| #[trigger]
                    text_map::text_set(r@).contains(k) <==> exists|x: int|
                        0 <= x < i && dep_paths((#[trigger] self.importers.pairs()[x]).1@).contains(
                            k,
                        ),
            decreases n - i,
        {
            let deps = self.importers.value_at(i);
            let ghost before = r@;
            push_dep_paths(&mut r, deps);
            proof {
                assert(dep_paths(self.importers.pairs()[i as int].1@) == dep_paths(deps@));
                assert forall|k: Seq<char>| #[trigger]
                    text_map::text_set(r@).contains(k) <==> exists|x: int|
                        0 <= x < i + 1 && dep_paths(
                            (#[trigger] self.importers.pairs()[x]).1@,
                        ).contains(k) by {
                    assert(text_map::text_set(before).contains(k) <==> exists|x: int|
                        0 <= x < i && dep_paths((#[trigger] self.importers.pairs()[x]).1@).contains(
                            k,
                        ));
                    if dep_paths(deps@).contains(k) {
                        assert(dep_paths(self.importers.pairs()[i as int].1@).contains(k));
                    }
                }
            }
            i = i + 1;
        }
        proof {
            let p = self.importers.pairs();
            assert forall|k: Seq<char>| #[trigger] text_map::text_set(r@).contains(k)
                == starts_anywhere(*self).contains(k) by {
                if text_map::text_set(r@).contains(k) {
                    let x = choose|x: int|
                        0 <= x < i && dep_paths((#[trigger] p[x]).1@).contains(k);
                    text_map::lemma_map_of_value(p, x);
                    assert(dep_paths(deps_of(*self, p[x].0)).contains(k));
                }
                if starts_anywhere(*self).contains(k) {
                    let importer = choose|importer: Seq<char>| #[trigger]
                        dep_paths(deps_of(*self, importer)).contains(k);
                    text_map::lemma_map_of_dom(p, importer);
                    let x = choose|x: int| 0 <= x < p.len() && #[trigger] p[x].0 == importer;
                    text_map::lemma_map_of_value(p, x);
                    assert(dep_paths(p[x].1@).contains(k));
                }
            }
            assert(text_map::text_set(r@) =~= starts_anywhere(*self));
        }
        r
    }

    /// The part of the graph that belongs to one importer, as a graph of its own with that
    /// importer at the root: its direct dependencies, and the packages that they reach.
    pub fn subset_to_importer(&self, importer: &str) -> (r: Option<LockfileGraph>)
        ensures
            r is Some <==> self.importers@.contains_key(importer@),
            r matches Some(g) ==> {
                &&& g.importers@.dom() == set!["."@]
                &&& dep_views(g.importers@["."@]@) == dep_views(self.importers@[importer@]@)
                &&& g.packages@.dom() == reached(*self, dep_paths(self.importers@[importer@]@))
                &&& forall|k: Seq<char>| #[trigger]
                    g.packages@.contains_key(k) ==> config::text_values(
                        g.packages@[k].dependencies@,
                    ) == config::text_values(self.packages@[k].dependencies@)
            },
    {
        let deps = match self.importers.get(importer) {
            Some(deps) => deps,
            None => {
                return None;
            },
        };
        let mut starts: Vec<String> = Vec::new();
        push_dep_paths(&mut starts, deps);
        assert(text_map::text_set(starts@) =~= dep_paths(deps@));
        let keys = reached_keys(self, starts);
        let mut packages: TextMap<LockedPackage> = TextMap::new();
        let mut i: usize = 0;
        while i < keys.len()
            invariant
                i <= keys@.len(),
                text_map::text_set(keys@) == reached(*self, dep_paths(deps@)),
                packages@.dom() =~= text_map::text_set(keys@.take(i as int)),
                forall|k: Seq<char>| #[trigger]
                    packages@.contains_key(k) ==> config::text_values(packages@[k].dependencies@)
                        == config::text_values(self.packages@[k].dependencies@),
            decreases keys.len() - i,
        {
            let key = keys[i].clone();
            proof {
                assert(text_map::text_set(keys@).contains(key@));
                let path = choose|path: Seq<Seq<char>>| #[trigger]
                    is_path(*self, dep_paths(deps@), path) && path.last() == key@;
                assert(self.packages@.contains_key(path[path.len() - 1]));
                text_map::lemma_text_set_push(keys@, i as int);
            }
            if let Some(pkg) = self.get_package(key.as_str()) {
                let copy = copy_package(pkg);
                packages.insert(key, copy);
            }
            i = i + 1;
        }
        proof {
            assert(keys@.take(i as int) == keys@);
        }
        let mut importers: TextMap<Vec<DirectDep>> = TextMap::new();
        importers.insert(".".to_owned(), copy_deps(deps));
        assert(importers@.dom() =~= set!["."@]);
        Some(LockfileGraph { importers, packages })
    }
}

/// The contents of a list of direct dependencies.
pub open spec fn dep_views(deps: Seq<DirectDep>) -> Seq<(Seq<char>, DepType)> {
    Seq::new(deps.len(), |i: int| (deps[i].dep_path@, deps[i].dep_type))
}

fn copy_deps(deps: &Vec<DirectDep>) -> (r: Vec<DirectDep>)
    ensures
        dep_views(r@) == dep_views(deps@),
{
    let mut r: Vec<DirectDep> = Vec::new();
    let mut i: usize = 0;
    while i < deps.len()
        invariant
            i <= deps@.len(),
            r@.len() == i,
            forall|j: int|
                0 <= j < i ==> (#[trigger] r@[j]).dep_path@ == deps@[j].dep_path@ && r@[j].dep_type
                    == deps@[j].dep_type,
        decreases deps.len() - i,
    {
        r.push(DirectDep { dep_path: deps[i].dep_path.clone(), dep_type: deps[i].dep_type });
        i = i + 1;
    }
    assert(dep_views(r@) =~= dep_views(deps@));
    r
}

fn copy_package(pkg: &LockedPackage) -> (r: LockedPackage)
    ensures
        config::text_values(r.dependencies@) == config::text_values(pkg.dependencies@),
{
    let n = pkg.dependencies.len();
    let mut dependencies: TextMap<String> = TextMap::new();
    let mut i: usize = 0;
    let ghost p = pkg.dependencies.pairs();
    while i < n
        invariant
            n == p.len(),
            p == pkg.dependencies.pairs(),
            text_map::ascending(p),
            i <= n,
            forall|k: Seq<char>| #[trigger]
                dependencies@.contains_key(k) <==> exists|x: int|
                    0 <= x < i && #[trigger] p[x].0 == k,
            forall|x: int|
                0 <= x < i ==> dependencies@[(#[trigger] p[x]).0]@ == p[x].1@,
        decreases n - i,
    {
        let ghost before = dependencies@;
        let version = pkg.dependencies.value_at(i).clone();
        let name = pkg.dependencies.key_at(i).clone();
        dependencies.insert(name, version);
        proof {
            assert forall|k: Seq<char>| #[trigger]
                dependencies@.contains_key(k) <==> exists|x: int|
                    0 <= x < i + 1 && #[trigger] p[x].0 == k by {
                assert(before.contains_key(k) <==> exists|x: int|
                    0 <= x < i && #[trigger] p[x].0 == k);
                if k == name@ {
                    assert(p[i as int].0 == k);
                }
            }
            assert forall|x: int| 0 <= x < i + 1 implies dependencies@[(#[trigger] p[x]).0]@
                == p[x].1@ by {
                if x < i {
                    assert(text::text_less(p[x].0, p[i as int].0));
                    text::lemma_less_irreflexive(p[x].0);
                }
            }
        }
        i = i + 1;
    }
    proof {
        let a = config::text_values(dependencies@);
        let b = config::text_values(pkg.dependencies@);
        assert forall|k: Seq<char>| #[trigger] a.contains_key(k) == b.contains_key(k) by {
            text_map::lemma_map_of_dom(p, k);
        }
        assert forall|k: Seq<char>| #[trigger] a.contains_key(k) implies a[k] == b[k] by {
            let x = choose|x: int| 0 <= x < i && #[trigger] p[x].0 == k;
            text_map::lemma_map_of_value(p, x);
        }
        assert(a =~= b);
    }
    LockedPackage { dependencies }
}

fn push_dep_paths(r: &mut Vec<String>, deps: &Vec<DirectDep>)
    ensures
        forall|k: Seq<char>| #[trigger]
            text_map::text_set(final(r)@).contains(k) <==> text_map::text_set(old(r)@).contains(k)
                || dep_paths(deps@).contains(k),
{
    let ghost start = r@;
    let mut i: usize = 0;
    while i < deps.len()
        invariant
            i <= deps@.len(),
            r@.len() == start.len() + i,
            forall|j: int| 0 <= j < start.len() ==> #[trigger] r@[j] == start[j],
            forall|j: int|
                0 <= j < i ==> #[trigger] r@[start.len() + j]@ == deps@[j].dep_path@,
        decreases deps.len() - i,
    {
        r.push(deps[i].dep_path.clone());
        i = i + 1;
    }
    proof {
        assert forall|k: Seq<char>| #[trigger]
            text_map::text_set(r@).contains(k) <==> text_map::text_set(start).contains(k)
                || dep_paths(deps@).contains(k) by {
            if text_map::text_set(r@).contains(k) {
                let j = choose|j: int| 0 <= j < r@.len() && #[trigger] r@[j]@ == k;
                if j < start.len() {
                    assert(start[j]@ == k);
                } else {
                    assert(r@[start.len() + (j - start.len())]@ == k);
                    assert(deps@[j - start.len()].dep_path@ == k);
                }
            }
            if text_map::text_set(start).contains(k) {
                let j = choose|j: int| 0 <= j < start.len() && #[trigger] start[j]@ == k;
                assert(r@[j]@ == k);
            }
            if dep_paths(deps@).contains(k) {
                let j = choose|j: int|
                    0 <= j < deps@.len() && (#[trigger] deps@[j]).dep_path@ == k;
                assert(r@[start.len() + j]@ == k);
            }
        }
    }
}

proof fn lemma_start_reachable(g: LockfileGraph, starts: Set<Seq<char>>, k: Seq<char>)
    requires
        starts.contains(k),
        g.packages@.contains_key(k),
    ensures
        reachable(g, starts, k),
{
    let path = seq![k];
    assert(path[0] == k);
    assert(is_path(g, starts, path));
    assert(path.last() == k);
}

proof fn lemma_step_reachable(
    g: LockfileGraph,
    starts: Set<Seq<char>>,
    a: Seq<char>,
    b: Seq<char>,
)
    requires
        reachable(g, starts, a),
        depends(g, a, b),
        g.packages@.contains_key(b),
    ensures
        reachable(g, starts, b),
{
    let path = choose|path: Seq<Seq<char>>| #[trigger]
        is_path(g, starts, path) && path.last() == a;
    let longer = path.push(b);
    assert forall|i: int| 0 <= i < longer.len() implies g.packages@.contains_key(
        #[trigger] longer[i],
    ) by {
        if i < path.len() {
            assert(longer[i] == path[i]);
        }
    }
    assert forall|i: int| 0 <= i < longer.len() - 1 implies depends(
        g,
        #[trigger] longer[i],
        longer[i + 1],
    ) by {
        assert(longer[i] == path[i]);
        if i + 1 < path.len() {
            assert(longer[i + 1] == path[i + 1]);
            assert(depends(g, path[i], path[i + 1]));
        }
    }
    assert(longer[0] == path[0]);
    assert(is_path(g, starts, longer));
    assert(longer.last() == b);
}

/// Whether a set of keys holds every start and is closed under dependencies, as far as
/// packages of the graph are concerned.
spec fn is_closed(
    g: LockfileGraph,
    starts: Set<Seq<char>>,
    keys: Set<Seq<char>>,
) -> bool {
    &&& forall|k: Seq<char>| #[trigger]
        starts.contains(k) && g.packages@.contains_key(k) ==> keys.contains(k)
    &&& forall|a: Seq<char>, b: Seq<char>|
        keys.contains(a) && #[trigger] depends(g, a, b) && g.packages@.contains_key(b)
            ==> keys.contains(b)
}

proof fn lemma_closed_holds_reachable(
    g: LockfileGraph,
    starts: Set<Seq<char>>,
    keys: Set<Seq<char>>,
    path: Seq<Seq<char>>,
)
    requires
        is_closed(g, starts, keys),
        is_path(g, starts, path),
    ensures
        keys.contains(path.last()),
    decreases path.len(),
{
    if path.len() == 1 {
        assert(g.packages@.contains_key(path[0]));
    } else {
        let front = path.drop_last();
        assert forall|i: int| 0 <= i < front.len() implies g.packages@.contains_key(
            #[trigger] front[i],
        ) by {
            assert(front[i] == path[i]);
        }
        assert forall|i: int| 0 <= i < front.len() - 1 implies depends(
            g,
            #[trigger] front[i],
            front[i + 1],
        ) by {
            assert(front[i] == path[i] && front[i + 1] == path[i + 1]);
            assert(depends(g, path[i], path[i + 1]));
        }
        lemma_closed_holds_reachable(g, starts, keys, front);
        let i = path.len() - 2;
        assert(depends(g, path[i], path[i + 1]));
        assert(g.packages@.contains_key(path[path.len() - 1]));
    }
}

/// The packages that are reached from the keys in `stack`, by key.
fn close_over<'a>(graph: &'a LockfileGraph, stack: Vec<String>) -> (out: TextMap<&'a LockedPackage>)
    ensures
        forall|k: Seq<char>| #[trigger]
            out@.contains_key(k) <==> reachable(*graph, text_map::text_set(stack@), k),
        forall|k: Seq<char>| #[trigger]
            out@.contains_key(k) ==> graph.packages@.contains_key(k) && *out@[k]
                == graph.packages@[k],
{
    let ghost g = *graph;
    let ghost starts = text_map::text_set(stack@);
    let mut out: TextMap<&'a LockedPackage> = TextMap::new();
    let mut stack = stack;
    proof {
        assert forall|k: Seq<char>| #[trigger] starts.contains(k) implies pending(stack@, k) by {
            let j = choose|j: int| 0 <= j < stack@.len() && #[trigger] stack@[j]@ == k;
            assert(stack@[j]@ == k);
        }
        assert forall|j: int|
            0 <= j < stack@.len() && g.packages@.contains_key(
                #[trigger] stack@[j]@,
            ) implies reachable(g, starts, stack@[j]@) by {
            assert(starts.contains(stack@[j]@));
            lemma_start_reachable(g, starts, stack@[j]@);
        }
    }
    let total = graph.packages.len();
    let mut size = out.len();
    while stack.len() > 0
        invariant
            g == *graph,
            g.packages@.dom().finite(),
            total == g.packages@.dom().len(),
            out@.dom().finite(),
            size == out@.dom().len(),
            forall|j: int|
                0 <= j < stack@.len() && g.packages@.contains_key(#[trigger] stack@[j]@)
                    ==> reachable(g, starts, stack@[j]@),
            forall|k: Seq<char>| #[trigger]
                out@.contains_key(k) ==> g.packages@.contains_key(k) && *out@[k] == g.packages@[k]
                    && reachable(g, starts, k),
            forall|k: Seq<char>| #[trigger]
                starts.contains(k) && g.packages@.contains_key(k)
                    ==> out@.contains_key(k) || pending(stack@, k),
            forall|a: Seq<char>, b: Seq<char>|
                out@.contains_key(a) && #[trigger] depends(g, a, b) && g.packages@.contains_key(b)
                    ==> out@.contains_key(b) || pending(stack@, b),
        decreases total - size, stack.len(),
    {
        let ghost before = stack@;
        let ghost out_before = out@;
        let top = match stack.pop() {
            Some(top) => top,
            None => {
                return out;
            },
        };
        proof {
            assert(before == stack@.push(top));
            assert forall|k: Seq<char>| #[trigger] pending(before, k) implies k == top@ || pending(
                stack@,
                k,
            ) by {
                let j = choose|j: int| 0 <= j < before.len() && #[trigger] before[j]@ == k;
                if j < stack@.len() {
                    assert(stack@[j]@ == k);
                }
            }
            assert(before[stack@.len() as int]@ == top@);
            vstd::set_lib::lemma_len_subset(out@.dom(), g.packages@.dom());
        }
        if out.contains_key(top.as_str()) {
            continue ;
        }
        let pkg = match graph.get_package(top.as_str()) {
            Some(pkg) => pkg,
            None => {
                continue ;
            },
        };
        let ghost key = top@;
        out.insert(top, pkg);
        let ghost rest = stack@;
        let n = pkg.dependencies.len();
        let mut i: usize = 0;
        while i < n
            invariant
                g == *graph,
                n == pkg.dependencies.pairs().len(),
                i <= n,
                text_map::ascending(pkg.dependencies.pairs()),
                g.packages@.contains_key(key),
                *pkg == g.packages@[key],
                reachable(g, starts, key),
                rest.len() <= stack@.len(),
                forall|j: int| 0 <= j < rest.len() ==> stack@[j] == rest[j],
                forall|j: int|
                    rest.len() <= j < stack@.len() ==> depends(g, key, #[trigger] stack@[j]@),
                forall|x: int|
                    0 <= x < i ==> pending(
                        stack@,
                        package_key(
                            (#[trigger] pkg.dependencies.pairs()[x]).0,
                            pkg.dependencies.pairs()[x].1@,
                        ),
                    ),
            decreases n - i,
        {
            let name = pkg.dependencies.key_at(i);
            let version = pkg.dependencies.value_at(i);
            let dep = text::cat(text::cat(name.as_str(), "@").as_str(), version.as_str());
            let ghost d = dep@;
            let ghost held = stack@;
            stack.push(dep);
            proof {
                assert(pkg.dependencies@.contains_key(name@));
                assert(depends(g, key, d));
                assert(stack@[held.len() as int]@ == d);
                assert forall|x: int| 0 <= x < i + 1 implies pending(
                    stack@,
                    package_key(
                        (#[trigger] pkg.dependencies.pairs()[x]).0,
                        pkg.dependencies.pairs()[x].1@,
                    ),
                ) by {
                    if x < i {
                        let k = package_key(
                            pkg.dependencies.pairs()[x].0,
                            pkg.dependencies.pairs()[x].1@,
                        );
                        assert(pending(held, k));
                        let j = choose|j: int| 0 <= j < held.len() && #[trigger] held[j]@ == k;
                        assert(stack@[j]@ == k);
                    }
                }
            }
            i = i + 1;
        }
        proof {
            assert(out@ == out_before.insert(key, pkg));
            assert forall|k: Seq<char>| #[trigger] pending(rest, k) implies pending(stack@, k) by {
                let j = choose|j: int| 0 <= j < rest.len() && #[trigger] rest[j]@ == k;
                assert(stack@[j]@ == k);
            }
            assert forall|b: Seq<char>| #[trigger] depends(g, key, b) implies pending(
                stack@,
                b,
            ) by {
                let name = choose|name: Seq<char>| #[trigger]
                    g.packages@[key].dependencies@.contains_key(name) && package_key(
                        name,
                        g.packages@[key].dependencies@[name]@,
                    ) == b;
                let p = pkg.dependencies.pairs();
                text_map::lemma_map_of_dom(p, name);
                let x = choose|x: int| 0 <= x < p.len() && #[trigger] p[x].0 == name;
                text_map::lemma_map_of_value(p, x);
                assert(package_key(p[x].0, p[x].1@) == b);
            }
            assert forall|j: int|
                0 <= j < stack@.len() && g.packages@.contains_key(
                    #[trigger] stack@[j]@,
                ) implies reachable(g, starts, stack@[j]@) by {
                if j < rest.len() {
                    assert(before[j]@ == stack@[j]@);
                } else {
                    lemma_step_reachable(g, starts, key, stack@[j]@);
                }
            }
        }
        size = out.len();
        proof {
            vstd::set_lib::lemma_len_subset(out@.dom(), g.packages@.dom());
        }
    }
    proof {
        assert forall|k: Seq<char>| #[trigger] pending(stack@, k) implies false by {}
        assert(is_closed(g, starts, out@.dom()));
        assert forall|k: Seq<char>| #[trigger]
            out@.contains_key(k) <==> reachable(g, starts, k) by {
            if reachable(g, starts, k) {
                let path = choose|path: Seq<Seq<char>>| #[trigger]
                    is_path(g, starts, path) && path.last() == k;
                lemma_closed_holds_reachable(g, starts, out@.dom(), path);
            }
        }
    }
    out
}

/// The keys of the packages that are reached from the keys in `starts`.
fn reached_keys(graph: &LockfileGraph, starts: Vec<String>) -> (r: Vec<String>)
    ensures
        text_map::text_set(r@) == reached(*graph, text_map::text_set(starts@)),
{
    let ghost from = text_map::text_set(starts@);
    let closure = close_over(graph, starts);
    let r = closure.keys();
    assert(text_map::text_set(r@) =~= reached(*graph, from)) by {
        assert forall|k: Seq<char>| #[trigger] text_map::text_set(r@).contains(k) == reached(
            *graph,
            from,
        ).contains(k) by {
            assert(closure@.contains_key(k) == closure@.dom().contains(k));
        }
    }
    r
}

/// The packages that would be installed: those reached from the direct dependencies that the
/// filter keeps, by key.
pub fn collect_dep_closure<'a>(
    graph: &'a LockfileGraph,
    filter: DepFilter,
    no_optional: bool,
) -> (out: TextMap<&'a LockedPackage>)
    ensures
        forall|k: Seq<char>| #[trigger]
            out@.contains_key(k) <==> reachable(
                *graph,
                starts_at_root(*graph, filter, no_optional),
                k,
            ),
        forall|k: Seq<char>| #[trigger]
            out@.contains_key(k) ==> graph.packages@.contains_key(k) && *out@[k]
                == graph.packages@[k],
{
    let ghost g = *graph;
    let ghost wanted = starts_at_root(g, filter, no_optional);
    let mut stack: Vec<String> = Vec::new();
    if let Some(deps) = graph.root_deps() {
        let mut i: usize = 0;
        while i < deps.len()
            invariant
                i <= deps@.len(),
                deps@ == root_deps_of(g),
                forall|k: Seq<char>| #[trigger]
                    text_map::text_set(stack@).contains(k) <==> exists|x: int|
                        0 <= x < i && counts(
                            #[trigger] root_deps_of(g)[x],
                            filter,
                            no_optional,
                        ) && root_deps_of(g)[x].dep_path@ == k,
            decreases deps.len() - i,
        {
            let d = &deps[i];
            let optional = match d.dep_type {
                DepType::Optional => true,
                _ => false,
            };
            let ghost before = stack@;
            let kept = filter.keeps(d.dep_type) && !(no_optional && optional);
            if kept {
                stack.push(d.dep_path.clone());
            }
            proof {
                let now = stack@;
                assert(kept == counts(root_deps_of(g)[i as int], filter, no_optional));
                assert forall|k: Seq<char>| #[trigger]
                    text_map::text_set(now).contains(k) <==> exists|x: int|
                        0 <= x < i + 1 && counts(
                            #[trigger] root_deps_of(g)[x],
                            filter,
                            no_optional,
                        ) && root_deps_of(g)[x].dep_path@ == k by {
                    assert(text_map::text_set(before).contains(k) <==> exists|x: int|
                        0 <= x < i && counts(
                            #[trigger] root_deps_of(g)[x],
                            filter,
                            no_optional,
                        ) && root_deps_of(g)[x].dep_path@ == k);
                    if kept {
                        text_map::lemma_text_set_push(now, before.len() as int);
                        assert(now.take(before.len() as int) == before);
                        assert(now.take(before.len() as int + 1) == now);
                    }
                }
            }
            i = i + 1;
        }
    }
    assert(text_map::text_set(stack@) =~= wanted);
    close_over(graph, stack)
}

/// A narrower choice of direct dependencies reaches no other packages than a wider one.
pub proof fn narrower_filters_reach_less(
    g: LockfileGraph,
    narrow: DepFilter,
    no_optional: bool,
    k: Seq<char>,
)
    requires
        reachable(g, starts_at_root(g, narrow, no_optional), k),
    ensures
        reachable(g, starts_at_root(g, DepFilter::All, false), k),
        reachable(g, starts_at_root(g, narrow, false), k),
{
    let starts = starts_at_root(g, narrow, no_optional);
    let path = choose|path: Seq<Seq<char>>| #[trigger]
        is_path(g, starts, path) && path.last() == k;
    let x = choose|x: int|
        0 <= x < root_deps_of(g).len() && counts(
            #[trigger] root_deps_of(g)[x],
            narrow,
            no_optional,
        ) && root_deps_of(g)[x].dep_path@ == path[0];
    assert(counts(root_deps_of(g)[x], DepFilter::All, false));
    assert(counts(root_deps_of(g)[x], narrow, false));
    assert(is_path(g, starts_at_root(g, DepFilter::All, false), path));
    assert(is_path(g, starts_at_root(g, narrow, false), path));
}

/// Whether a key waits on the stack.
spec fn pending(stack: Seq<String>, k: Seq<char>) -> bool {
    exists|j: int| 0 <= j < stack.len() && #[trigger] stack[j]@ == k
}

/// `--prod` keeps production and optional dependencies, `--dev` development ones, and neither
/// keeps all of them.
pub proof fn filters_keep_their_kinds(dep_type: DepType)
    ensures
        DepFilter::All.admits(dep_type),
        DepFilter::ProdOnly.admits(dep_type) <==> dep_type == DepType::Production || dep_type
            == DepType::Optional,
        DepFilter::DevOnly.admits(dep_type) <==> dep_type == DepType::Dev,
{
}

/// A direct dependency of the root is installed if its package is in the graph, unless the
/// filter is about the other kind or optional ones are left out.
pub proof fn direct_dependencies_are_installed(
    g: LockfileGraph,
    filter: DepFilter,
    no_optional: bool,
    i: int,
)
    requires
        g.importers@.contains_key("."@),
        0 <= i < g.importers@["."@]@.len(),
        g.packages@.contains_key(g.importers@["."@]@[i].dep_path@),
        filter == DepFilter::ProdOnly ==> g.importers@["."@]@[i].dep_type != DepType::Dev,
        filter == DepFilter::DevOnly ==> g.importers@["."@]@[i].dep_type == DepType::Dev,
        no_optional ==> g.importers@["."@]@[i].dep_type != DepType::Optional,
    ensures
        reachable(
            g,
            starts_at_root(g, filter, no_optional),
            g.importers@["."@]@[i].dep_path@,
        ),
{
    assert(root_deps_of(g) == g.importers@["."@]@);
    assert(counts(root_deps_of(g)[i], filter, no_optional));
    lemma_start_reachable(
        g,
        starts_at_root(g, filter, no_optional),
        g.importers@["."@]@[i].dep_path@,
    );
}

/// What an installed package depends on is installed, if its package is in the graph: the key
/// is the name, an `@` and the version. This holds from whatever packages one starts.
pub proof fn dependencies_of_dependencies_are_installed(
    g: LockfileGraph,
    starts: Set<Seq<char>>,
    k: Seq<char>,
    name: Seq<char>,
)
    requires
        reachable(g, starts, k),
        g.packages@.contains_key(k),
        g.packages@[k].dependencies@.contains_key(name),
        g.packages@.contains_key(
            name + seq!['@'] + g.packages@[k].dependencies@[name]@,
        ),
    ensures
        reachable(g, starts, name + seq!['@'] + g.packages@[k].dependencies@[name]@),
{
    reveal_strlit("@");
    assert("@"@ == seq!['@']);
    let to = name + seq!['@'] + g.packages@[k].dependencies@[name]@;
    assert(package_key(name, g.packages@[k].dependencies@[name]@) == to);
    assert(depends(g, k, to));
    lemma_step_reachable(g, starts, k, to);
}

/// Nothing else is installed: every collection that holds the direct dependencies one starts
/// from, and with a package what it depends on, holds all that is reached; and all of it is in
/// the graph.
pub proof fn nothing_else_is_installed(
    g: LockfileGraph,
    starts: Set<Seq<char>>,
    keys: Set<Seq<char>>,
    k: Seq<char>,
)
    requires
        reachable(g, starts, k),
        forall|s: Seq<char>| #[trigger]
            starts.contains(s) && g.packages@.contains_key(s) ==> keys.contains(s),
        forall|a: Seq<char>, name: Seq<char>|
            #![trigger g.packages@[a].dependencies@.contains_key(name)]
            keys.contains(a) && g.packages@.contains_key(a)
                && g.packages@[a].dependencies@.contains_key(name) && g.packages@.contains_key(
                name + seq!['@'] + g.packages@[a].dependencies@[name]@,
            ) ==> keys.contains(name + seq!['@'] + g.packages@[a].dependencies@[name]@),
    ensures
        keys.contains(k),
        g.packages@.contains_key(k),
{
    reveal_strlit("@");
    assert("@"@ == seq!['@']);
    assert forall|a: Seq<char>, b: Seq<char>|
        keys.contains(a) && #[trigger] depends(g, a, b) && g.packages@.contains_key(
            b,
        ) implies keys.contains(b) by {
        let name = choose|name: Seq<char>| #[trigger]
            g.packages@[a].dependencies@.contains_key(name) && package_key(
                name,
                g.packages@[a].dependencies@[name]@,
            ) == b;
        assert(b == name + seq!['@'] + g.packages@[a].dependencies@[name]@);
    }
    assert(is_closed(g, starts, keys));
    let path = choose|path: Seq<Seq<char>>| #[trigger]
        is_path(g, starts, path) && path.last() == k;
    lemma_closed_holds_reachable(g, starts, keys, path);
    assert(g.packages@.contains_key(path[path.len() - 1]));
}

/// At the root one starts from the direct dependencies that the filter keeps; over all
/// importers, from every direct dependency of each.
pub proof fn one_starts_from_direct_dependencies(
    g: LockfileGraph,
    filter: DepFilter,
    no_optional: bool,
    importer: Seq<char>,
    i: int,
    k: Seq<char>,
)
    ensures
        starts_at_root(g, filter, no_optional).contains(k) ==> g.importers@.contains_key("."@)
            && exists|x: int|
            0 <= x < g.importers@["."@]@.len() && (#[trigger] g.importers@["."@]@[x]).dep_path@ == k
                && (filter == DepFilter::ProdOnly ==> g.importers@["."@]@[x].dep_type
                != DepType::Dev) && (filter == DepFilter::DevOnly ==> g.importers@["."@]@[x].dep_type
                == DepType::Dev) && (no_optional ==> g.importers@["."@]@[x].dep_type
                != DepType::Optional),
        g.importers@.contains_key(importer) && 0 <= i < g.importers@[importer]@.len()
            ==> starts_anywhere(g).contains(g.importers@[importer]@[i].dep_path@) && dep_paths(
            g.importers@[importer]@,
        ).contains(g.importers@[importer]@[i].dep_path@),
        starts_anywhere(g).contains(k) ==> exists|m: Seq<char>|
            #![trigger g.importers@[m]]
            g.importers@.contains_key(m) && dep_paths(g.importers@[m]@).contains(k),
        dep_paths(g.importers@[importer]@).contains(k) ==> exists|x: int|
            0 <= x < g.importers@[importer]@.len() && (
            #[trigger] g.importers@[importer]@[x]).dep_path@ == k,
{
    if starts_at_root(g, filter, no_optional).contains(k) {
        let x = choose|x: int|
            0 <= x < root_deps_of(g).len() && counts(
                #[trigger] root_deps_of(g)[x],
                filter,
                no_optional,
            ) && root_deps_of(g)[x].dep_path@ == k;
        assert(g.importers@.contains_key("."@));
        assert(root_deps_of(g)[x] == g.importers@["."@]@[x]);
    }
    if g.importers@.contains_key(importer) && 0 <= i < g.importers@[importer]@.len() {
        let p = g.importers@[importer]@[i].dep_path@;
        assert(dep_paths(g.importers@[importer]@).contains(p));
        assert(deps_of(g, importer) == g.importers@[importer]@);
        assert(dep_paths(deps_of(g, importer)).contains(p));
    }
    if starts_anywhere(g).contains(k) {
        let m = choose|m: Seq<char>| #[trigger] dep_paths(deps_of(g, m)).contains(k);
        assert(g.importers@.contains_key(m));
        assert(dep_paths(g.importers@[m]@).contains(k));
    }
}

/// The contents of a list of direct dependencies are their keys and kinds, one by one.
pub proof fn direct_dependencies_are_told_apart(deps: Seq<DirectDep>, i: int)
    requires
        0 <= i < deps.len(),
    ensures
        dep_views(deps).len() == deps.len(),
        dep_views(deps)[i] == (deps[i].dep_path@, deps[i].dep_type),
{
}

} // verus!
