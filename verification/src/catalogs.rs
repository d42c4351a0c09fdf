//! Catalogs: named lists of version ranges that dependencies can refer to, merged from every
//! place that can define them.

use crate::config;
use crate::manifest::{CatalogMap, PackageJson};
use crate::paths;
use crate::text_map;
use crate::text_map::TextMap;
use vstd::prelude::*;

verus! {

/// The contents of a map of catalogs.
pub open spec fn catalog_values(m: Map<Seq<char>, TextMap<String>>) -> Map<
    Seq<char>,
    Map<Seq<char>, Seq<char>>,
> {
    m.map_values(|c: TextMap<String>| config::text_values(c@))
}

/// A catalog of a map, empty if it is missing.
pub open spec fn bucket(
    m: Map<Seq<char>, Map<Seq<char>, Seq<char>>>,
    name: Seq<char>,
) -> Map<Seq<char>, Seq<char>> {
    if m.contains_key(name) {
        m[name]
    } else {
        Map::empty()
    }
}

/// Catalogs once the entries of one more catalog have been taken over; they win.
pub open spec fn with_entries(
    m: Map<Seq<char>, Map<Seq<char>, Seq<char>>>,
    name: Seq<char>,
    es: Map<Seq<char>, Seq<char>>,
) -> Map<Seq<char>, Map<Seq<char>, Seq<char>>> {
    m.insert(name, bucket(m, name).union_prefer_right(es))
}

/// Catalogs once the first `n` of a list of named catalogs have been taken over.
pub open spec fn with_named(
    m: Map<Seq<char>, Map<Seq<char>, Seq<char>>>,
    named: Seq<(Seq<char>, TextMap<String>)>,
    n: int,
) -> Map<Seq<char>, Map<Seq<char>, Seq<char>>>
    decreases n,
{
    if n <= 0 {
        m
    } else {
        with_entries(
            with_named(m, named, n - 1),
            named[n - 1].0,
            config::text_values(named[n - 1].1@),
        )
    }
}

/// Catalogs once a source has been taken over: its unnamed catalog, unless that is empty, as
/// `default`, and its named ones.
pub open spec fn with_source(
    m: Map<Seq<char>, Map<Seq<char>, Seq<char>>>,
    default_cat: TextMap<String>,
    named_cats: CatalogMap,
) -> Map<Seq<char>, Map<Seq<char>, Seq<char>>> {
    let a = if default_cat.pairs().len() == 0 {
        m
    } else {
        with_entries(m, "default"@, config::text_values(default_cat@))
    };
    with_named(a, named_cats.pairs(), named_cats.pairs().len() as int)
}

/// Catalogs once a manifest has been taken over: `workspaces`, then `pnpm`.
pub open spec fn with_manifest(
    m: Map<Seq<char>, Map<Seq<char>, Seq<char>>>,
    p: PackageJson,
) -> Map<Seq<char>, Map<Seq<char>, Seq<char>>> {
    let a = match p.workspaces {
        Some(ws) => with_source(m, ws.catalog, ws.catalogs),
        None => m,
    };
    with_source(a, p.pnpm_catalog, p.pnpm_catalogs)
}

/// Catalogs once a manifest has been taken over, if there is one.
pub open spec fn with_optional_manifest(
    m: Map<Seq<char>, Map<Seq<char>, Seq<char>>>,
    p: Option<PackageJson>,
) -> Map<Seq<char>, Map<Seq<char>, Seq<char>>> {
    match p {
        Some(p) => with_manifest(m, p),
        None => m,
    }
}

/// The catalogs of a project: of its manifest, of the workspace root's manifest, and of the
/// workspace file, each overriding those before. Empty catalogs are left out.
pub open spec fn discovered(
    project: Option<PackageJson>,
    workspace_root: Option<PackageJson>,
    ws_catalog: TextMap<String>,
    ws_catalogs: CatalogMap,
) -> Map<Seq<char>, Map<Seq<char>, Seq<char>>> {
    let a = with_optional_manifest(Map::empty(), project);
    let b = with_optional_manifest(a, workspace_root);
    let c = with_source(b, ws_catalog, ws_catalogs);
    Map::new(
        |k: Seq<char>| c.contains_key(k) && c[k] != Map::<Seq<char>, Seq<char>>::empty(),
        |k: Seq<char>| c[k],
    )
}

/// Copies all entries of `from` into `into`.
fn copy_entries(into: &mut TextMap<String>, from: &TextMap<String>)
    ensures
        config::text_values(final(into)@) == config::text_values(old(into)@).union_prefer_right(
            config::text_values(from@),
        ),
{
    let ghost start = config::text_values(into@);
    let ghost all = config::text_values(from@);
    let n = from.len();
    let mut i: usize = 0;
    while i < n
        invariant
            n == from.pairs().len(),
            i <= n,
            text_map::ascending(from.pairs()),
            all == config::text_values(from@),
            forall|k: Seq<char>| #[trigger]
                config::text_values(into@).contains_key(k) <==> start.contains_key(k) || key_below(
                    from.pairs(),
                    k,
                    i as int,
                ),
            forall|k: Seq<char>| #[trigger]
                config::text_values(into@).contains_key(k) ==> config::text_values(into@)[k]
                    == if key_below(from.pairs(), k, i as int) {
                    all[k]
                } else {
                    start[k]
                },
        decreases n - i,
    {
        let key = from.key_at(i).clone();
        let value = from.value_at(i).clone();
        let ghost before = config::text_values(into@);
        let ghost kv = key@;
        let ghost vv = value@;
        proof {
            text_map::lemma_map_of_value(from.pairs(), i as int);
            assert forall|k: Seq<char>| key_below(from.pairs(), k, i + 1) == (key_below(
                from.pairs(),
                k,
                i as int,
            ) || k == kv) by {
                if key_below(from.pairs(), k, i + 1) {
                    let j = choose|j: int|
                        0 <= j < i + 1 && j < from.pairs().len() && (#[trigger] from.pairs()[j]).0
                            == k;
                    if j < i {
                        assert(from.pairs()[j].0 == k);
                    }
                }
                if key_below(from.pairs(), k, i as int) {
                    let j = choose|j: int|
                        0 <= j < i && j < from.pairs().len() && (#[trigger] from.pairs()[j]).0 == k;
                    assert(from.pairs()[j].0 == k);
                }
                assert(from.pairs()[i as int].0 == kv);
            }
        }
        into.insert(key, value);
        assert(config::text_values(into@) =~= before.insert(kv, vv));
        i = i + 1;
    }
    proof {
        assert forall|k: Seq<char>| key_below(from.pairs(), k, n as int) == all.contains_key(k) by {
            text_map::lemma_map_of_dom(from.pairs(), k);
            if all.contains_key(k) {
                let j = choose|j: int|
                    0 <= j < from.pairs().len() && #[trigger] from.pairs()[j].0 == k;
                assert(from.pairs()[j].0 == k);
            }
        }
        assert(config::text_values(into@) =~= start.union_prefer_right(all));
    }
}

/// Whether one of the first `n` pairs has the key `k`.
spec fn key_below<V>(pairs: Seq<(Seq<char>, V)>, k: Seq<char>, n: int) -> bool {
    exists|j: int| 0 <= j < n && j < pairs.len() && (#[trigger] pairs[j]).0 == k
}

/// Takes the entries of one catalog over.
fn merge_catalog(out: &mut CatalogMap, name: &str, from: &TextMap<String>)
    ensures
        catalog_values(final(out)@) == with_entries(
            catalog_values(old(out)@),
            name@,
            config::text_values(from@),
        ),
{
    let ghost before = catalog_values(out@);
    let mut entry: TextMap<String> = match out.remove(name) {
        Some(entry) => entry,
        None => TextMap::new(),
    };
    proof {
        assert(config::text_values(entry@) =~= bucket(before, name@));
    }
    copy_entries(&mut entry, from);
    out.insert(name.to_owned(), entry);
    assert(catalog_values(out@) =~= with_entries(before, name@, config::text_values(from@)));
}

/// Takes a source of catalogs over; its entries win over those that are there.
pub fn merge_catalog_source(
    out: &mut CatalogMap,
    default_cat: &TextMap<String>,
    named_cats: &CatalogMap,
)
    ensures
        catalog_values(final(out)@) == with_source(
            catalog_values(old(out)@),
            *default_cat,
            *named_cats,
        ),
{
    if !default_cat.is_empty() {
        merge_catalog(out, "default", default_cat);
    }
    let ghost start = catalog_values(out@);
    let n = named_cats.len();
    let mut i: usize = 0;
    while i < n
        invariant
            n == named_cats.pairs().len(),
            i <= n,
            catalog_values(out@) == with_named(start, named_cats.pairs(), i as int),
        decreases n - i,
    {
        merge_catalog(out, named_cats.key_at(i).as_str(), named_cats.value_at(i));
        i = i + 1;
    }
}

/// Takes the catalogs of a manifest over: those of `workspaces`, then those of `pnpm`.
pub fn merge_manifest_catalogs(out: &mut CatalogMap, manifest: &PackageJson)
    ensures
        catalog_values(final(out)@) == with_manifest(catalog_values(old(out)@), *manifest),
{
    if let Some(ws) = &manifest.workspaces {
        merge_catalog_source(out, &ws.catalog, &ws.catalogs);
    }
    merge_catalog_source(out, &manifest.pnpm_catalog, &manifest.pnpm_catalogs);
}

/// Where catalogs are looked for besides the manifest of the project.
#[derive(Debug)]
pub struct CatalogPlaces {
    /// The directory whose manifest counts as that of the workspace root.
    pub manifest_dir: Option<String>,
    /// The directory of the workspace file.
    pub yaml_dir: String,
}

/// Where the catalogs of a project are looked for: in the manifest of the workspace root, where
/// that is another directory, and in the workspace file nearest above, or in the project where
/// there is none. Which texts write one directory depends on the platform.
pub fn catalog_places(
    project_root: &str,
    workspace_root: Option<String>,
    workspace_yaml_root: Option<String>,
) -> (r: CatalogPlaces)
    ensures
        match workspace_root {
            Some(dir) => {
                &&& r.manifest_dir is None || r.manifest_dir == Some(dir)
                &&& paths::reads_same(dir@, project_root@, r.manifest_dir is None)
                &&& paths::reads_alike(dir@) && paths::reads_alike(project_root@) ==> (
                r.manifest_dir is None <==> paths::is_same_path(dir@, project_root@))
            },
            None => r.manifest_dir is None,
        },
        r.yaml_dir@ == (match workspace_yaml_root {
            Some(dir) => dir@,
            None => project_root@,
        }),
{
    let manifest_dir = match workspace_root {
        Some(dir) => {
            let same = paths::same_path(dir.as_str(), project_root);
            proof {
                if paths::reads_alike(dir@) && paths::reads_alike(project_root@) {
                    paths::lemma_alike_says_one(dir@, project_root@, same);
                }
            }
            if same {
                None
            } else {
                Some(dir)
            }
        },
        None => None,
    };
    let yaml_dir = match workspace_yaml_root {
        Some(dir) => dir,
        None => project_root.to_owned(),
    };
    CatalogPlaces { manifest_dir, yaml_dir }
}

/// The catalogs of a project. `workspace_root` is the manifest of the workspace root, where
/// that is another directory.
pub fn discover_catalogs(
    project: &Option<PackageJson>,
    workspace_root: &Option<PackageJson>,
    ws_catalog: &TextMap<String>,
    ws_catalogs: &CatalogMap,
) -> (out: CatalogMap)
    ensures
        catalog_values(out@) == discovered(*project, *workspace_root, *ws_catalog, *ws_catalogs),
{
    let mut out: CatalogMap = TextMap::new();
    assert(catalog_values(out@) =~= Map::empty());
    if let Some(m) = project {
        merge_manifest_catalogs(&mut out, m);
    }
    if let Some(m) = workspace_root {
        merge_manifest_catalogs(&mut out, m);
    }
    merge_catalog_source(&mut out, ws_catalog, ws_catalogs);
    let ghost merged = out@;
    let mut keep: Vec<String> = Vec::new();
    let n = out.len();
    let mut i: usize = 0;
    while i < n
        invariant
            n == out.pairs().len(),
            i <= n,
            out@ == merged,
            text_map::ascending(out.pairs()),
            forall|k: Seq<char>| #[trigger]
                text_map::text_set(keep@).contains(k) <==> exists|j: int|
                    0 <= j < i && (#[trigger] out.pairs()[j]).0 == k && out.pairs()[j].1@
                        != Map::<Seq<char>, String>::empty(),
        decreases n - i,
    {
        let ghost before = keep@;
        let key = out.key_at(i);
        let value = out.value_at(i);
        if !value.is_empty() {
            keep.push(key.clone());
        }
        proof {
            assert forall|k: Seq<char>| #[trigger]
                text_map::text_set(keep@).contains(k) <==> exists|j: int|
                    0 <= j < i + 1 && (#[trigger] out.pairs()[j]).0 == k && out.pairs()[j].1@
                        != Map::<Seq<char>, String>::empty() by {
                assert(text_map::text_set(before).contains(k) <==> exists|j: int|
                    0 <= j < i && (#[trigger] out.pairs()[j]).0 == k && out.pairs()[j].1@
                        != Map::<Seq<char>, String>::empty());
                if text_map::text_set(keep@).contains(k) {
                    let x = choose|x: int| 0 <= x < keep@.len() && #[trigger] keep@[x]@ == k;
                    if x < before.len() {
                        assert(before[x]@ == k);
                    } else {
                        assert(out.pairs()[i as int].0 == k);
                    }
                }
                if text_map::text_set(before).contains(k) {
                    let x = choose|x: int| 0 <= x < before.len() && #[trigger] before[x]@ == k;
                    assert(keep@[x]@ == k);
                }
                if out.pairs()[i as int].0 == k && out.pairs()[i as int].1@ != Map::<
                    Seq<char>,
                    String,
                >::empty() {
                    assert(keep@[before.len() as int]@ == k);
                }
            }
        }
        i = i + 1;
    }
    let ghost pairs = out.pairs();
    out.retain_keys(&keep);
    proof {
        let c = catalog_values(merged);
        assert forall|k: Seq<char>| #[trigger] merged.contains_key(k) implies (
        text_map::text_set(keep@).contains(k) <==> c[k] != Map::<Seq<char>, Seq<char>>::empty()) by {
            text_map::lemma_map_of_dom(pairs, k);
            let j = choose|j: int| 0 <= j < pairs.len() && #[trigger] pairs[j].0 == k;
            text_map::lemma_map_of_value(pairs, j);
            lemma_empty_values(pairs[j].1@);
            if text_map::text_set(keep@).contains(k) {
                let x = choose|x: int|
                    0 <= x < n && (#[trigger] pairs[x]).0 == k && pairs[x].1@ != Map::<
                        Seq<char>,
                        String,
                    >::empty();
                text_map::lemma_map_of_value(pairs, x);
            }
        }
        assert(catalog_values(out@) =~= discovered(
            *project,
            *workspace_root,
            *ws_catalog,
            *ws_catalogs,
        ));
    }
    out
}

proof fn lemma_empty_values(m: Map<Seq<char>, String>)
    ensures
        (config::text_values(m) == Map::<Seq<char>, Seq<char>>::empty()) == (m == Map::<
            Seq<char>,
            String,
        >::empty()),
{
    if config::text_values(m) == Map::<Seq<char>, Seq<char>>::empty() {
        assert(m.dom() =~= config::text_values(m).dom());
        assert(m =~= Map::<Seq<char>, String>::empty());
    } else if m == Map::<Seq<char>, String>::empty() {
        assert(config::text_values(m) =~= Map::<Seq<char>, Seq<char>>::empty());
    }
}

/// What a catalog says about a package.
pub open spec fn entry_in(
    m: Map<Seq<char>, Map<Seq<char>, Seq<char>>>,
    name: Seq<char>,
    pkg: Seq<char>,
) -> Option<Seq<char>> {
    if bucket(m, name).contains_key(pkg) {
        Some(bucket(m, name)[pkg])
    } else {
        None
    }
}

/// What a source says about a package in a catalog: its named catalog of that name, else, for
/// the catalog `default`, its unnamed one.
pub open spec fn entry_of_source(
    default_cat: TextMap<String>,
    named_cats: CatalogMap,
    name: Seq<char>,
    pkg: Seq<char>,
) -> Option<Seq<char>> {
    if named_cats@.contains_key(name) && named_cats@[name]@.contains_key(pkg) {
        Some(named_cats@[name]@[pkg]@)
    } else if name == "default"@ && default_cat@.contains_key(pkg) {
        Some(default_cat@[pkg]@)
    } else {
        None
    }
}

proof fn lemma_with_named(
    m: Map<Seq<char>, Map<Seq<char>, Seq<char>>>,
    named: Seq<(Seq<char>, TextMap<String>)>,
    n: int,
    name: Seq<char>,
    pkg: Seq<char>,
)
    requires
        0 <= n <= named.len(),
        text_map::ascending(named),
    ensures
        (forall|j: int| 0 <= j < n ==> (#[trigger] named[j]).0 != name) ==> entry_in(
            with_named(m, named, n),
            name,
            pkg,
        ) == entry_in(m, name, pkg),
        forall|j: int|
            0 <= j < n && (#[trigger] named[j]).0 == name ==> entry_in(
                with_named(m, named, n),
                name,
                pkg,
            ) == (if named[j].1@.contains_key(pkg) {
                Some(named[j].1@[pkg]@)
            } else {
                entry_in(m, name, pkg)
            }),
    decreases n,
{
    if n > 0 {
        lemma_with_named(m, named, n - 1, name, pkg);
        assert forall|j: int| 0 <= j < n - 1 && (#[trigger] named[j]).0 == name implies named[n
            - 1].0 != name by {
            assert(crate::text::text_less(named[j].0, named[n - 1].0));
            crate::text::lemma_less_irreflexive(name);
        }
    }
}

/// Where a source says something about a package in a catalog, that counts; where it does
/// not, nothing changes. So of several sources the last one that says something wins.
pub proof fn later_sources_win(
    m: Map<Seq<char>, Map<Seq<char>, Seq<char>>>,
    default_cat: TextMap<String>,
    named_cats: CatalogMap,
    name: Seq<char>,
    pkg: Seq<char>,
)
    requires
        text_map::ascending(named_cats.pairs()),
        text_map::ascending(default_cat.pairs()),
    ensures
        entry_in(with_source(m, default_cat, named_cats), name, pkg) == (match entry_of_source(
            default_cat,
            named_cats,
            name,
            pkg,
        ) {
            Some(v) => Some(v),
            None => entry_in(m, name, pkg),
        }),
{
    let a = if default_cat.pairs().len() == 0 {
        m
    } else {
        with_entries(m, "default"@, config::text_values(default_cat@))
    };
    let named = named_cats.pairs();
    lemma_with_named(a, named, named.len() as int, name, pkg);
    text_map::lemma_map_of_dom(named, name);
    text_map::lemma_map_of_dom(default_cat.pairs(), pkg);
    if named_cats@.contains_key(name) {
        let j = choose|j: int| 0 <= j < named.len() && #[trigger] named[j].0 == name;
        text_map::lemma_map_of_value(named, j);
    }
}

/// What a manifest says about a package in a catalog: `pnpm` before `workspaces`.
pub open spec fn said_by_manifest(
    p: Option<PackageJson>,
    name: Seq<char>,
    pkg: Seq<char>,
) -> Option<Seq<char>> {
    match p {
        None => None,
        Some(p) => match entry_of_source(p.pnpm_catalog, p.pnpm_catalogs, name, pkg) {
            Some(v) => Some(v),
            None => match p.workspaces {
                Some(ws) => entry_of_source(ws.catalog, ws.catalogs, name, pkg),
                None => None,
            },
        },
    }
}

/// Whether the maps of a manifest that hold catalogs are in order.
pub open spec fn has_sorted_catalogs(p: Option<PackageJson>) -> bool {
    match p {
        None => true,
        Some(p) => {
            &&& text_map::ascending(p.pnpm_catalog.pairs())
            &&& text_map::ascending(p.pnpm_catalogs.pairs())
            &&& p.workspaces matches Some(ws) ==> text_map::ascending(ws.catalog.pairs())
                && text_map::ascending(ws.catalogs.pairs())
        },
    }
}

proof fn lemma_with_optional_manifest(
    m: Map<Seq<char>, Map<Seq<char>, Seq<char>>>,
    p: Option<PackageJson>,
    name: Seq<char>,
    pkg: Seq<char>,
)
    requires
        has_sorted_catalogs(p),
    ensures
        entry_in(with_optional_manifest(m, p), name, pkg) == (match said_by_manifest(p, name, pkg) {
            Some(v) => Some(v),
            None => entry_in(m, name, pkg),
        }),
{
    if let Some(p) = p {
        let a = match p.workspaces {
            Some(ws) => with_source(m, ws.catalog, ws.catalogs),
            None => m,
        };
        if let Some(ws) = p.workspaces {
            later_sources_win(m, ws.catalog, ws.catalogs, name, pkg);
        }
        later_sources_win(a, p.pnpm_catalog, p.pnpm_catalogs, name, pkg);
    }
}

/// For every catalog and package, what the discovered catalogs say is what the workspace file
/// says if it says something, else what the workspace root's manifest says if it says something,
/// else what the project's manifest says, whichever of the manifests are there. No discovered
/// catalog is empty.
pub proof fn the_nearest_source_that_speaks_counts(
    project: Option<PackageJson>,
    workspace_root: Option<PackageJson>,
    ws_catalog: TextMap<String>,
    ws_catalogs: CatalogMap,
    name: Seq<char>,
    pkg: Seq<char>,
)
    requires
        has_sorted_catalogs(project),
        has_sorted_catalogs(workspace_root),
        text_map::ascending(ws_catalog.pairs()),
        text_map::ascending(ws_catalogs.pairs()),
    ensures
        ({
            let d = discovered(project, workspace_root, ws_catalog, ws_catalogs);
            let by_file = entry_of_source(ws_catalog, ws_catalogs, name, pkg);
            let by_root = said_by_manifest(workspace_root, name, pkg);
            let by_project = said_by_manifest(project, name, pkg);
            let expected = if by_file is Some {
                by_file
            } else if by_root is Some {
                by_root
            } else {
                by_project
            };
            &&& d.contains_key(name) && d[name].contains_key(pkg) <==> expected is Some
            &&& expected is Some ==> d[name][pkg] == expected->0
            &&& d.contains_key(name) ==> exists|p: Seq<char>| d[name].contains_key(p)
        }),
{
    let a = with_optional_manifest(Map::empty(), project);
    let b = with_optional_manifest(a, workspace_root);
    let c = with_source(b, ws_catalog, ws_catalogs);
    lemma_with_optional_manifest(Map::empty(), project, name, pkg);
    lemma_with_optional_manifest(a, workspace_root, name, pkg);
    later_sources_win(b, ws_catalog, ws_catalogs, name, pkg);
    let d = discovered(project, workspace_root, ws_catalog, ws_catalogs);
    if c.contains_key(name) && c[name].contains_key(pkg) {
        assert(c[name] != Map::<Seq<char>, Seq<char>>::empty());
    }
    if d.contains_key(name) && !(exists|p: Seq<char>| d[name].contains_key(p)) {
        assert forall|p: Seq<char>| !c[name].contains_key(p) by {
            assert(!d[name].contains_key(p));
        }
        assert(c[name] =~= Map::<Seq<char>, Seq<char>>::empty());
    }
}

/// A source brings in the catalogs that it names, also the empty ones, and `default` where its
/// unnamed catalog holds something; every catalog that was there stays.
pub proof fn sources_bring_in_their_catalogs(
    m: Map<Seq<char>, Map<Seq<char>, Seq<char>>>,
    default_cat: TextMap<String>,
    named_cats: CatalogMap,
    name: Seq<char>,
)
    requires
        text_map::ascending(named_cats.pairs()),
    ensures
        with_source(m, default_cat, named_cats).contains_key(name) <==> m.contains_key(name)
            || named_cats@.contains_key(name) || name == "default"@ && default_cat.pairs().len()
            > 0,
{
    let a = if default_cat.pairs().len() == 0 {
        m
    } else {
        with_entries(m, "default"@, config::text_values(default_cat@))
    };
    let named = named_cats.pairs();
    lemma_named_keys(a, named, named.len() as int, name);
    text_map::lemma_map_of_dom(named, name);
}

proof fn lemma_named_keys(
    m: Map<Seq<char>, Map<Seq<char>, Seq<char>>>,
    named: Seq<(Seq<char>, TextMap<String>)>,
    n: int,
    name: Seq<char>,
)
    requires
        0 <= n <= named.len(),
    ensures
        with_named(m, named, n).contains_key(name) <==> m.contains_key(name) || exists|j: int|
            0 <= j < n && (#[trigger] named[j]).0 == name,
    decreases n,
{
    if n > 0 {
        lemma_named_keys(m, named, n - 1, name);
        if exists|j: int| 0 <= j < n && (#[trigger] named[j]).0 == name {
            let j = choose|j: int| 0 <= j < n && (#[trigger] named[j]).0 == name;
            assert(j == n - 1 || j < n - 1);
        }
        if named[n - 1].0 == name {
            assert(named[n - 1].0 == name);
        }
    }
}

} // verus!
