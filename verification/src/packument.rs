//! What a registry knows of a package, and the choice of a version from it.

use crate::json;
use crate::semver;
use crate::text;
use crate::text_map::TextMap;
use vstd::prelude::*;

verus! {

/// Where the tarball of a version is.
#[derive(Debug)]
pub struct Dist {
    pub tarball: String,
}

/// One version of a package.
#[derive(Debug)]
pub struct VersionMetadata {
    pub name: String,
    pub version: String,
    pub dist: Option<Dist>,
}

/// The versions of a package, by version text.
#[derive(Debug)]
pub struct Packument {
    pub versions: TextMap<VersionMetadata>,
}

/// The version that a text writes, if it is in the range.
pub open spec fn candidate(v: Seq<char>, range: Seq<char>) -> Option<semver::VersionModel> {
    if semver::parsed_version(v) is Some && semver::in_range(v, range) {
        semver::parsed_version(v)
    } else {
        None
    }
}

/// The versions that a list of texts writes, as far as they are in the range.
pub open spec fn candidates(vs: Seq<Seq<char>>, range: Seq<char>) -> Seq<
    Option<semver::VersionModel>,
> {
    Seq::new(vs.len(), |i: int| candidate(vs[i], range))
}

/// Whether no candidate is above the one at `at`.
pub open spec fn is_highest(cs: Seq<Option<semver::VersionModel>>, at: int) -> bool {
    &&& 0 <= at < cs.len()
    &&& cs[at] is Some
    &&& forall|j: int|
        0 <= j < cs.len() && (#[trigger] cs[j]) is Some ==> !semver::version_less(
            cs[at]->0,
            cs[j]->0,
        )
}

/// Whether the candidate at `at` is the first of the highest.
pub open spec fn is_first_highest(cs: Seq<Option<semver::VersionModel>>, at: int) -> bool {
    &&& is_highest(cs, at)
    &&& forall|j: int|
        0 <= j < at && (#[trigger] cs[j]) is Some ==> semver::version_less(cs[j]->0, cs[at]->0)
}

/// Whether the candidate at `at` is the last of the highest.
pub open spec fn is_last_highest(cs: Seq<Option<semver::VersionModel>>, at: int) -> bool {
    &&& is_highest(cs, at)
    &&& forall|j: int|
        at < j < cs.len() && (#[trigger] cs[j]) is Some ==> semver::version_less(
            cs[j]->0,
            cs[at]->0,
        )
}

/// Whether there is no candidate.
pub open spec fn none_left(cs: Seq<Option<semver::VersionModel>>) -> bool {
    forall|j: int| 0 <= j < cs.len() ==> (#[trigger] cs[j]) is None
}

/// The contents of a list of candidates.
pub open spec fn candidate_views(v: Seq<Option<semver::Version>>) -> Seq<
    Option<semver::VersionModel>,
> {
    Seq::new(
        v.len(),
        |i: int|
            match v[i] {
                Some(x) => Some(x@),
                None => None,
            },
    )
}

/// What is not above something below `c` is below `c`.
proof fn lemma_not_above(a: semver::VersionModel, b: semver::VersionModel, c: semver::VersionModel)
    requires
        !semver::version_less(b, a),
        semver::version_less(b, c),
    ensures
        semver::version_less(a, c),
        !semver::version_less(c, a),
{
    if semver::version_less(a, b) {
        semver::version_order_is_transitive(a, b, c);
    } else {
        semver::version_order_is_a_weak_order(a, b, c);
    }
    if semver::version_less(c, a) {
        semver::version_order_is_transitive(a, c, a);
        semver::version_order_is_irreflexive(a);
    }
}

/// What is above nothing that `b` is not above: not being above carries over.
proof fn lemma_not_below(a: semver::VersionModel, b: semver::VersionModel, c: semver::VersionModel)
    requires
        !semver::version_less(b, a),
        !semver::version_less(c, b),
    ensures
        !semver::version_less(c, a),
{
    if semver::version_less(c, a) {
        if semver::version_less(b, c) {
            semver::version_order_is_transitive(b, c, a);
        } else {
            semver::version_order_is_a_weak_order(b, c, a);
        }
    }
}

/// The first of the highest candidates.
pub fn first_highest(cs: &Vec<Option<semver::Version>>) -> (r: Option<usize>)
    ensures
        match r {
            Some(at) => is_first_highest(candidate_views(cs@), at as int),
            None => none_left(candidate_views(cs@)),
        },
{
    let ghost all = candidate_views(cs@);
    let mut best: Option<usize> = None;
    let mut i: usize = 0;
    while i < cs.len()
        invariant
            i <= cs@.len(),
            all == candidate_views(cs@),
            match best {
                Some(b) => b < i && is_first_highest(all.take(i as int), b as int),
                None => none_left(all.take(i as int)),
            },
        decreases cs.len() - i,
    {
        let ghost k = i as int;
        let ghost seen = all.take(k);
        let ghost next = all.take(k + 1);
        let ghost old_best = best;
        assert forall|j: int| 0 <= j < k implies seen[j] == next[j] by {}
        assert(next[k] == all[k]);
        if let Some(v) = &cs[i] {
            match best {
                Some(b) => {
                    if let Some(w) = &cs[b] {
                        if w.precedes(v) {
                            best = Some(i);
                            proof {
                                semver::version_order_is_irreflexive(v@);
                                assert forall|j: int| 0 <= j < k && (#[trigger] next[j]) is Some implies semver::version_less(
                                    next[j]->0,
                                    v@,
                                ) && !semver::version_less(v@, next[j]->0) by {
                                    assert(seen[j] is Some);
                                    lemma_not_above(next[j]->0, w@, v@);
                                }
                            }
                        }
                    }
                },
                None => {
                    best = Some(i);
                    proof {
                        semver::version_order_is_irreflexive(v@);
                        assert forall|j: int| 0 <= j < k implies (#[trigger] next[j]) is None by {
                            assert(seen[j] is None);
                        }
                    }
                },
            }
        }
        proof {
            if best == old_best {
                match best {
                    Some(b) => {
                        assert forall|j: int| 0 <= j < next.len() && (#[trigger] next[j]) is Some implies !semver::version_less(
                            next[b as int]->0,
                            next[j]->0,
                        ) by {
                            if j < k {
                                assert(seen[j] is Some);
                            }
                        }
                        assert forall|j: int| 0 <= j < b && (#[trigger] next[j]) is Some implies semver::version_less(
                            next[j]->0,
                            next[b as int]->0,
                        ) by {
                            assert(seen[j] is Some);
                        }
                    },
                    None => {
                        assert forall|j: int| 0 <= j < next.len() implies (#[trigger] next[j]) is None by {
                            if j < k {
                                assert(seen[j] is None);
                            }
                        }
                    },
                }
            }
        }
        i = i + 1;
    }
    assert(all.take(i as int) == all);
    best
}

/// The last of the highest candidates.
pub fn last_highest(cs: &Vec<Option<semver::Version>>) -> (r: Option<usize>)
    ensures
        match r {
            Some(at) => is_last_highest(candidate_views(cs@), at as int),
            None => none_left(candidate_views(cs@)),
        },
{
    let ghost all = candidate_views(cs@);
    let mut best: Option<usize> = None;
    let mut i: usize = 0;
    while i < cs.len()
        invariant
            i <= cs@.len(),
            all == candidate_views(cs@),
            match best {
                Some(b) => b < i && is_last_highest(all.take(i as int), b as int),
                None => none_left(all.take(i as int)),
            },
        decreases cs.len() - i,
    {
        let ghost k = i as int;
        let ghost seen = all.take(k);
        let ghost next = all.take(k + 1);
        let ghost old_best = best;
        assert forall|j: int| 0 <= j < k implies seen[j] == next[j] by {}
        assert(next[k] == all[k]);
        if let Some(v) = &cs[i] {
            match best {
                Some(b) => {
                    if let Some(w) = &cs[b] {
                        if !v.precedes(w) {
                            best = Some(i);
                            proof {
                                semver::version_order_is_irreflexive(v@);
                                assert forall|j: int| 0 <= j < k && (#[trigger] next[j]) is Some implies !semver::version_less(
                                    v@,
                                    next[j]->0,
                                ) by {
                                    assert(seen[j] is Some);
                                    lemma_not_below(next[j]->0, w@, v@);
                                }
                            }
                        }
                    }
                },
                None => {
                    best = Some(i);
                    proof {
                        semver::version_order_is_irreflexive(v@);
                        assert forall|j: int| 0 <= j < k implies (#[trigger] next[j]) is None by {
                            assert(seen[j] is None);
                        }
                    }
                },
            }
        }
        proof {
            if best == old_best {
                match best {
                    Some(b) => {
                        assert forall|j: int| b < j < next.len() && (#[trigger] next[j]) is Some implies semver::version_less(
                            next[j]->0,
                            next[b as int]->0,
                        ) by {
                            if j < k {
                                assert(seen[j] is Some);
                            }
                        }
                        assert forall|j: int| 0 <= j < next.len() && (#[trigger] next[j]) is Some implies !semver::version_less(
                            next[b as int]->0,
                            next[j]->0,
                        ) by {
                            if j < k {
                                assert(seen[j] is Some);
                            } else {
                                let x = next[b as int]->0;
                                let y = next[j]->0;
                                if semver::version_less(x, y) {
                                    semver::version_order_is_transitive(x, y, x);
                                    semver::version_order_is_irreflexive(x);
                                }
                            }
                        }
                    },
                    None => {
                        assert forall|j: int| 0 <= j < next.len() implies (#[trigger] next[j]) is None by {
                            if j < k {
                                assert(seen[j] is None);
                            }
                        }
                    },
                }
            }
        }
        i = i + 1;
    }
    assert(all.take(i as int) == all);
    best
}

/// The version that a text writes, if it is in the range.
fn read_candidate(v: &str, range: &str) -> (r: Option<semver::Version>)
    requires
        !semver::trips_range_parser(range@),
        semver::is_range(range@),
    ensures
        match r {
            Some(x) => candidate(v@, range@) == Some(x@),
            None => candidate(v@, range@) is None,
        },
{
    match semver::parse_version(v) {
        Some(x) => if semver::satisfies(v, range) {
            Some(x)
        } else {
            None
        },
        None => None,
    }
}

/// The version texts of a packument, ascending.
pub open spec fn version_keys(p: Packument) -> Seq<Seq<char>> {
    Seq::new(p.versions.pairs().len(), |i: int| p.versions.pairs()[i].0)
}

/// Whether this is the highest of some versions in a range; of those that differ in build tags
/// only, the first one.
pub open spec fn is_max_satisfying(
    vs: Seq<Seq<char>>,
    range: Seq<char>,
    r: Option<Seq<char>>,
) -> bool {
    match r {
        Some(v) => semver::is_range(range) && exists|at: int| #[trigger]
            is_first_highest(candidates(vs, range), at) && v == vs[at],
        None => semver::is_range(range) ==> none_left(candidates(vs, range)),
    }
}

/// The highest version of a packument in a range, as the packument spells it. Of versions
/// that differ in build tags only, the first one. Nothing if `range_str` is not a range.
pub fn max_satisfying_version(packument: &Packument, range_str: &str) -> (r: Option<String>)
    requires
        !semver::trips_range_parser(range_str@),
    ensures
        match r {
            Some(v) => semver::is_range(range_str@) && exists|at: int| #[trigger]
                is_first_highest(candidates(version_keys(*packument), range_str@), at) && v@
                    == version_keys(*packument)[at],
            None => semver::is_range(range_str@) ==> none_left(
                candidates(version_keys(*packument), range_str@),
            ),
        },
        is_max_satisfying(version_keys(*packument), range_str@, text::view_opt(r)),
{
    if !semver::parses_as_range(range_str) {
        return None;
    }
    let ghost vs = version_keys(*packument);
    let n = packument.versions.len();
    let mut cs: Vec<Option<semver::Version>> = Vec::new();
    let mut i: usize = 0;
    while i < n
        invariant
            n == packument.versions.pairs().len(),
            i <= n,
            cs@.len() == i,
            vs == version_keys(*packument),
            !semver::trips_range_parser(range_str@),
            semver::is_range(range_str@),
            candidate_views(cs@) == candidates(vs, range_str@).take(i as int),
        decreases n - i,
    {
        let ghost before = cs@;
        let c = read_candidate(packument.versions.key_at(i).as_str(), range_str);
        cs.push(c);
        i = i + 1;
        assert(candidate_views(cs@) == candidate_views(before).push(candidates(
            vs,
            range_str@,
        )[i - 1]));
        assert(candidate_views(cs@) == candidates(vs, range_str@).take(i as int));
    }
    assert(candidates(vs, range_str@).take(n as int) == candidates(vs, range_str@));
    match first_highest(&cs) {
        Some(at) => {
            assert(is_first_highest(candidates(vs, range_str@), at as int));
            Some(packument.versions.key_at(at).clone())
        },
        None => None,
    }
}

/// The dist-tags and versions of a packument document, in the order of the document.
#[derive(Debug)]
pub struct PackumentIndex {
    /// Each tag with the version it names, where that is a text.
    pub dist_tags: Option<Vec<(String, Option<String>)>>,
    /// Each version text.
    pub versions: Option<Vec<(String, Option<String>)>>,
}

/// What a tag names.
pub open spec fn tagged(
    tags: Option<Seq<(Seq<char>, Option<Seq<char>>)>>,
    tag: Seq<char>,
) -> Option<Seq<char>> {
    match tags {
        Some(ts) => match crate::entries::value_under(ts, tag) {
            Some(v) => v,
            None => None,
        },
        None => None,
    }
}

/// The keys of a list of entries.
pub open spec fn entry_keys(es: Seq<(Seq<char>, Option<Seq<char>>)>) -> Seq<Seq<char>> {
    Seq::new(es.len(), |i: int| es[i].0)
}

/// Whether a version spec is read as a range: it is there, and neither a tag nor a version.
pub open spec fn read_as_range(
    tags: Option<Seq<(Seq<char>, Option<Seq<char>>)>>,
    versions: Option<Seq<(Seq<char>, Option<Seq<char>>)>>,
    spec: Seq<char>,
) -> bool {
    versions is Some && spec.len() > 0 && tagged(tags, spec) is None
        && !crate::entries::has_entry(versions->0, spec)
}

/// What a version spec resolves to: without one the version tagged `latest`; else the
/// version that it names as a tag, else itself if it is a version, else the highest version
/// in the range that it is.
pub open spec fn resolves_to(
    tags: Option<Seq<(Seq<char>, Option<Seq<char>>)>>,
    versions: Option<Seq<(Seq<char>, Option<Seq<char>>)>>,
    spec: Seq<char>,
    r: Option<Seq<char>>,
) -> bool {
    if versions is None {
        r is None
    } else if spec.len() == 0 {
        r == tagged(tags, "latest"@)
    } else if tagged(tags, spec) is Some {
        r == tagged(tags, spec)
    } else if crate::entries::has_entry(versions->0, spec) {
        r == Some(spec)
    } else if !semver::is_range(spec) {
        r is None
    } else {
        let vs = entry_keys(versions->0);
        match r {
            Some(v) => exists|at: int| #[trigger]
                is_last_highest(candidates(vs, spec), at) && v == vs[at],
            None => none_left(candidates(vs, spec)),
        }
    }
}

/// The contents of an optional list of entries.
pub open spec fn optional_entries(v: Option<Vec<(String, Option<String>)>>) -> Option<
    Seq<(Seq<char>, Option<Seq<char>>)>,
> {
    match v {
        Some(es) => Some(json::text_entries(es@)),
        None => None,
    }
}

fn find_entry(es: &Vec<(String, Option<String>)>, key: &str) -> (r: Option<usize>)
    ensures
        match r {
            Some(i) => i < es@.len() && crate::entries::key_from(
                json::text_entries(es@),
                key@,
                0,
            ) == i,
            None => !crate::entries::has_entry(json::text_entries(es@), key@),
        },
{
    let ghost all = json::text_entries(es@);
    let mut i: usize = 0;
    while i < es.len()
        invariant
            i <= es@.len(),
            all == json::text_entries(es@),
            crate::entries::key_from(all, key@, i as int) == crate::entries::key_from(
                all,
                key@,
                0,
            ),
        decreases es.len() - i,
    {
        if text::same_text(es[i].0.as_str(), key) {
            return Some(i);
        }
        i = i + 1;
    }
    None
}

fn find_tag(tags: &Option<Vec<(String, Option<String>)>>, tag: &str) -> (r: Option<String>)
    ensures
        text::view_opt(r) == tagged(optional_entries(*tags), tag@),
{
    match tags {
        Some(ts) => match find_entry(ts, tag) {
            Some(i) => match &ts[i].1 {
                Some(v) => Some(v.clone()),
                None => None,
            },
            None => None,
        },
        None => None,
    }
}

/// Resolves a version spec against the index of a packument.
pub fn resolve_in_index(index: &PackumentIndex, spec: Option<&str>) -> (r: Option<String>)
    requires
        read_as_range(
            optional_entries(index.dist_tags),
            optional_entries(index.versions),
            spec_text(spec),
        ) ==> !semver::trips_range_parser(spec_text(spec)),
    ensures
        resolves_to(
            optional_entries(index.dist_tags),
            optional_entries(index.versions),
            spec_text(spec),
            text::view_opt(r),
        ),
{
    let versions = match &index.versions {
        Some(versions) => versions,
        None => {
            return None;
        },
    };
    let spec = match spec {
        None => {
            return find_tag(&index.dist_tags, "latest");
        },
        Some(spec) => spec,
    };
    if text::to_chars(spec).len() == 0 {
        return find_tag(&index.dist_tags, "latest");
    }
    if let Some(tag) = find_tag(&index.dist_tags, spec) {
        return Some(tag);
    }
    if find_entry(versions, spec).is_some() {
        proof {
            crate::entries::lemma_key_from(json::text_entries(versions@), spec@, 0);
        }
        return Some(spec.to_owned());
    }
    if !semver::parses_as_range(spec) {
        return None;
    }
    let ghost vs = entry_keys(json::text_entries(versions@));
    let mut cs: Vec<Option<semver::Version>> = Vec::new();
    let mut i: usize = 0;
    while i < versions.len()
        invariant
            i <= versions@.len(),
            cs@.len() == i,
            vs == entry_keys(json::text_entries(versions@)),
            !semver::trips_range_parser(spec@),
            semver::is_range(spec@),
            candidate_views(cs@) == candidates(vs, spec@).take(i as int),
        decreases versions.len() - i,
    {
        let ghost before = cs@;
        let c = read_candidate(versions[i].0.as_str(), spec);
        cs.push(c);
        i = i + 1;
        assert(candidate_views(cs@) == candidate_views(before).push(candidates(vs, spec@)[i - 1]));
        assert(candidate_views(cs@) == candidates(vs, spec@).take(i as int));
    }
    assert(candidates(vs, spec@).take(i as int) == candidates(vs, spec@));
    match last_highest(&cs) {
        Some(at) => {
            assert(is_last_highest(candidates(vs, spec@), at as int));
            Some(versions[at].0.clone())
        },
        None => None,
    }
}

/// The text of an optional version spec.
pub open spec fn spec_text(spec: Option<&str>) -> Seq<char> {
    match spec {
        Some(s) => s@,
        None => Seq::empty(),
    }
}

/// Whether a version spec is read as a range in the document of a packument.
pub fn is_read_as_range(
    packument: &serde_json::Map<String, serde_json::Value>,
    spec: Option<&str>,
) -> (r: bool)
    ensures
        r == read_as_range(
            json::sub_texts(json::object_entries(*packument), "dist-tags"@),
            json::sub_texts(json::object_entries(*packument), "versions"@),
            spec_text(spec),
        ),
{
    let spec = match spec {
        Some(spec) => spec,
        None => {
            return false;
        },
    };
    let dist_tags = json::get_object(packument, "dist-tags");
    match json::get_object(packument, "versions") {
        Some(versions) => {
            proof {
                crate::entries::lemma_key_from(json::text_entries(versions@), spec@, 0);
            }
            text::to_chars(spec).len() > 0 && find_tag(&dist_tags, spec).is_none() && find_entry(
                &versions,
                spec,
            ).is_none()
        },
        None => false,
    }
}

/// Resolves a version spec against the document of a packument.
pub fn resolve_version(
    packument: &serde_json::Map<String, serde_json::Value>,
    spec: Option<&str>,
) -> (r: Option<String>)
    requires
        read_as_range(
            json::sub_texts(json::object_entries(*packument), "dist-tags"@),
            json::sub_texts(json::object_entries(*packument), "versions"@),
            spec_text(spec),
        ) ==> !semver::trips_range_parser(spec_text(spec)),
    ensures
        resolves_to(
            json::sub_texts(json::object_entries(*packument), "dist-tags"@),
            json::sub_texts(json::object_entries(*packument), "versions"@),
            spec_text(spec),
            text::view_opt(r),
        ),
{
    let index = PackumentIndex {
        dist_tags: json::get_object(packument, "dist-tags"),
        versions: json::get_object(packument, "versions"),
    };
    resolve_in_index(&index, spec)
}

/// Whether a text is that of a version in a range.
pub open spec fn is_version_in(v: Seq<char>, range: Seq<char>) -> bool {
    semver::parsed_version(v) is Some && semver::in_range(v, range)
}

/// Whether a version is above another.
pub open spec fn is_above(v: Seq<char>, w: Seq<char>) -> bool {
    semver::version_less(semver::parsed_version(w)->0, semver::parsed_version(v)->0)
}

/// A range resolves to a version of the packument in it, pre-releases included, that no other
/// one is above; of those that differ in build tags alone the last one. It resolves to nothing
/// only if no version is in it.
pub proof fn ranges_resolve_to_the_highest_version(
    tags: Option<Seq<(Seq<char>, Option<Seq<char>>)>>,
    versions: Seq<(Seq<char>, Option<Seq<char>>)>,
    spec: Seq<char>,
    r: Option<Seq<char>>,
)
    requires
        resolves_to(tags, Some(versions), spec, r),
        spec.len() > 0,
        tags matches Some(ts) ==> forall|i: int|
            0 <= i < ts.len() && (#[trigger] ts[i]).0 == spec ==> ts[i].1 is None,
        forall|i: int| 0 <= i < versions.len() ==> (#[trigger] versions[i]).0 != spec,
        semver::is_range(spec),
    ensures
        (exists|i: int| 0 <= i < versions.len() && is_version_in((#[trigger] versions[i]).0, spec))
            <==> r is Some,
        r matches Some(v) ==> is_version_in(v, spec) && exists|at: int|
            0 <= at < versions.len() && (#[trigger] versions[at]).0 == v && forall|j: int|
                0 <= j < versions.len() && is_version_in((#[trigger] versions[j]).0, spec)
                    ==> !is_above(versions[j].0, v) && (j > at ==> is_above(v, versions[j].0)),
{
    let vs = entry_keys(versions);
    let cs = candidates(vs, spec);
    if let Some(ts) = tags {
        crate::entries::lemma_key_from(ts, spec, 0);
    }
    crate::entries::lemma_key_from(versions, spec, 0);
    assert forall|j: int| 0 <= j < versions.len() implies (cs[j] is Some) == is_version_in(
        (#[trigger] versions[j]).0,
        spec,
    ) by {
        assert(vs[j] == versions[j].0);
    }
    match r {
        Some(v) => {
            let at = choose|at: int| #[trigger] is_last_highest(cs, at) && v == vs[at];
            assert(versions[at].0 == v);
            assert(is_version_in(versions[at].0, spec));
            assert forall|j: int|
                0 <= j < versions.len() && is_version_in((#[trigger] versions[j]).0, spec) implies !is_above(
                versions[j].0,
                v,
            ) && (j > at ==> is_above(v, versions[j].0)) by {
                assert(cs[j] is Some);
            }
        },
        None => {
            assert forall|j: int| 0 <= j < versions.len() implies !is_version_in(
                (#[trigger] versions[j]).0,
                spec,
            ) by {
                assert(cs[j] is None);
            }
        },
    }
}

/// A version spec that is a tag resolves to the version that the tag names, also where there is
/// a version of that name; else one that is a version resolves to itself, and one that is
/// neither and no range resolves to nothing. No spec is as good as `latest`. A tag that names
/// no text is none.
pub proof fn tags_come_before_versions(
    tags: Option<Seq<(Seq<char>, Option<Seq<char>>)>>,
    versions: Option<Seq<(Seq<char>, Option<Seq<char>>)>>,
    spec: Seq<char>,
    r: Option<Seq<char>>,
    at: int,
)
    requires
        resolves_to(tags, versions, spec, r),
    ensures
        versions is None ==> r is None,
        versions is Some && tags is Some && 0 <= at < tags->0.len() && tags->0[at].1 is Some
            && tags->0[at].0 == (if spec.len() == 0 {
            "latest"@
        } else {
            spec
        }) && (forall|j: int| 0 <= j < at ==> (#[trigger] tags->0[j]).0 != tags->0[at].0) ==> r
            == tags->0[at].1,
        (tags is None || forall|j: int|
            0 <= j < tags->0.len() && (#[trigger] tags->0[j]).0 == (if spec.len() == 0 {
                "latest"@
            } else {
                spec
            }) ==> tags->0[j].1 is None) && versions is Some ==> {
            &&& spec.len() == 0 ==> r is None
            &&& spec.len() > 0 && 0 <= at < versions->0.len() && versions->0[at].0 == spec ==> r
                == Some(spec)
            &&& spec.len() > 0 && !semver::is_range(spec) && (forall|j: int|
                0 <= j < versions->0.len() ==> (#[trigger] versions->0[j]).0 != spec) ==> r is None
        },
{
    let tag = if spec.len() == 0 {
        "latest"@
    } else {
        spec
    };
    if let Some(ts) = tags {
        crate::entries::lemma_key_from(ts, tag, 0);
        if 0 <= at < ts.len() && ts[at].0 == tag && (forall|j: int|
            0 <= j < at ==> (#[trigger] ts[j]).0 != ts[at].0) {
            crate::entries::lemma_key_at(ts, tag, 0, at);
        }
    }
    if let Some(vs) = versions {
        crate::entries::lemma_key_from(vs, spec, 0);
        if 0 <= at < vs.len() && vs[at].0 == spec {
            let k = crate::entries::key_from(vs, spec, 0);
            assert(k <= at);
        }
    }
}

/// The highest version in a range is a version of the packument in it, pre-releases included,
/// that no other one is above; of those that differ in build tags alone the first one. There is
/// none only if no version is in the range, or it is none.
pub proof fn the_maximum_is_the_highest_version(
    vs: Seq<Seq<char>>,
    range: Seq<char>,
    r: Option<Seq<char>>,
)
    requires
        is_max_satisfying(vs, range, r),
    ensures
        r is Some <==> semver::is_range(range) && exists|i: int|
            0 <= i < vs.len() && is_version_in(#[trigger] vs[i], range),
        r matches Some(v) ==> is_version_in(v, range) && exists|at: int|
            0 <= at < vs.len() && #[trigger] vs[at] == v && forall|j: int|
                0 <= j < vs.len() && is_version_in(#[trigger] vs[j], range) ==> !is_above(vs[j], v)
                    && (j < at ==> is_above(v, vs[j])),
{
    let cs = candidates(vs, range);
    assert forall|j: int| 0 <= j < vs.len() implies (cs[j] is Some) == is_version_in(
        #[trigger] vs[j],
        range,
    ) by {}
    match r {
        Some(v) => {
            let at = choose|at: int| #[trigger] is_first_highest(cs, at) && v == vs[at];
            assert(is_version_in(vs[at], range));
            assert forall|j: int| 0 <= j < vs.len() && is_version_in(#[trigger] vs[j], range) implies !is_above(
                vs[j],
                v,
            ) && (j < at ==> is_above(v, vs[j])) by {
                assert(cs[j] is Some);
            }
        },
        None => {
            if semver::is_range(range) {
                assert forall|j: int| 0 <= j < vs.len() implies !is_version_in(
                    #[trigger] vs[j],
                    range,
                ) by {
                    assert(cs[j] is None);
                }
            }
        },
    }
}

/// No spec is the empty one, and a spec is its text.
pub proof fn specs_are_their_texts(spec: &str)
    ensures
        spec_text(Some(spec)) == spec@,
        spec_text(None) == Seq::<char>::empty(),
{
}

/// Only a spec that is no tag and no version is read as a range, and only in a packument with
/// versions.
pub proof fn what_is_found_is_no_range(
    tags: Option<Seq<(Seq<char>, Option<Seq<char>>)>>,
    versions: Option<Seq<(Seq<char>, Option<Seq<char>>)>>,
    spec: Seq<char>,
    at: int,
)
    requires
        read_as_range(tags, versions, spec),
    ensures
        versions is Some && spec.len() > 0,
        0 <= at < versions->0.len() ==> versions->0[at].0 != spec,
        tags is Some && 0 <= at < tags->0.len() && tags->0[at].0 == spec && (forall|j: int|
            0 <= j < at ==> (#[trigger] tags->0[j]).0 != spec) ==> tags->0[at].1 is None,
{
    crate::entries::lemma_key_from(versions->0, spec, 0);
    if let Some(ts) = tags {
        if 0 <= at < ts.len() && ts[at].0 == spec && (forall|j: int|
            0 <= j < at ==> (#[trigger] ts[j]).0 != spec) {
            crate::entries::lemma_key_at(ts, spec, 0, at);
        }
    }
}

} // verus!
