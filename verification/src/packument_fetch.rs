//! Where the packument of a package is taken from: the disk cache, the bundled primer, or
//! the registry.

use crate::packument::{Dist, Packument, VersionMetadata};
use vstd::prelude::*;

verus! {

/// What is known before a packument is fetched.
#[derive(Debug, Clone, Copy)]
pub struct FetchInputs {
    /// There is a cache for packuments without publication times.
    pub has_cache: bool,
    /// There is a cache for full packuments.
    pub has_full_cache: bool,
    /// The primer is recent enough.
    pub primer_covers_cutoff: bool,
    /// The primer is used for any registry.
    pub force_metadata_primer: bool,
    /// The package comes from the default npm registry.
    pub default_registry: bool,
    /// The publication times are needed.
    pub needs_time: bool,
}

/// A packument cache.
#[derive(Debug, Clone, Copy, PartialEq, Eq, Structural)]
pub enum Cache {
    /// Packuments without publication times.
    Abbreviated,
    /// Full packuments.
    Full,
}

/// How a use of the network permit ended.
#[derive(Debug, Clone, Copy, PartialEq, Eq, Structural)]
pub enum Permit {
    /// The network answered.
    Success,
    /// The network asked to slow down.
    Throttle,
    /// The permit says nothing about the network.
    Cancelled,
}

/// Where a packument came from.
#[derive(Debug, Clone, Copy, PartialEq, Eq, Structural)]
pub enum Source {
    Cache,
    Primer,
    Network,
}

/// What to do next.
#[derive(Debug, Clone, Copy, PartialEq, Eq, Structural)]
pub enum Action {
    /// Look the package up in this cache.
    Lookup(Cache),
    /// Ask the primer for the package.
    AskPrimer,
    /// Take the primer's packument: point its tarballs at the active registry if told to,
    /// and write it to the cache if there is one.
    UsePrimer { retarget: bool, seed: Option<Cache> },
    /// Fetch the packument, through this cache if there is one.
    Fetch(Option<Cache>),
    /// Return the packument; the permit ends like this.
    Finish { source: Source, permit: Permit },
    /// Return the error; the permit ends like this.
    Fail { permit: Permit },
}

/// What has happened.
#[derive(Debug, Clone, Copy, PartialEq, Eq, Structural)]
pub enum Event {
    /// The cache was looked up.
    LookedUp { found: bool, stale: bool },
    /// The primer was asked.
    PrimerAnswered { found: bool },
    /// The primer's packument was taken.
    PrimerTaken,
    /// The registry answered.
    Fetched,
    /// The registry could not be asked; `throttled` if it asked to slow down.
    FetchFailed { throttled: bool },
}

/// The cache that serves a request.
pub open spec fn cache_for(i: FetchInputs) -> Option<Cache> {
    if i.needs_time {
        if i.has_full_cache {
            Some(Cache::Full)
        } else {
            None
        }
    } else if i.has_cache {
        Some(Cache::Abbreviated)
    } else {
        None
    }
}

/// Whether the primer may serve a request.
pub open spec fn primer_applies(i: FetchInputs) -> bool {
    (i.force_metadata_primer || i.default_registry) && i.primer_covers_cutoff
}

/// What follows a lookup: a stale entry is refreshed from the registry, never replaced from
/// the primer.
pub open spec fn after_lookup(i: FetchInputs, found: bool, stale: bool) -> Action {
    if found {
        Action::Finish { source: Source::Cache, permit: Permit::Cancelled }
    } else if primer_applies(i) && !stale {
        Action::AskPrimer
    } else {
        Action::Fetch(cache_for(i))
    }
}

/// The first thing to do.
pub open spec fn first_action(i: FetchInputs) -> Action {
    match cache_for(i) {
        Some(c) => Action::Lookup(c),
        None => after_lookup(i, false, false),
    }
}

/// What to do after an event.
pub open spec fn action_after(i: FetchInputs, e: Event) -> Action {
    match e {
        Event::LookedUp { found, stale } => after_lookup(i, found, stale),
        Event::PrimerAnswered { found } => if found {
            Action::UsePrimer { retarget: i.force_metadata_primer, seed: cache_for(i) }
        } else {
            Action::Fetch(cache_for(i))
        },
        Event::PrimerTaken => Action::Finish {
            source: Source::Primer,
            permit: Permit::Cancelled,
        },
        Event::Fetched => Action::Finish { source: Source::Network, permit: Permit::Success },
        Event::FetchFailed { throttled } => Action::Fail {
            permit: if throttled {
                Permit::Throttle
            } else {
                Permit::Cancelled
            },
        },
    }
}

/// Whether an event is an answer to an action.
pub open spec fn answers(a: Action, e: Event) -> bool {
    match a {
        Action::Lookup(_) => e is LookedUp,
        Action::AskPrimer => e is PrimerAnswered,
        Action::UsePrimer { .. } => e is PrimerTaken,
        Action::Fetch(_) => e is Fetched || e is FetchFailed,
        Action::Finish { .. } => false,
        Action::Fail { .. } => false,
    }
}

/// The cache that serves a request.
fn serving_cache(i: &FetchInputs) -> (r: Option<Cache>)
    ensures
        r == cache_for(*i),
{
    if i.needs_time {
        if i.has_full_cache {
            Some(Cache::Full)
        } else {
            None
        }
    } else if i.has_cache {
        Some(Cache::Abbreviated)
    } else {
        None
    }
}

fn on_lookup(i: &FetchInputs, found: bool, stale: bool) -> (r: Action)
    ensures
        r == after_lookup(*i, found, stale),
{
    if found {
        return Action::Finish { source: Source::Cache, permit: Permit::Cancelled };
    }
    let primer = (i.force_metadata_primer || i.default_registry) && i.primer_covers_cutoff;
    if primer && !stale {
        Action::AskPrimer
    } else {
        Action::Fetch(serving_cache(i))
    }
}

/// The first thing to do for a packument.
pub fn start(i: &FetchInputs) -> (r: Action)
    ensures
        r == first_action(*i),
{
    match serving_cache(i) {
        Some(c) => Action::Lookup(c),
        None => on_lookup(i, false, false),
    }
}

/// What to do for a packument after an event.
pub fn step(i: &FetchInputs, e: Event) -> (r: Action)
    ensures
        r == action_after(*i, e),
{
    match e {
        Event::LookedUp { found, stale } => on_lookup(i, found, stale),
        Event::PrimerAnswered { found } => if found {
            Action::UsePrimer { retarget: i.force_metadata_primer, seed: serving_cache(i) }
        } else {
            Action::Fetch(serving_cache(i))
        },
        Event::PrimerTaken => Action::Finish {
            source: Source::Primer,
            permit: Permit::Cancelled,
        },
        Event::Fetched => Action::Finish { source: Source::Network, permit: Permit::Success },
        Event::FetchFailed { throttled } => Action::Fail {
            permit: if throttled {
                Permit::Throttle
            } else {
                Permit::Cancelled
            },
        },
    }
}

/// What a caller is told about a packument: whether it holds only the part of the history
/// that the primer has.
pub fn is_from_primer(source: Source) -> (r: bool)
    ensures
        r == (source == Source::Primer),
{
    source == Source::Primer
}

/// Whether events are answers to the actions they follow, from the action `a` on.
pub open spec fn consistent(i: FetchInputs, a: Action, events: Seq<Event>) -> bool
    decreases events.len(),
{
    events.len() > 0 ==> answers(a, events[0]) && consistent(
        i,
        action_after(i, events[0]),
        events.skip(1),
    )
}

/// The action that a sequence of events leads to.
pub open spec fn reached(i: FetchInputs, a: Action, events: Seq<Event>) -> Action
    decreases events.len(),
{
    if events.len() == 0 {
        a
    } else {
        reached(i, action_after(i, events[0]), events.skip(1))
    }
}

/// Whether an action ends the fetch.
pub open spec fn is_end(a: Action) -> bool {
    a is Finish || a is Fail
}

/// How far an action is from the end.
pub open spec fn distance(a: Action) -> nat {
    match a {
        Action::Lookup(_) => 3,
        Action::AskPrimer => 2,
        Action::UsePrimer { .. } => 1,
        Action::Fetch(_) => 1,
        Action::Finish { .. } => 0,
        Action::Fail { .. } => 0,
    }
}

/// Every fetch ends, after at most three answers: each answer brings the end closer.
pub proof fn every_answer_brings_the_end_closer(i: FetchInputs, a: Action, e: Event)
    requires
        answers(a, e),
    ensures
        distance(action_after(i, e)) < distance(a),
        distance(a) <= 3,
        distance(a) == 0 <==> is_end(a),
{
}

/// A packument is said to be the primer's only if the primer was asked and had it; then no
/// cache entry was stale, and the registry was not asked.
pub proof fn primer_is_used_only_when_nothing_is_cached(
    i: FetchInputs,
    events: Seq<Event>,
    permit: Permit,
)
    requires
        consistent(i, first_action(i), events),
        reached(i, first_action(i), events) == (Action::Finish { source: Source::Primer, permit }),
    ensures
        permit == Permit::Cancelled,
        primer_applies(i),
        forall|k: int|
            0 <= k < events.len() ==> match #[trigger] events[k] {
                Event::LookedUp { found, stale } => !found && !stale,
                Event::PrimerAnswered { found } => found,
                Event::PrimerTaken => true,
                Event::Fetched => false,
                Event::FetchFailed { .. } => false,
            },
{
    lemma_primer_path(i, first_action(i), events, permit);
}

proof fn lemma_primer_path(i: FetchInputs, a: Action, events: Seq<Event>, permit: Permit)
    requires
        consistent(i, a, events),
        reached(i, a, events) == (Action::Finish { source: Source::Primer, permit }),
        a is AskPrimer ==> primer_applies(i),
        a is UsePrimer ==> primer_applies(i),
        a matches Action::Finish { source, permit } ==> source == Source::Primer ==> permit
            == Permit::Cancelled && primer_applies(i),
    ensures
        permit == Permit::Cancelled,
        primer_applies(i),
        forall|k: int|
            0 <= k < events.len() ==> match #[trigger] events[k] {
                Event::LookedUp { found, stale } => !found && !stale,
                Event::PrimerAnswered { found } => found,
                Event::PrimerTaken => true,
                Event::Fetched => false,
                Event::FetchFailed { .. } => false,
            },
    decreases events.len(),
{
    if events.len() > 0 {
        let e = events[0];
        let b = action_after(i, e);
        let rest = events.skip(1);
        assert(consistent(i, b, rest));
        if is_end(b) {
            assert(rest.len() == 0);
        }
        if b is Fetch && rest.len() > 0 {
            let c = action_after(i, rest[0]);
            assert(is_end(c) && consistent(i, c, rest.skip(1)));
            assert(rest.skip(1).len() == 0);
            assert(reached(i, c, rest.skip(1)) == c);
        }
        lemma_primer_path(i, b, rest, permit);
        assert forall|k: int| 0 <= k < events.len() implies match #[trigger] events[k] {
            Event::LookedUp { found, stale } => !found && !stale,
            Event::PrimerAnswered { found } => found,
            Event::PrimerTaken => true,
            Event::Fetched => false,
            Event::FetchFailed { .. } => false,
        } by {
            if k > 0 {
                assert(events[k] == rest[k - 1]);
            }
        }
    }
}

/// What the tarball of a version becomes.
pub open spec fn retargeted(v: VersionMetadata, url: Seq<char>, r: VersionMetadata) -> bool {
    &&& r.name@ == v.name@
    &&& r.version@ == v.version@
    &&& (v.dist is Some <==> r.dist is Some)
    &&& r.dist is Some ==> r.dist->0.tarball@ == url
}

/// Points the tarball of the `i`-th version of a packument at the `i`-th of `urls`; versions
/// without a tarball stay without one.
pub fn retarget_tarballs(packument: &mut Packument, urls: &Vec<String>)
    requires
        urls@.len() == old(packument).versions.pairs().len(),
    ensures
        final(packument).versions.pairs().len() == old(packument).versions.pairs().len(),
        forall|k: int|
            0 <= k < urls@.len() ==> {
                &&& (#[trigger] final(packument).versions.pairs()[k]).0 == old(
                    packument,
                ).versions.pairs()[k].0
                &&& retargeted(
                    old(packument).versions.pairs()[k].1,
                    urls@[k]@,
                    final(packument).versions.pairs()[k].1,
                )
            },
{
    let n = packument.versions.len();
    let ghost before = packument.versions.pairs();
    let mut i: usize = 0;
    while i < n
        invariant
            n == before.len(),
            urls@.len() == n,
            i <= n,
            packument.versions.pairs().len() == n,
            forall|k: int|
                0 <= k < i ==> {
                    &&& (#[trigger] packument.versions.pairs()[k]).0 == before[k].0
                    &&& retargeted(before[k].1, urls@[k]@, packument.versions.pairs()[k].1)
                },
            forall|k: int|
                i <= k < n ==> #[trigger] packument.versions.pairs()[k] == before[k],
        decreases n - i,
    {
        let v = packument.versions.value_at(i);
        let dist = match &v.dist {
            Some(_) => Some(Dist { tarball: urls[i].clone() }),
            None => None,
        };
        let new = VersionMetadata { name: v.name.clone(), version: v.version.clone(), dist };
        packument.versions.set_at(i, new);
        i = i + 1;
    }
}

/// The cache that serves a request is the full one where publication times are needed and the
/// other one where they are not, if it is there; nothing else decides.
pub proof fn requests_have_one_cache(i: FetchInputs)
    ensures
        cache_for(i) == Some(Cache::Full) <==> i.needs_time && i.has_full_cache,
        cache_for(i) == Some(Cache::Abbreviated) <==> !i.needs_time && i.has_cache,
{
}

/// With a cache it is looked up first, and what it has is returned at once. Where it has
/// nothing, not even something stale, or where there is no cache, the primer is asked, if it
/// is recent enough and serves this registry or every one. In all other cases the registry is
/// asked, through the cache, and it is asked too where the primer does not have the package.
pub proof fn packuments_come_from_the_nearest_place(i: FetchInputs)
    ensures
        cache_for(i) is Some ==> first_action(i) == Action::Lookup(cache_for(i)->0),
        cache_for(i) is None && i.primer_covers_cutoff && (i.force_metadata_primer
            || i.default_registry) ==> first_action(i) == Action::AskPrimer,
        cache_for(i) is None && (!i.primer_covers_cutoff || !i.force_metadata_primer
            && !i.default_registry) ==> first_action(i) == Action::Fetch(None),
        forall|stale: bool|
            #![trigger action_after(i, Event::LookedUp { found: true, stale })]
            action_after(i, Event::LookedUp { found: true, stale }) == (Action::Finish {
                source: Source::Cache,
                permit: Permit::Cancelled,
            }),
        i.primer_covers_cutoff && (i.force_metadata_primer || i.default_registry) ==> action_after(
            i,
            Event::LookedUp { found: false, stale: false },
        ) == Action::AskPrimer,
        !i.primer_covers_cutoff || !i.force_metadata_primer && !i.default_registry ==> action_after(
            i,
            Event::LookedUp { found: false, stale: false },
        ) == Action::Fetch(cache_for(i)),
        action_after(i, Event::LookedUp { found: false, stale: true }) == Action::Fetch(
            cache_for(i),
        ),
        action_after(i, Event::PrimerAnswered { found: false }) == Action::Fetch(cache_for(i)),
        action_after(i, Event::PrimerAnswered { found: true }) == (Action::UsePrimer {
            retarget: i.force_metadata_primer,
            seed: cache_for(i),
        }),
{
}

/// What comes of the network ends the fetch, and the permit says how it went: an answer is a
/// success, a failure slows down only where the registry asked for it, and what the cache or
/// the primer gave says nothing about the network.
pub proof fn permits_say_how_the_network_went(i: FetchInputs)
    ensures
        action_after(i, Event::PrimerTaken) == (Action::Finish {
            source: Source::Primer,
            permit: Permit::Cancelled,
        }),
        action_after(i, Event::Fetched) == (Action::Finish {
            source: Source::Network,
            permit: Permit::Success,
        }),
        action_after(i, Event::FetchFailed { throttled: true }) == (Action::Fail {
            permit: Permit::Throttle,
        }),
        action_after(i, Event::FetchFailed { throttled: false }) == (Action::Fail {
            permit: Permit::Cancelled,
        }),
{
}

/// Pointing a tarball elsewhere changes its URL and nothing else of the version.
pub proof fn only_the_tarball_changes(v: VersionMetadata, url: Seq<char>, r: VersionMetadata)
    requires
        retargeted(v, url, r),
    ensures
        r.name@ == v.name@,
        r.version@ == v.version@,
        v.dist is None ==> r.dist is None,
        v.dist is Some ==> r.dist is Some && r.dist->0.tarball@ == url,
{
}

} // verus!
