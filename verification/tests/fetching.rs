use aube::packument::{Dist, Packument, VersionMetadata};
use aube::packument_fetch::{
    is_from_primer, retarget_tarballs, start, step, Action, Cache, Event, FetchInputs, Permit,
    Source,
};
use aube::retry::{
    is_retriable_status, BodyRead, BodyRetry, BodyStep, SendRetry, SendStep, Sent, Wait,
};
use aube::text_map::TextMap;

const INPUTS: FetchInputs = FetchInputs {
    has_cache: true,
    has_full_cache: true,
    primer_covers_cutoff: true,
    force_metadata_primer: false,
    default_registry: true,
    needs_time: false,
};

fn answered(status: u16) -> Sent {
    Sent::Answered {
        status,
        retry_after: None,
    }
}

#[test]
fn server_errors_and_rate_limits_are_retried() {
    for s in [500, 502, 599, 429] {
        assert!(is_retriable_status(s));
    }
    for s in [200, 301, 400, 401, 403, 404, 600] {
        assert!(!is_retriable_status(s));
    }
}

#[test]
fn a_request_is_sent_once_more_per_retry() {
    let mut r = SendRetry::new(2);
    assert_eq!(r.step(answered(503)), SendStep::Again(Wait::Backoff(1)));
    assert_eq!(
        r.step(Sent::Answered {
            status: 429,
            retry_after: Some(2000)
        }),
        SendStep::Again(Wait::Asked(2000))
    );
    assert_eq!(r.step(answered(503)), SendStep::Finish);
    let mut r = SendRetry::new(2);
    assert_eq!(
        r.step(Sent::Failed { timeout: true }),
        SendStep::Again(Wait::Backoff(1))
    );
    assert_eq!(r.step(answered(404)), SendStep::Finish);
    let mut r = SendRetry::new(0);
    assert_eq!(r.step(Sent::Failed { timeout: false }), SendStep::Finish);
    assert_eq!(SendRetry::new(u32::MAX).max_attempts, u32::MAX);
}

#[test]
fn a_body_is_read_again_after_a_failure() {
    let mut r = BodyRetry::new(3, 1);
    assert_eq!(r.on_send(answered(200)), BodyStep::Read);
    assert_eq!(
        r.on_body(BodyRead::Failed { timeout: false }),
        BodyStep::Again(Wait::Backoff(1))
    );
    assert_eq!(r.on_send(answered(500)), BodyStep::Again(Wait::Backoff(2)));
    assert_eq!(r.on_send(answered(206)), BodyStep::Read);
    assert_eq!(r.on_body(BodyRead::Complete), BodyStep::Deliver);
}

#[test]
fn timeouts_have_an_allowance_of_their_own() {
    let mut r = BodyRetry::new(10, 1);
    assert_eq!(
        r.on_send(Sent::Failed { timeout: true }),
        BodyStep::Again(Wait::Backoff(1))
    );
    assert_eq!(r.on_send(answered(200)), BodyStep::Read);
    assert_eq!(r.on_body(BodyRead::Failed { timeout: true }), BodyStep::Fail);
}

#[test]
fn errors_and_oversized_bodies_fail_at_once() {
    let mut r = BodyRetry::new(5, 5);
    assert_eq!(r.on_send(answered(404)), BodyStep::Fail);
    let mut r = BodyRetry::new(5, 5);
    assert_eq!(r.on_send(answered(200)), BodyStep::Read);
    assert_eq!(r.on_body(BodyRead::Refused), BodyStep::Fail);
    let mut r = BodyRetry::new(0, 5);
    assert_eq!(r.on_send(answered(503)), BodyStep::Fail);
    assert_eq!(
        BodyRetry::new(0, 5).on_body(BodyRead::Failed { timeout: false }),
        BodyStep::Fail
    );
}

#[test]
fn a_cached_packument_is_used() {
    assert_eq!(start(&INPUTS), Action::Lookup(Cache::Abbreviated));
    let full = FetchInputs {
        needs_time: true,
        ..INPUTS
    };
    assert_eq!(start(&full), Action::Lookup(Cache::Full));
    assert_eq!(
        step(
            &INPUTS,
            Event::LookedUp {
                found: true,
                stale: false
            }
        ),
        Action::Finish {
            source: Source::Cache,
            permit: Permit::Cancelled
        }
    );
}

#[test]
fn the_primer_serves_what_is_not_cached() {
    let missing = Event::LookedUp {
        found: false,
        stale: false,
    };
    assert_eq!(step(&INPUTS, missing), Action::AskPrimer);
    assert_eq!(
        step(&INPUTS, Event::PrimerAnswered { found: true }),
        Action::UsePrimer {
            retarget: false,
            seed: Some(Cache::Abbreviated)
        }
    );
    assert_eq!(
        step(&INPUTS, Event::PrimerTaken),
        Action::Finish {
            source: Source::Primer,
            permit: Permit::Cancelled
        }
    );
    let other = FetchInputs {
        default_registry: false,
        ..INPUTS
    };
    assert_eq!(step(&other, missing), Action::Fetch(Some(Cache::Abbreviated)));
    let forced = FetchInputs {
        force_metadata_primer: true,
        has_cache: false,
        ..other
    };
    assert_eq!(start(&forced), Action::AskPrimer);
    assert_eq!(
        step(&forced, Event::PrimerAnswered { found: true }),
        Action::UsePrimer {
            retarget: true,
            seed: None
        }
    );
    let late = FetchInputs {
        primer_covers_cutoff: false,
        ..INPUTS
    };
    assert_eq!(step(&late, missing), Action::Fetch(Some(Cache::Abbreviated)));
}

#[test]
fn a_stale_entry_is_refreshed_from_the_registry() {
    let stale = Event::LookedUp {
        found: false,
        stale: true,
    };
    assert_eq!(step(&INPUTS, stale), Action::Fetch(Some(Cache::Abbreviated)));
    assert_eq!(
        step(&INPUTS, Event::PrimerAnswered { found: false }),
        Action::Fetch(Some(Cache::Abbreviated))
    );
    assert_eq!(
        step(&INPUTS, Event::Fetched),
        Action::Finish {
            source: Source::Network,
            permit: Permit::Success
        }
    );
    assert_eq!(
        step(&INPUTS, Event::FetchFailed { throttled: true }),
        Action::Fail {
            permit: Permit::Throttle
        }
    );
    assert_eq!(
        step(&INPUTS, Event::FetchFailed { throttled: false }),
        Action::Fail {
            permit: Permit::Cancelled
        }
    );
    assert!(is_from_primer(Source::Primer));
    assert!(!is_from_primer(Source::Network));
    assert!(!is_from_primer(Source::Cache));
}

#[test]
fn primer_tarballs_point_at_the_active_registry() {
    let version = |v: &str, dist: Option<&str>| VersionMetadata {
        name: "x".to_string(),
        version: v.to_string(),
        dist: dist.map(|t| Dist {
            tarball: t.to_string(),
        }),
    };
    let mut versions = TextMap::new();
    versions.insert("1.0.0".to_string(), version("1.0.0", Some("https://npm/x-1.0.0.tgz")));
    versions.insert("2.0.0".to_string(), version("2.0.0", None));
    let mut p = Packument { versions };
    retarget_tarballs(
        &mut p,
        &vec!["https://mine/x-1.0.0.tgz".to_string(), "https://mine/x-2.0.0.tgz".to_string()],
    );
    let one = p.versions.get("1.0.0").unwrap();
    assert_eq!(one.version, "1.0.0");
    assert_eq!(one.dist.as_ref().unwrap().tarball, "https://mine/x-1.0.0.tgz");
    assert!(p.versions.get("2.0.0").unwrap().dist.is_none());
}
