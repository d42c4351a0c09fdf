//! The dist-tag endpoints of a registry.

use crate::text;
use vstd::prelude::*;

verus! {

/// What a registry's answer can mean for a dist-tag request.
#[derive(Debug)]
pub enum Error {
    /// There is no such package.
    NotFound(String),
    /// The credentials were missing or not enough.
    Unauthorized,
}

/// A package name in a URL path: every slash percent-encoded.
pub open spec fn name_in_path(name: Seq<char>) -> Seq<char> {
    text::replaced(name, '/', "%2F"@)
}

/// The URL that lists the dist-tags of a package.
pub open spec fn dist_tags_at(registry: Seq<char>, name: Seq<char>) -> Seq<char> {
    text::trimmed_end(registry, '/') + "/-/package/"@ + name_in_path(name) + "/dist-tags"@
}

/// A package name in a URL path: every slash percent-encoded.
pub fn encoded_name(name: &str) -> (r: String)
    ensures
        r@ == name_in_path(name@),
{
    text::replace(name, '/', "%2F")
}

/// `{registry}/-/package/{name}/dist-tags`, which lists the tags.
pub fn dist_tag_root_url(registry_url: &str, name: &str) -> (r: String)
    ensures
        r@ == dist_tags_at(registry_url@, name@),
{
    let mut r = text::trim_end_matches(registry_url, '/');
    r.append("/-/package/");
    r.append(encoded_name(name).as_str());
    r.append("/dist-tags");
    r
}

/// `{registry}/-/package/{name}/dist-tags/{tag}`, which sets or removes one tag.
pub fn dist_tag_url(registry_url: &str, name: &str, tag: &str) -> (r: String)
    ensures
        r@ == dist_tags_at(registry_url@, name@) + "/"@ + tag@,
{
    let mut r = dist_tag_root_url(registry_url, name);
    r.append("/");
    r.append(tag);
    r
}

/// What the status of a dist-tag response means: 404 that the package is unknown, 401 and
/// 403 that the request was not authorized.
pub fn check_dist_tag_status(status: u16, name: &str) -> (r: Result<(), Error>)
    ensures
        match r {
            Ok(()) => status != 404 && status != 401 && status != 403,
            Err(Error::NotFound(n)) => status == 404 && n@ == name@,
            Err(Error::Unauthorized) => status == 401 || status == 403,
        },
{
    if status == 404 {
        Err(Error::NotFound(name.to_owned()))
    } else if status == 401 || status == 403 {
        Err(Error::Unauthorized)
    } else {
        Ok(())
    }
}

/// A name in a path holds no slash, so it is one path segment.
pub proof fn encoded_name_is_one_segment(name: Seq<char>)
    ensures
        !name_in_path(name).contains('/'),
    decreases name.len(),
{
    reveal_strlit("%2F");
    if name.len() > 0 {
        let front = name_in_path(name.drop_last());
        encoded_name_is_one_segment(name.drop_last());
        let whole = name_in_path(name);
        if whole.contains('/') {
            let i = whole.index_of('/');
            if i < front.len() {
                assert(front.contains(front[i]));
            }
        }
    }
}

/// The slashes of a name are encoded one by one, everything else stays.
pub proof fn slashes_are_encoded(a: Seq<char>, b: Seq<char>, c: char)
    ensures
        name_in_path(a + b) == name_in_path(a) + name_in_path(b),
        c == '/' ==> name_in_path(seq![c]) == seq!['%', '2', 'F'],
        c != '/' ==> name_in_path(seq![c]) == seq![c],
        name_in_path(Seq::empty()) == Seq::<char>::empty(),
{
    reveal_strlit("%2F");
    assert("%2F"@ == seq!['%', '2', 'F']);
    text::every_occurrence_is_replaced(a, b, c, '/', "%2F"@);
}

/// The tags of a package stand below the registry, however many slashes end its URL.
pub proof fn tags_stand_below_the_registry(registry: Seq<char>, n: nat, name: Seq<char>)
    requires
        registry.len() > 0 ==> registry.last() != '/',
    ensures
        dist_tags_at(registry + Seq::new(n, |i: int| '/'), name) == registry + "/-/package/"@
            + name_in_path(name) + "/dist-tags"@,
{
    text::trailing_characters_are_taken_off(registry, '/', n);
}

} // verus!
