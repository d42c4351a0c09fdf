//! Package names, alone and with a version spec.

use crate::text;
use vstd::prelude::*;

verus! {

/// Where the `@` between a name and a version stands, if there is one: the first `@` that is
/// not the first character.
pub open spec fn version_mark(s: Seq<char>) -> int {
    if s.len() == 0 {
        0
    } else {
        text::find_from(s, '@', 1)
    }
}

/// The name and the version spec of `name[@version]`.
pub open spec fn name_and_spec(s: Seq<char>) -> (Seq<char>, Option<Seq<char>>) {
    let i = version_mark(s);
    if i < s.len() {
        (s.take(i), Some(s.skip(i + 1)))
    } else {
        (s, None)
    }
}

/// A package name in a URL path: the slash of a scoped name percent-encoded, other names as
/// they are.
pub open spec fn encoded(name: Seq<char>) -> Seq<char> {
    match text::after_prefix(name, "@"@) {
        Some(rest) => match text::split_at_first(rest, '/') {
            Some((scope, pkg)) => "@"@ + scope + "%2F"@ + pkg,
            None => name,
        },
        None => name,
    }
}

/// Splits `name[@version]`. The `@` at the start of a scoped name is no separator.
pub fn split_name_spec(input: &str) -> (r: (&str, Option<&str>))
    ensures
        r.0@ == name_and_spec(input@).0,
        match r.1 {
            Some(s) => name_and_spec(input@).1 == Some(s@),
            None => name_and_spec(input@).1 is None,
        },
{
    let x = text::to_chars(input);
    if x.len() == 0 {
        return (input, None);
    }
    let mut i: usize = 1;
    while i < x.len() && x[i] != '@'
        invariant
            x@ == input@,
            1 <= i <= x@.len(),
            text::find_from(input@, '@', i as int) == text::find_from(input@, '@', 1),
        decreases x.len() - i,
    {
        i = i + 1;
    }
    if i == x.len() {
        return (input, None);
    }
    let name = input.substring_char(0, i);
    let spec = input.substring_char(i + 1, x.len());
    assert(input@.subrange(0, i as int) == input@.take(i as int));
    assert(input@.subrange(i + 1, input@.len() as int) == input@.skip(i + 1));
    (name, Some(spec))
}

/// A package name in a URL path: `@scope/name` becomes `@scope%2Fname`.
pub fn encode_package_name(name: &str) -> (r: String)
    ensures
        r@ == encoded(name@),
{
    if let Some(rest) = text::strip_prefix(name, "@") {
        if let Some((scope, pkg)) = text::split_once(rest.as_str(), '/') {
            let mut r = text::cat("@", scope.as_str());
            r.append("%2F");
            r.append(pkg.as_str());
            return r;
        }
    }
    name.to_owned()
}

/// A name that was joined with a version is split off again.
pub proof fn joined_name_is_split(name: Seq<char>, version: Seq<char>)
    requires
        name.len() > 0,
        forall|i: int| 1 <= i < name.len() ==> #[trigger] name[i] != '@',
    ensures
        name_and_spec(name + "@"@ + version) == (name, Some(version)),
{
    reveal_strlit("@");
    let s = name + "@"@ + version;
    assert forall|j: int| 1 <= j < name.len() implies #[trigger] s[j] != '@' by {
        assert(s[j] == name[j]);
    }
    text::lemma_find_at(s, '@', 1, name.len() as int);
    assert(s.take(name.len() as int) == name);
    assert(s.skip(name.len() as int + 1) == version);
}

/// A text without an `@` after its first character is a name without a version.
pub proof fn a_name_alone_has_no_version(name: Seq<char>)
    requires
        forall|i: int| 1 <= i < name.len() ==> #[trigger] name[i] != '@',
    ensures
        name_and_spec(name) == (name, None::<Seq<char>>),
{
    if name.len() > 0 {
        text::lemma_find_stops(name, '@', 1);
    }
}

/// In a URL the first slash of a scoped name is encoded and nothing else: every other name
/// stays as it is.
pub proof fn scoped_names_are_one_segment(scope: Seq<char>, pkg: Seq<char>, other: Seq<char>)
    requires
        !scope.contains('/'),
        other.len() == 0 || other[0] != '@' || !other.contains('/'),
    ensures
        encoded(seq!['@'] + scope + seq!['/'] + pkg) == seq!['@'] + scope + seq!['%', '2', 'F']
            + pkg,
        encoded(other) == other,
{
    reveal_strlit("@");
    reveal_strlit("%2F");
    let s = seq!['@'] + scope + seq!['/'] + pkg;
    assert(s.take(1) == "@"@);
    let rest = s.skip(1);
    assert forall|j: int| 0 <= j < scope.len() implies #[trigger] rest[j] != '/' by {
        assert(scope.contains(scope[j]));
    }
    text::lemma_find_at(rest, '/', 0, scope.len() as int);
    assert(rest.take(scope.len() as int) == scope);
    assert(rest.skip(scope.len() as int + 1) == pkg);
    assert("@"@ == seq!['@'] && "%2F"@ == seq!['%', '2', 'F']);
    if text::begins_with(other, "@"@) {
        assert(other.take(1)[0] == other[0]);
        let r = other.skip(1);
        text::lemma_find_stops(r, '/', 0);
        let f = text::find_from(r, '/', 0);
        if f < r.len() {
            assert(other.contains(other[f + 1]));
        }
    }
}

} // verus!
