//! Paths as text.
//!
//! How a path is read, and with which separator it is written, depends on the platform, so that
//! is left to the standard library. What its functions do is stated for both readings: the one
//! in which `/` alone separates components, and that of Windows, where `\` does too and a path
//! may start with a drive. Paths with two separators in front, which Windows reads in ways of
//! their own, are left out of the second one.

use crate::text;
use vstd::prelude::*;

verus! {

/// Whether a path starts at the root.
pub open spec fn is_absolute(p: Seq<char>) -> bool {
    p.len() > 0 && p[0] == '/'
}

/// A path below another: an absolute one stays as it is.
pub open spec fn joined_path(base: Seq<char>, rel: Seq<char>) -> Seq<char> {
    if is_absolute(rel) {
        rel
    } else if base.len() == 0 || base.last() == '/' {
        base + rel
    } else {
        base + "/"@ + rel
    }
}

/// The first `n` parts of a path as components: empty parts do not count, nor does `.` but
/// at the start of a relative path.
pub open spec fn kept_parts(parts: Seq<Seq<char>>, n: int) -> Seq<Seq<char>>
    decreases n,
{
    if n <= 0 {
        Seq::empty()
    } else if parts[n - 1].len() == 0 || parts[n - 1] == "."@ && n > 1 {
        kept_parts(parts, n - 1)
    } else {
        kept_parts(parts, n - 1).push(parts[n - 1])
    }
}

/// The components of a path.
pub open spec fn components(p: Seq<char>) -> Seq<Seq<char>> {
    let parts = text::parts_from(p, '/', 0);
    kept_parts(parts, parts.len() as int)
}

/// Whether a path is `base` or below it. Every path is below the empty one.
pub open spec fn is_under(p: Seq<char>, base: Seq<char>) -> bool {
    ||| !is_absolute(base) && components(base).len() == 0
    ||| is_absolute(p) == is_absolute(base) && components(base).len() <= components(p).len()
        && components(p).take(components(base).len() as int) == components(base)
}

/// Whether two texts write the same path, component by component.
pub open spec fn is_same_path(p: Seq<char>, q: Seq<char>) -> bool {
    is_absolute(p) == is_absolute(q) && components(p) == components(q)
}

/// The first `n` components of a path once each `..` has taken the component before it
/// away. At the root there is nothing to take away; above a relative path it stays.
pub open spec fn collapsed(cs: Seq<Seq<char>>, n: int, absolute: bool) -> Seq<Seq<char>>
    decreases n,
{
    if n <= 0 {
        Seq::empty()
    } else {
        let before = collapsed(cs, n - 1, absolute);
        let c = cs[n - 1];
        if c == "."@ {
            before
        } else if c == ".."@ {
            if before.len() > 0 && before.last() != ".."@ {
                before.drop_last()
            } else if absolute {
                before
            } else {
                before.push(c)
            }
        } else {
            before.push(c)
        }
    }
}

/// A path without `.` and, as far as possible, without `..`.
pub open spec fn normalized(p: Seq<char>) -> Seq<char> {
    let cs = components(p);
    let rest = text::joined(collapsed(cs, cs.len() as int, is_absolute(p)), "/"@);
    if is_absolute(p) {
        "/"@ + rest
    } else {
        rest
    }
}

/// A path in which the separators of another platform are slashes too.
pub open spec fn with_slashes(p: Seq<char>) -> Seq<char> {
    text::replaced(p, '\\', "/"@)
}

/// Whether a character is an ASCII letter.
pub open spec fn is_letter(c: char) -> bool {
    'a' <= c <= 'z' || 'A' <= c <= 'Z'
}

/// Whether a path starts with what Windows reads as a drive.
pub open spec fn has_drive(p: Seq<char>) -> bool {
    p.len() >= 2 && is_letter(p[0]) && p[1] == ':'
}

/// Whether a character separates components on Windows.
pub open spec fn is_separator(c: char) -> bool {
    c == '/' || c == '\\'
}

/// Whether a path begins with two separators of Windows.
pub open spec fn begins_doubly(p: Seq<char>) -> bool {
    p.len() >= 2 && is_separator(p[0]) && is_separator(p[1])
}

/// The drive that a path starts with, if any.
pub open spec fn drive_on(windows: bool, p: Seq<char>) -> Seq<char> {
    if windows && has_drive(p) {
        p.take(2)
    } else {
        Seq::empty()
    }
}

/// A path behind its drive, with slashes between its components.
pub open spec fn path_on(windows: bool, p: Seq<char>) -> Seq<char> {
    if windows {
        with_slashes(p.skip(drive_on(windows, p).len() as int))
    } else {
        p
    }
}

/// Whether a path starts at a root that no other path has to tell.
pub open spec fn is_absolute_on(windows: bool, p: Seq<char>) -> bool {
    is_absolute(path_on(windows, p)) && (windows ==> has_drive(p))
}

/// Whether every platform reads a path alike: it has neither the separators nor the prefixes
/// that only some know.
pub open spec fn reads_alike(p: Seq<char>) -> bool {
    !p.contains('\\') && !begins_doubly(p) && !has_drive(p)
}

/// Whether none of these components is written like a drive.
pub open spec fn no_drives(cs: Seq<Seq<char>>) -> bool {
    forall|i: int| 0 <= i < cs.len() ==> !has_drive(#[trigger] cs[i])
}

/// Whether every platform finds the same way from a path to another: both are read alike, both
/// or neither start at the root, and the way neither starts at `.` nor holds a component that is
/// written like a drive.
pub open spec fn are_comparable(p: Seq<char>, base: Seq<char>) -> bool {
    &&& reads_alike(p)
    &&& reads_alike(base)
    &&& is_absolute(p) == is_absolute(base)
    &&& components(base).len() > 0 ==> components(base)[0] != "."@
    &&& no_drives(components(p))
}

/// The end of the components that two paths share from the `i`th on.
pub open spec fn shared_from(a: Seq<Seq<char>>, b: Seq<Seq<char>>, i: int) -> int
    decreases a.len() - i,
{
    if 0 <= i < a.len() && i < b.len() && a[i] == b[i] {
        shared_from(a, b, i + 1)
    } else {
        i
    }
}

/// So many times the component `..`.
pub open spec fn ups(n: int) -> Seq<Seq<char>> {
    Seq::new(n as nat, |i: int| ".."@)
}

/// The way to the path with the components `a` from the one with the components `b`: up from
/// each component of `b` that they do not share, then down the rest of `a`. Where `b` itself
/// goes up before the way can go down, there is none.
pub open spec fn way_between(a: Seq<Seq<char>>, b: Seq<Seq<char>>) -> Option<Seq<Seq<char>>> {
    let c = shared_from(a, b, 0);
    if c < a.len() && c < b.len() && b[c] == ".."@ {
        None
    } else {
        Some(ups(b.len() - c) + a.skip(c))
    }
}

/// The way to a path from another, with slashes; it is empty from a path to itself.
pub open spec fn way_to(p: Seq<char>, base: Seq<char>) -> Option<Seq<char>> {
    match way_between(components(p), components(base)) {
        Some(way) => Some(text::joined(way, "/"@)),
        None => None,
    }
}

/// Writing separators as slashes changes no length and no other character.
pub proof fn lemma_with_slashes(p: Seq<char>)
    ensures
        with_slashes(p).len() == p.len(),
        forall|j: int|
            0 <= j < p.len() ==> #[trigger] with_slashes(p)[j] == (if p[j] == '\\' {
                '/'
            } else {
                p[j]
            }),
    decreases p.len(),
{
    reveal_strlit("/");
    if p.len() > 0 {
        lemma_with_slashes(p.drop_last());
    }
}

proof fn lemma_kept_is_part(parts: Seq<Seq<char>>, n: int, x: Seq<char>) -> (k: int)
    requires
        0 <= n <= parts.len(),
        kept_parts(parts, n).contains(x),
    ensures
        0 <= k < n,
        parts[k] == x,
    decreases n,
{
    let kept = kept_parts(parts, n);
    let at = kept.index_of(x);
    assert(kept[at] == x);
    let before = kept_parts(parts, n - 1);
    if parts[n - 1].len() == 0 || parts[n - 1] == "."@ && n > 1 {
        lemma_kept_is_part(parts, n - 1, x)
    } else if at == before.len() {
        n - 1
    } else {
        assert(before[at] == x);
        lemma_kept_is_part(parts, n - 1, x)
    }
}

/// A path without backslashes stays as it is.
pub proof fn lemma_slashes_stay(p: Seq<char>)
    requires
        !p.contains('\\'),
    ensures
        with_slashes(p) == p,
{
    lemma_with_slashes(p);
    assert forall|j: int| 0 <= j < p.len() implies with_slashes(p)[j] == p[j] by {
        assert(p.contains(p[j]));
    }
    assert(with_slashes(p) =~= p);
}

proof fn lemma_kept_all(parts: Seq<Seq<char>>, more: Seq<Seq<char>>, n: int)
    requires
        parts.len() > 0,
        0 <= n <= more.len(),
        forall|i: int|
            0 <= i < more.len() ==> (#[trigger] more[i]).len() > 0 && more[i] != "."@,
    ensures
        kept_parts(parts + more, parts.len() + n) == kept_parts(parts, parts.len() as int)
            + more.take(n),
    decreases n,
{
    let all = parts + more;
    if n == 0 {
        lemma_kept_prefix(parts, more, parts.len() as int);
        assert(kept_parts(parts, parts.len() as int) + more.take(0) == kept_parts(
            parts,
            parts.len() as int,
        ));
    } else {
        lemma_kept_all(parts, more, n - 1);
        assert(all[parts.len() + n - 1] == more[n - 1]);
        assert(more.take(n) == more.take(n - 1).push(more[n - 1]));
        assert(kept_parts(parts, parts.len() as int) + more.take(n) == (kept_parts(
            parts,
            parts.len() as int,
        ) + more.take(n - 1)).push(more[n - 1]));
    }
}

proof fn lemma_kept_prefix(parts: Seq<Seq<char>>, more: Seq<Seq<char>>, n: int)
    requires
        0 <= n <= parts.len(),
    ensures
        kept_parts(parts + more, n) == kept_parts(parts, n),
    decreases n,
{
    if n > 0 {
        lemma_kept_prefix(parts, more, n - 1);
        assert((parts + more)[n - 1] == parts[n - 1]);
    }
}

/// The components of a path that continues another by a relative path without empty parts
/// and `.`: those of the one and the parts of the other.
proof fn lemma_components_below(p: Seq<char>, rel: Seq<char>)
    requires
        forall|i: int|
            0 <= i < text::parts_from(rel, '/', 0).len() ==> (#[trigger] text::parts_from(
                rel,
                '/',
                0,
            )[i]).len() > 0 && text::parts_from(rel, '/', 0)[i] != "."@,
    ensures
        components(p + "/"@ + rel) == components(p) + text::parts_from(rel, '/', 0),
{
    reveal_strlit("/");
    assert("/"@ == seq!['/']);
    assert(p + "/"@ + rel == p.push('/') + rel);
    text::lemma_parts_join(p, rel, '/');
    let parts = text::parts_from(p, '/', 0);
    let more = text::parts_from(rel, '/', 0);
    text::lemma_find_stops(p, '/', 0);
    assert(parts.len() > 0);
    lemma_kept_all(parts, more, more.len() as int);
    assert(more.take(more.len() as int) == more);
}

proof fn lemma_collapsed_prefix(a: Seq<Seq<char>>, b: Seq<Seq<char>>, n: int, absolute: bool)
    requires
        0 <= n <= a.len(),
    ensures
        collapsed(a + b, n, absolute) == collapsed(a, n, absolute),
    decreases n,
{
    if n > 0 {
        lemma_collapsed_prefix(a, b, n - 1, absolute);
        assert((a + b)[n - 1] == a[n - 1]);
    }
}

/// What further components do depends only on what is left of those before.
proof fn lemma_collapsed_after(
    a: Seq<Seq<char>>,
    b: Seq<Seq<char>>,
    more: Seq<Seq<char>>,
    n: int,
    absolute: bool,
)
    requires
        0 <= n <= more.len(),
        collapsed(a, a.len() as int, absolute) == collapsed(b, b.len() as int, absolute),
    ensures
        collapsed(a + more, a.len() + n, absolute) == collapsed(b + more, b.len() + n, absolute),
    decreases n,
{
    if n == 0 {
        lemma_collapsed_prefix(a, more, a.len() as int, absolute);
        lemma_collapsed_prefix(b, more, b.len() as int, absolute);
    } else {
        lemma_collapsed_after(a, b, more, n - 1, absolute);
        assert((a + more)[a.len() + n - 1] == more[n - 1]);
        assert((b + more)[b.len() + n - 1] == more[n - 1]);
    }
}

proof fn lemma_single_part(name: Seq<char>)
    requires
        !name.contains('/'),
    ensures
        text::parts_from(name, '/', 0) == seq![name],
{
    assert forall|j: int| 0 <= j < name.len() implies #[trigger] name[j] != '/' by {
        assert(name.contains(name[j]));
    }
    text::lemma_find_at(name, '/', 0, name.len() as int);
    assert(name.skip(0) == name);
}

/// How far two paths share their components.
pub proof fn lemma_shared(a: Seq<Seq<char>>, b: Seq<Seq<char>>, i: int)
    requires
        0 <= i <= a.len(),
        i <= b.len(),
    ensures
        i <= shared_from(a, b, i) <= a.len(),
        shared_from(a, b, i) <= b.len(),
        forall|j: int| i <= j < shared_from(a, b, i) ==> #[trigger] a[j] == b[j],
    decreases a.len() - i,
{
    if i < a.len() && i < b.len() && a[i] == b[i] {
        lemma_shared(a, b, i + 1);
    }
}

/// Components that continue others share all of these.
pub proof fn lemma_shares_all(a: Seq<Seq<char>>, b: Seq<Seq<char>>, i: int)
    requires
        0 <= i <= b.len() <= a.len(),
        a.take(b.len() as int) == b,
    ensures
        shared_from(a, b, i) == b.len(),
    decreases b.len() - i,
{
    if i < b.len() {
        assert(a.take(b.len() as int)[i] == a[i]);
        lemma_shares_all(a, b, i + 1);
    }
}

proof fn lemma_kept_shape(parts: Seq<Seq<char>>, n: int)
    requires
        0 <= n <= parts.len(),
    ensures
        forall|i: int|
            0 <= i < kept_parts(parts, n).len() ==> (#[trigger] kept_parts(parts, n)[i]).len() > 0
                && (parts[0].len() == 0 ==> kept_parts(parts, n)[i] != "."@),
    decreases n,
{
    reveal_strlit(".");
    if n > 0 {
        lemma_kept_shape(parts, n - 1);
        let before = kept_parts(parts, n - 1);
        let kept = kept_parts(parts, n);
        assert forall|i: int| 0 <= i < kept.len() implies (#[trigger] kept[i]).len() > 0 && (
        parts[0].len() == 0 ==> kept[i] != "."@) by {
            if i < before.len() {
                assert(kept[i] == before[i]);
            }
        }
    }
}

/// A component is not empty and stands in the path, without a separator; `.` is none of those
/// of a path that starts at the root.
proof fn lemma_component(p: Seq<char>, i: int)
    requires
        0 <= i < components(p).len(),
    ensures
        components(p)[i].len() > 0,
        is_absolute(p) ==> components(p)[i] != "."@,
        !components(p)[i].contains('/'),
        forall|c: char| #[trigger] components(p)[i].contains(c) ==> p.contains(c),
{
    let parts = text::parts_from(p, '/', 0);
    let x = components(p)[i];
    lemma_kept_shape(parts, parts.len() as int);
    if is_absolute(p) {
        text::lemma_find_at(p, '/', 0, 0);
        assert(parts[0] == p.subrange(0, 0));
    }
    assert(components(p).contains(x));
    let k = lemma_kept_is_part(parts, parts.len() as int, x);
    let (a, b) = text::lemma_part_stands(p, '/', 0, k);
    assert forall|c: char| #[trigger] x.contains(c) implies p.contains(c) && c != '/' by {
        let j = x.index_of(c);
        assert(p[a + j] == x[j]);
    }
}

/// Texts without separators that are joined by them are the parts of what they make.
proof fn lemma_parts_of_joined(list: Seq<Seq<char>>)
    requires
        list.len() > 0,
        forall|i: int| 0 <= i < list.len() ==> !(#[trigger] list[i]).contains('/'),
    ensures
        text::parts_from(text::joined(list, "/"@), '/', 0) == list,
    decreases list.len(),
{
    reveal_strlit("/");
    lemma_single_part(list.last());
    if list.len() == 1 {
        assert(list == seq![list[0]]);
    } else {
        let front = list.drop_last();
        assert forall|i: int| 0 <= i < front.len() implies !(#[trigger] front[i]).contains('/') by {
            assert(front[i] == list[i]);
        }
        lemma_parts_of_joined(front);
        let j = text::joined(front, "/"@);
        assert(j + "/"@ + list.last() == j.push('/') + list.last());
        text::lemma_parts_join(j, list.last(), '/');
        assert(list == front + seq![list.last()]);
    }
}

proof fn lemma_joined_holds(list: Seq<Seq<char>>, c: char)
    requires
        c != '/',
        forall|i: int| 0 <= i < list.len() ==> !(#[trigger] list[i]).contains(c),
    ensures
        !text::joined(list, "/"@).contains(c),
    decreases list.len(),
{
    reveal_strlit("/");
    if list.len() > 1 {
        let front = list.drop_last();
        assert forall|i: int| 0 <= i < front.len() implies !(#[trigger] front[i]).contains(c) by {
            assert(front[i] == list[i]);
        }
        lemma_joined_holds(front, c);
        let j = text::joined(front, "/"@);
        let whole = text::joined(list, "/"@);
        if whole.contains(c) {
            let k = whole.index_of(c);
            if k < j.len() {
                assert(j.contains(j[k]));
            } else {
                assert(k > j.len());
                assert(list.last().contains(list.last()[k - j.len() - 1]));
            }
        }
    } else if list.len() == 1 {
        assert(!list[0].contains(c));
    }
}

/// What the components of a way look like.
proof fn lemma_way_shape(p: Seq<char>, base: Seq<char>, i: int)
    requires
        way_between(components(p), components(base)) is Some,
        0 <= i < way_between(components(p), components(base))->0.len(),
    ensures
        ({
            let x = way_between(components(p), components(base))->0[i];
            &&& x.len() > 0
            &&& is_absolute(p) ==> x != "."@
            &&& !x.contains('/')
            &&& !p.contains('\\') ==> !x.contains('\\')
            &&& no_drives(components(p)) ==> !has_drive(x)
        }),
{
    reveal_strlit(".");
    reveal_strlit("..");
    let a = components(p);
    let b = components(base);
    let c = shared_from(a, b, 0);
    lemma_shared(a, b, 0);
    let way = way_between(a, b)->0;
    let n = b.len() - c;
    if i < n {
        assert(way[i] == ".."@);
        assert("."@.len() == 1 && ".."@.len() == 2);
    } else {
        assert(way[i] == a[c + i - n]);
        lemma_component(p, c + i - n);
    }
}

/// No backslash is left among slashes.
pub proof fn lemma_no_backslashes(p: Seq<char>)
    ensures
        !with_slashes(p).contains('\\'),
{
    lemma_with_slashes(p);
    assert forall|i: int| 0 <= i < with_slashes(p).len() implies #[trigger] with_slashes(p)[i]
        != '\\' by {}
}

/// A way is written with slashes if the path is.
pub proof fn lemma_way_has_slashes(p: Seq<char>, base: Seq<char>)
    requires
        way_to(p, base) is Some,
        !p.contains('\\'),
    ensures
        with_slashes(way_to(p, base)->0) == way_to(p, base)->0,
{
    let way = way_between(components(p), components(base))->0;
    assert forall|i: int| 0 <= i < way.len() implies !(#[trigger] way[i]).contains('\\') by {
        lemma_way_shape(p, base, i);
    }
    lemma_joined_holds(way, '\\');
    lemma_slashes_stay(way_to(p, base)->0);
}

/// What texts that are joined by slashes begin with.
proof fn lemma_joined_first(list: Seq<Seq<char>>)
    requires
        list.len() > 0,
    ensures
        text::joined(list, "/"@).len() >= list[0].len(),
        text::joined(list, "/"@).take(list[0].len() as int) == list[0],
        list.len() == 1 ==> text::joined(list, "/"@) == list[0],
        list.len() > 1 ==> text::joined(list, "/"@).len() > list[0].len() && text::joined(
            list,
            "/"@,
        )[list[0].len() as int] == '/',
    decreases list.len(),
{
    reveal_strlit("/");
    let n = list[0].len() as int;
    if list.len() == 1 {
        assert(list[0].take(n) =~= list[0]);
    } else {
        let front = list.drop_last();
        lemma_joined_first(front);
        assert(front[0] == list[0]);
        let j = text::joined(front, "/"@);
        let whole = text::joined(list, "/"@);
        assert(whole.take(n) =~= j.take(n));
        if front.len() == 1 {
            assert(whole[n] == "/"@[0]);
        } else {
            assert(whole[n] == j[n]);
        }
    }
}

/// A way to a path is read alike if the path is and holds no component that is written like a
/// drive.
pub proof fn lemma_way_reads_alike(p: Seq<char>, base: Seq<char>)
    requires
        reads_alike(p),
        no_drives(components(p)),
        way_to(p, base) is Some,
    ensures
        reads_alike(way_to(p, base)->0),
{
    let way = way_between(components(p), components(base))->0;
    assert forall|i: int| 0 <= i < way.len() implies !(#[trigger] way[i]).contains('\\') by {
        lemma_way_shape(p, base, i);
    }
    lemma_joined_holds(way, '\\');
    let w = text::joined(way, "/"@);
    if way.len() > 0 {
        lemma_joined_first(way);
        lemma_way_shape(p, base, 0);
        let first = way[0];
        assert(w.take(first.len() as int)[0] == first[0]);
        assert(first.contains(first[0]));
        if first.len() > 1 {
            assert(w.take(first.len() as int)[1] == first[1]);
        }
        assert(w.contains(w[0]));
    }
}

proof fn lemma_kept_whole(list: Seq<Seq<char>>, n: int)
    requires
        0 <= n <= list.len(),
        forall|i: int| 0 <= i < list.len() ==> (#[trigger] list[i]).len() > 0 && list[i] != "."@,
    ensures
        kept_parts(list, n) == list.take(n),
    decreases n,
{
    if n > 0 {
        lemma_kept_whole(list, n - 1);
        assert(list[n - 1].len() > 0);
        assert(list.take(n) == list.take(n - 1).push(list[n - 1]));
    } else {
        assert(list.take(0) == Seq::<Seq<char>>::empty());
    }
}

/// The way to a path that starts at the root has the components that it was made of, and is
/// empty only if there are none.
pub proof fn lemma_components_of_way(p: Seq<char>, base: Seq<char>)
    requires
        is_absolute(p),
        way_to(p, base) is Some,
    ensures
        components(way_to(p, base)->0) == way_between(components(p), components(base))->0,
        way_to(p, base)->0.len() == 0 <==> way_between(components(p), components(base))->0.len()
            == 0,
        way_to(p, base)->0 != "."@,
        !is_absolute(way_to(p, base)->0),
{
    reveal_strlit(".");
    let way = way_between(components(p), components(base))->0;
    let rel = way_to(p, base)->0;
    assert forall|i: int| 0 <= i < way.len() implies (#[trigger] way[i]).len() > 0 && way[i]
        != "."@ && !way[i].contains('/') by {
        lemma_way_shape(p, base, i);
    }
    if way.len() == 0 {
        assert(text::parts_from(rel, '/', 0) == seq![rel]) by {
            lemma_single_part(rel);
        }
        assert(kept_parts(seq![rel], 1) == kept_parts(seq![rel], 0));
    } else {
        lemma_parts_of_joined(way);
        lemma_kept_whole(way, way.len() as int);
        assert(way.take(way.len() as int) == way);
        if rel.len() == 0 || is_absolute(rel) {
            if rel.len() == 0 {
                lemma_single_part(rel);
                assert(way[0] == rel);
            } else {
                text::lemma_find_at(rel, '/', 0, 0);
                assert(text::parts_from(rel, '/', 0)[0] == rel.subrange(0, 0));
                assert(way[0].len() == 0);
            }
        }
        if rel == "."@ {
            assert(!rel.contains('/'));
            lemma_single_part(rel);
            assert(way[0] == rel);
        }
    }
}

/// A separator at the end changes no component.
proof fn lemma_components_trailing(p: Seq<char>)
    ensures
        components(p.push('/')) == components(p),
{
    let parts = text::parts_from(p, '/', 0);
    let none = Seq::<char>::empty();
    assert(p.push('/') + none == p.push('/'));
    text::lemma_parts_join(p, none, '/');
    lemma_single_part(none);
    let all = parts + seq![none];
    lemma_kept_prefix(parts, seq![none], parts.len() as int);
    assert(all[parts.len() as int] == none);
    assert(kept_parts(all, parts.len() as int + 1) == kept_parts(all, parts.len() as int));
}

/// The components of a path joined to a directory below the root: those of both.
proof fn lemma_components_joined(base: Seq<char>, p: Seq<char>)
    requires
        is_absolute(base),
        is_absolute(p),
        way_to(p, base) is Some,
    ensures
        components(joined_path(base, way_to(p, base)->0)) == components(base) + way_between(
            components(p),
            components(base),
        )->0,
        is_absolute(joined_path(base, way_to(p, base)->0)),
{
    reveal_strlit("/");
    let rel = way_to(p, base)->0;
    let way = way_between(components(p), components(base))->0;
    lemma_components_of_way(p, base);
    let front = if base.last() == '/' {
        base.drop_last()
    } else {
        base
    };
    if base.last() == '/' {
        assert(front.push('/') == base);
        lemma_components_trailing(front);
    }
    assert(joined_path(base, rel) == front + "/"@ + rel);
    assert(front + "/"@ + rel == front.push('/') + rel);
    assert(is_absolute(joined_path(base, rel))) by {
        if front.len() > 0 {
            assert(front[0] == base[0]);
        }
        assert((front.push('/') + rel)[0] == front.push('/')[0]);
    }
    if way.len() == 0 {
        assert(front.push('/') + rel == front.push('/'));
        lemma_components_trailing(front);
        assert(components(base) + way == components(base));
    } else {
        assert forall|i: int| 0 <= i < way.len() implies (#[trigger] way[i]).len() > 0 && way[i]
            != "."@ && !way[i].contains('/') by {
            lemma_way_shape(p, base, i);
        }
        lemma_parts_of_joined(way);
        lemma_components_below(front, rel);
    }
}

/// Names that follow other components stay.
proof fn lemma_collapsed_names(pre: Seq<Seq<char>>, names: Seq<Seq<char>>, n: int, absolute: bool)
    requires
        0 <= n <= names.len(),
        forall|i: int|
            0 <= i < names.len() ==> #[trigger] names[i] != ".."@ && names[i] != "."@,
    ensures
        collapsed(pre + names, pre.len() + n, absolute) == collapsed(
            pre,
            pre.len() as int,
            absolute,
        ) + names.take(n),
    decreases n,
{
    let before = collapsed(pre, pre.len() as int, absolute);
    if n == 0 {
        lemma_collapsed_prefix(pre, names, pre.len() as int, absolute);
        assert(before + names.take(0) == before);
    } else {
        lemma_collapsed_names(pre, names, n - 1, absolute);
        assert((pre + names)[pre.len() + n - 1] == names[n - 1]);
        assert(before + names.take(n) == (before + names.take(n - 1)).push(names[n - 1]));
    }
}

/// Going up takes away one name after the other.
proof fn lemma_collapsed_ups(pre: Seq<Seq<char>>, names: Seq<Seq<char>>, n: int, absolute: bool)
    requires
        0 <= n <= names.len(),
        forall|i: int|
            0 <= i < names.len() ==> #[trigger] names[i] != ".."@ && names[i] != "."@,
    ensures
        collapsed(pre + names + ups(names.len() as int), pre.len() + names.len() + n, absolute)
            == collapsed(pre, pre.len() as int, absolute) + names.take(names.len() - n),
    decreases n,
{
    let before = collapsed(pre, pre.len() as int, absolute);
    let all = pre + names + ups(names.len() as int);
    let base = pre + names;
    if n == 0 {
        lemma_collapsed_names(pre, names, names.len() as int, absolute);
        lemma_collapsed_prefix(base, ups(names.len() as int), base.len() as int, absolute);
    } else {
        lemma_collapsed_ups(pre, names, n - 1, absolute);
        reveal_strlit(".");
        reveal_strlit("..");
        assert("."@.len() == 1 && ".."@.len() == 2);
        let k = names.len() - (n - 1);
        let so_far = before + names.take(k);
        assert(all[base.len() + n - 1] == ".."@);
        assert(so_far.last() == names[k - 1]);
        assert(so_far.drop_last() == before + names.take(k - 1));
    }
}

/// The way to a path, followed from the path where it starts, leads there: the normalized
/// result is the normalized path. Both start at the root, and the one where the way starts
/// holds no `..`.
pub proof fn ways_lead_there(p: Seq<char>, base: Seq<char>)
    requires
        is_absolute(p),
        is_absolute(base),
        !components(base).contains(".."@),
    ensures
        way_to(p, base) is Some,
        normalized(joined_path(base, way_to(p, base)->0)) == normalized(p),
{
    let a = components(p);
    let b = components(base);
    let c = shared_from(a, b, 0);
    lemma_shared(a, b, 0);
    if c < b.len() {
        assert(b.contains(b[c]));
    }
    let pre = b.take(c);
    let names = b.skip(c);
    let rest = a.skip(c);
    let way = way_between(a, b)->0;
    assert forall|i: int| 0 <= i < names.len() implies #[trigger] names[i] != ".."@ && names[i]
        != "."@ by {
        assert(names[i] == b[c + i]);
        assert(b.contains(b[c + i]));
        lemma_component(base, c + i);
    }
    lemma_components_joined(base, p);
    let up = pre + names + ups(names.len() as int);
    assert(b + way == up + rest) by {
        assert(pre + names == b);
    }
    assert(a == pre + rest) by {
        assert forall|i: int| 0 <= i < a.len() implies a[i] == (pre + rest)[i] by {
            if i < c {
                assert(a[i] == b[i]);
            }
        }
        assert(a =~= pre + rest);
    }
    lemma_collapsed_ups(pre, names, names.len() as int, true);
    let left = collapsed(pre, pre.len() as int, true);
    assert(left + names.take(0) == left);
    lemma_collapsed_after(up, pre, rest, rest.len() as int, true);
}

/// Paths with an empty way between them are the same.
pub proof fn lemma_empty_way(p: Seq<char>, base: Seq<char>)
    requires
        is_absolute(p),
        is_absolute(base),
        way_to(p, base) is Some,
        way_to(p, base)->0.len() == 0,
    ensures
        normalized(p) == normalized(base),
{
    let a = components(p);
    let b = components(base);
    let c = shared_from(a, b, 0);
    lemma_shared(a, b, 0);
    lemma_components_of_way(p, base);
    let way = way_between(a, b)->0;
    assert(way.len() == b.len() - c + (a.len() - c));
    assert(a =~= b);
}

/// On paths that are read alike, both readings are those of the text as it is.
pub proof fn lemma_reads_alike(windows: bool, p: Seq<char>)
    requires
        reads_alike(p),
    ensures
        drive_on(windows, p) == Seq::<char>::empty(),
        path_on(windows, p) == p,
{
    assert(p.skip(0) =~= p);
    lemma_slashes_stay(p);
}

/// Whether it is plain whether two paths are on one drive: letters that differ in case alone
/// are not.
pub open spec fn have_clear_drives(p: Seq<char>, q: Seq<char>) -> bool {
    text::ascii_lowered(drive_on(true, p)) == text::ascii_lowered(drive_on(true, q)) ==> drive_on(
        true,
        p,
    ) == drive_on(true, q)
}

/// Whether it is stated how a platform reads two paths together.
pub open spec fn says_both(windows: bool, p: Seq<char>, q: Seq<char>) -> bool {
    windows ==> !begins_doubly(p) && !begins_doubly(q) && have_clear_drives(p, q)
}

/// Whether a platform takes a path to be `base` or below it.
pub open spec fn is_under_on(windows: bool, p: Seq<char>, base: Seq<char>) -> bool {
    let b = path_on(windows, base);
    ||| drive_on(windows, base).len() == 0 && !is_absolute(b) && components(b).len() == 0
    ||| drive_on(windows, p) == drive_on(windows, base) && is_under(path_on(windows, p), b)
}

/// Whether a platform takes two texts to write the same path.
pub open spec fn is_same_on(windows: bool, p: Seq<char>, q: Seq<char>) -> bool {
    drive_on(windows, p) == drive_on(windows, q) && is_same_path(
        path_on(windows, p),
        path_on(windows, q),
    )
}

/// Whether this is what some platform says to whether a path is `base` or below it.
pub open spec fn reads_under(p: Seq<char>, base: Seq<char>, r: bool) -> bool {
    &&& p == base ==> r
    &&& r == is_under_on(false, p, base) || (says_both(true, p, base) ==> r == is_under_on(
        true,
        p,
        base,
    ))
}

/// Whether this is what some platform says to whether two texts write the same path.
pub open spec fn reads_same(p: Seq<char>, q: Seq<char>, r: bool) -> bool {
    &&& p == q ==> r
    &&& r == is_same_on(false, p, q) || (says_both(true, p, q) ==> r == is_same_on(true, p, q))
}

/// `std::path::Path::starts_with` on path texts: whether a path is `base` or below it, component
/// by component, as the platform reads both.
#[verifier::external_body]
pub(crate) fn starts_with(p: &str, base: &str) -> (r: bool)
    ensures
        reads_under(p@, base@, r),
{
    std::path::Path::new(p).starts_with(base)
}

/// `==` of `std::path::Path` on path texts: whether two texts write the same path, component by
/// component, as the platform reads both.
#[verifier::external_body]
pub(crate) fn same_path(p: &str, q: &str) -> (r: bool)
    ensures
        reads_same(p@, q@, r),
{
    std::path::Path::new(p) == std::path::Path::new(q)
}

/// On paths that are read alike every platform says the same.
pub proof fn lemma_alike_says_one(p: Seq<char>, q: Seq<char>, r: bool)
    requires
        reads_alike(p),
        reads_alike(q),
    ensures
        reads_under(p, q, r) ==> r == is_under(p, q),
        reads_same(p, q, r) ==> r == is_same_path(p, q),
{
    lemma_reads_alike(true, p);
    lemma_reads_alike(true, q);
}

/// The way to a path from another as a platform finds it, with slashes between its components.
/// A path that is absolute is reached from one that is not by its own text, and the other way
/// round there is no way. On another drive a path is reached by itself. On Windows a path may
/// start at the root without being absolute.
pub open spec fn way_on(windows: bool, p: Seq<char>, base: Seq<char>) -> Option<Seq<char>> {
    let a = path_on(windows, p);
    let b = path_on(windows, base);
    let from_root = "/"@ + text::joined(components(a), "/"@);
    if is_absolute_on(windows, p) != is_absolute_on(windows, base) {
        if is_absolute_on(windows, p) {
            Some(p)
        } else {
            None
        }
    } else if drive_on(windows, p) != drive_on(windows, base) {
        Some(drive_on(windows, p) + from_root)
    } else if is_absolute(a) == is_absolute(b) {
        way_to(a, b)
    } else if !is_absolute(a) {
        Some(text::joined(ups(components(b).len() as int + 1) + components(a), "/"@))
    } else if components(b).len() > 0 && components(b)[0] == ".."@ {
        None
    } else {
        Some(from_root)
    }
}

/// Whether it is stated which way a platform finds: it starts nowhere at `.`, no path is relative
/// to a drive, and no component is written like a drive.
pub open spec fn says_way(windows: bool, p: Seq<char>, base: Seq<char>) -> bool {
    let a = path_on(windows, p);
    let b = path_on(windows, base);
    &&& components(b).len() > 0 ==> components(b)[0] != "."@
    &&& says_both(windows, p, base)
    &&& windows ==> (has_drive(p) ==> is_absolute(a)) && (has_drive(base) ==> is_absolute(b))
        && no_drives(components(a))
}

/// Whether this is the way that a platform finds, with its separators.
pub open spec fn is_way_on(
    windows: bool,
    p: Seq<char>,
    base: Seq<char>,
    found: Option<Seq<char>>,
) -> bool {
    &&& p == base ==> found == Some(Seq::<char>::empty())
    &&& says_way(windows, p, base) ==> (if windows {
        match way_on(true, p, base) {
            Some(way) => found is Some && with_slashes(found->0) == with_slashes(way),
            None => found is None,
        }
    } else {
        found == way_on(false, p, base)
    })
}

/// Whether the separator that a platform writes is that of Windows.
pub open spec fn writes_backslashes(separator: char) -> bool {
    separator == '\\'
}

/// `pathdiff::diff_paths` on path texts: the way from `base` to `path`, if there is one, as the
/// platform reads both and writes it, and with it the separator that the platform writes.
#[verifier::external_body]
pub(crate) fn diff_paths(path: &str, base: &str) -> (r: (Option<String>, char))
    ensures
        is_separator(r.1),
        is_way_on(writes_backslashes(r.1), path@, base@, text::view_opt(r.0)),
{
    (
        pathdiff::diff_paths(path, base).map(|p| p.to_string_lossy().into_owned()),
        std::path::MAIN_SEPARATOR,
    )
}

/// Between comparable paths every platform finds the same way.
pub proof fn lemma_comparable_way(windows: bool, p: Seq<char>, base: Seq<char>)
    requires
        are_comparable(p, base),
    ensures
        says_way(windows, p, base),
        way_on(windows, p, base) == way_to(p, base),
        way_to(p, base) is Some ==> with_slashes(way_to(p, base)->0) == way_to(p, base)->0,
{
    lemma_reads_alike(windows, p);
    lemma_reads_alike(windows, base);
    lemma_reads_alike(true, p);
    lemma_reads_alike(true, base);
    if way_to(p, base) is Some {
        lemma_way_reads_alike(p, base);
        lemma_slashes_stay(way_to(p, base)->0);
    }
}

/// Whether `rel` does not continue a path, but takes the place of some of it: it starts at the
/// root or with a drive.
pub open spec fn takes_place(rel: Seq<char>) -> bool {
    has_drive(rel) || rel.len() > 0 && is_separator(rel[0])
}

/// The path `rel` below `base` on Windows: a path with a drive stays as it is, and one from the
/// root keeps the drive of `base`.
pub open spec fn windows_joined(base: Seq<char>, rel: Seq<char>) -> Seq<char> {
    if has_drive(rel) {
        rel
    } else if takes_place(rel) {
        drive_on(true, base) + rel
    } else if base.len() == 0 || is_separator(base.last()) {
        base + rel
    } else {
        base + "\\"@ + rel
    }
}

/// Whether it is stated how Windows joins two paths: neither begins with two separators, and
/// nothing follows a drive alone.
pub open spec fn says_joined(base: Seq<char>, rel: Seq<char>) -> bool {
    &&& !begins_doubly(base)
    &&& !begins_doubly(rel)
    &&& takes_place(rel) || !(has_drive(base) && base.len() == 2)
}

/// What `join` gives on some platform.
pub open spec fn joins(base: Seq<char>, rel: Seq<char>, r: Seq<char>) -> bool {
    r == joined_path(base, rel) || (says_joined(base, rel) ==> r == windows_joined(base, rel))
}

/// `std::path::Path::join` on path texts, as the platform reads and writes them.
#[verifier::external_body]
pub(crate) fn join(base: &str, rel: &str) -> (r: String)
    ensures
        joins(base@, rel@, r@),
{
    std::path::Path::new(base).join(rel).to_string_lossy().into_owned()
}

/// A path below another is read alike if both are.
pub proof fn lemma_joined_reads_alike(base: Seq<char>, rel: Seq<char>)
    requires
        reads_alike(base),
        reads_alike(rel),
    ensures
        reads_alike(joined_path(base, rel)),
{
    reveal_strlit("/");
    let j = joined_path(base, rel);
    assert forall|i: int| 0 <= i < j.len() implies #[trigger] j[i] != '\\' by {
        if is_absolute(rel) {
            assert(rel.contains(j[i]));
        } else if i < base.len() {
            assert(j[i] == base[i]);
            assert(base.contains(base[i]));
        } else {
            let k = i - (j.len() - rel.len());
            if k >= 0 {
                assert(j[i] == rel[k]);
                assert(rel.contains(rel[k]));
            }
        }
    }
}

/// Paths that are read alike are joined to one text but for the separator.
pub proof fn alike_paths_are_joined_to_one_text(base: Seq<char>, rel: Seq<char>, r: Seq<char>)
    requires
        reads_alike(base),
        reads_alike(rel),
        joins(base, rel, r),
    ensures
        r == joined_path(base, rel) || r == base + "\\"@ + rel,
        with_slashes(r) == joined_path(base, rel),
{
    let j = joined_path(base, rel);
    reveal_strlit("/");
    reveal_strlit("\\");
    lemma_joined_reads_alike(base, rel);
    lemma_reads_alike(true, base);
    if base.len() > 0 {
        assert(base.contains(base.last()));
    }
    if rel.len() > 0 {
        assert(rel.contains(rel[0]));
    }
    assert(says_joined(base, rel));
    lemma_with_slashes(r);
    assert forall|i: int| 0 <= i < j.len() implies #[trigger] with_slashes(r)[i] == j[i] by {
        assert(j.contains(j[i]));
    }
    assert(with_slashes(r) =~= j);
}

/// Whether a text is one by which the path `rel` below `base` can be read on every platform:
/// the two with a slash between them, or what Windows makes of them where `rel` takes the place
/// of some of `base`.
pub open spec fn is_read_as(base: Seq<char>, rel: Seq<char>, j: Seq<char>) -> bool {
    j == joined_path(base, rel) || (says_joined(base, rel) ==> takes_place(rel) && j
        == windows_joined(base, rel))
}

/// On paths that are read alike there is one such text.
pub proof fn lemma_read_as_one(base: Seq<char>, rel: Seq<char>, j: Seq<char>)
    requires
        reads_alike(base),
        reads_alike(rel),
        is_read_as(base, rel, j),
    ensures
        j == joined_path(base, rel),
        reads_alike(j),
{
    lemma_joined_reads_alike(base, rel);
    lemma_reads_alike(true, base);
    if rel.len() > 0 {
        assert(rel.contains(rel[0]));
    }
    assert(drive_on(true, base) + rel =~= rel);
}

/// Where a backslash is between the two, the path continues the base.
proof fn lemma_separated(base: Seq<char>, rel: Seq<char>, joined: Seq<char>)
    requires
        says_joined(base, rel),
        joins(base, rel, joined),
        joined == base + "\\"@ + rel || base.len() > 0 && base.last() == '\\' && joined == base
            + rel,
    ensures
        joined_path(base, rel) == base + "/"@ + rel,
{
    reveal_strlit("/");
    reveal_strlit("\\");
    let n = base.len() as int;
    if joined == base + "\\"@ + rel {
        assert(joined.len() == n + 1 + rel.len());
        assert(joined[n] == '\\');
        if joined == joined_path(base, rel) {
            assert(joined == base + "/"@ + rel);
            assert((base + "/"@ + rel)[n] == '/');
        }
        assert(joined == windows_joined(base, rel));
        if takes_place(rel) {
            assert(drive_on(true, base).len() <= 2);
            assert(n < 2 ==> drive_on(true, base).len() == 0);
        }
        assert(!takes_place(rel));
    } else {
        assert(joined.len() == n + rel.len());
        if takes_place(rel) && joined == windows_joined(base, rel) {
            assert(drive_on(true, base).len() == n);
            assert(joined[n - 1] == base[n - 1]);
            assert(has_drive(base));
            assert(base.last() == ':');
        }
        if joined == joined_path(base, rel) {
            if is_absolute(rel) {
                assert(joined.len() == rel.len());
            } else {
                assert((base + "/"@ + rel).len() == n + 1 + rel.len());
            }
        }
        assert(!takes_place(rel));
    }
}

/// The text by which a joined path is read.
pub(crate) fn joined_to_read(base: &str, rel: &str, joined: String) -> (r: String)
    requires
        joins(base@, rel@, joined@),
    ensures
        is_read_as(base@, rel@, r@),
{
    let x = text::to_chars(base);
    let mut by_backslash = text::cat(base, "\\");
    by_backslash.append(rel);
    let mut by_slash = text::cat(base, "/");
    by_slash.append(rel);
    let direct = text::cat(base, rel);
    proof {
        reveal_strlit("/");
        reveal_strlit("\\");
    }
    if text::same_text(joined.as_str(), by_backslash.as_str()) || x.len() > 0 && x[x.len() - 1]
        == '\\' && text::same_text(joined.as_str(), direct.as_str()) {
        proof {
            if says_joined(base@, rel@) {
                lemma_separated(base@, rel@, joined@);
            }
        }
        by_slash
    } else {
        joined
    }
}

/// A part of a path.
#[derive(Debug, PartialEq, Eq)]
pub enum Part {
    /// What comes before the root on some platforms, such as a drive.
    Prefix(String),
    /// The root.
    Root,
    /// `.`.
    Here,
    /// `..`.
    Up,
    Name(String),
}

/// What a part of a path is.
pub enum PartModel {
    Prefix(Seq<char>),
    Root,
    Here,
    Up,
    Name(Seq<char>),
}

impl View for Part {
    type V = PartModel;

    open spec fn view(&self) -> PartModel {
        match *self {
            Part::Prefix(t) => PartModel::Prefix(t@),
            Part::Root => PartModel::Root,
            Part::Here => PartModel::Here,
            Part::Up => PartModel::Up,
            Part::Name(t) => PartModel::Name(t@),
        }
    }
}

/// What the parts of a list are.
pub open spec fn part_views(v: Seq<Part>) -> Seq<PartModel> {
    Seq::new(v.len(), |i: int| v[i]@)
}

/// The part that a component is.
pub open spec fn part_of(c: Seq<char>) -> PartModel {
    if c == "."@ {
        PartModel::Here
    } else if c == ".."@ {
        PartModel::Up
    } else {
        PartModel::Name(c)
    }
}

/// What comes before the components of a path: the drive and the root, as far as they are there.
pub open spec fn front_parts(drive: Seq<char>, rooted: bool) -> Seq<PartModel> {
    (if drive.len() > 0 {
        seq![PartModel::Prefix(drive)]
    } else {
        Seq::empty()
    }) + (if rooted {
        seq![PartModel::Root]
    } else {
        Seq::empty()
    })
}

/// The parts of a path with these components.
pub open spec fn parts_of(drive: Seq<char>, rooted: bool, cs: Seq<Seq<char>>) -> Seq<PartModel> {
    front_parts(drive, rooted) + Seq::new(cs.len(), |i: int| part_of(cs[i]))
}

/// The parts of a path as a platform reads it.
pub open spec fn parts_on(windows: bool, p: Seq<char>) -> Seq<PartModel> {
    let rest = path_on(windows, p);
    parts_of(drive_on(windows, p), is_absolute(rest), components(rest))
}

/// The first `n` parts of a path once each `..` has taken the name before it away. At the root
/// there is nothing to take away; where there is no root it stays.
pub open spec fn collapsed_parts(ps: Seq<PartModel>, n: int) -> Seq<PartModel>
    decreases n,
{
    if n <= 0 {
        Seq::empty()
    } else {
        let before = collapsed_parts(ps, n - 1);
        match ps[n - 1] {
            PartModel::Here => before,
            PartModel::Up => if before.len() > 0 && before.last() is Name {
                before.drop_last()
            } else if before.len() > 0 && before.last() is Root {
                before
            } else {
                before.push(ps[n - 1])
            },
            _ => before.push(ps[n - 1]),
        }
    }
}

/// How a part is written; the root is a separator.
pub open spec fn part_text(part: PartModel, separator: Seq<char>) -> Seq<char> {
    match part {
        PartModel::Prefix(t) => t,
        PartModel::Root => separator,
        PartModel::Here => "."@,
        PartModel::Up => ".."@,
        PartModel::Name(t) => t,
    }
}

/// Whether the `i`th part follows those before without a separator: the first one does, the
/// root does, and so does what comes next after a prefix or the root.
pub open spec fn follows_directly(ps: Seq<PartModel>, i: int) -> bool {
    i <= 0 || ps[i] is Prefix || ps[i] is Root || ps[i - 1] is Prefix || ps[i - 1] is Root
}

/// The first `n` parts as text.
pub open spec fn written(ps: Seq<PartModel>, n: int, separator: Seq<char>) -> Seq<char>
    decreases n,
{
    if n <= 0 {
        Seq::empty()
    } else if follows_directly(ps, n - 1) {
        written(ps, n - 1, separator) + part_text(ps[n - 1], separator)
    } else {
        written(ps, n - 1, separator) + separator + part_text(ps[n - 1], separator)
    }
}

/// A path without `.` and, as far as possible, without `..`, as a platform reads and writes it.
pub open spec fn normalized_on(windows: bool, p: Seq<char>) -> Seq<char> {
    if windows {
        drive_on(true, p) + text::replaced(normalized(path_on(true, p)), '/', "\\"@)
    } else {
        normalized(p)
    }
}

/// What `normalize_lexical` gives on some platform.
pub open spec fn normalizes(p: Seq<char>, r: Seq<char>) -> bool {
    r == normalized_on(false, p) || (!begins_doubly(p) ==> r == normalized_on(true, p))
}

/// `std::path::Path::components` on a path text: its parts in order, as the platform reads it,
/// and with them the separator that the platform writes.
#[verifier::external_body]
fn path_parts(p: &str) -> (r: (Vec<Part>, char))
    ensures
        is_separator(r.1),
        writes_backslashes(r.1) && begins_doubly(p@) || part_views(r.0@) == parts_on(
            writes_backslashes(r.1),
            p@,
        ),
{
    let parts = std::path::Path::new(p).components().map(
        |c| match c {
            std::path::Component::Prefix(x) => Part::Prefix(
                x.as_os_str().to_string_lossy().into_owned(),
            ),
            std::path::Component::RootDir => Part::Root,
            std::path::Component::CurDir => Part::Here,
            std::path::Component::ParentDir => Part::Up,
            std::path::Component::Normal(x) => Part::Name(x.to_string_lossy().into_owned()),
        },
    ).collect();
    (parts, std::path::MAIN_SEPARATOR)
}

/// Parts without `.` and, as far as possible, without `..`.
pub fn collapse(parts: Vec<Part>) -> (r: Vec<Part>)
    ensures
        part_views(r@) == collapsed_parts(part_views(parts@), parts@.len() as int),
{
    let ghost all = part_views(parts@);
    let mut r: Vec<Part> = Vec::new();
    for part in it: parts
        invariant
            it.seq() == parts@,
            all == part_views(parts@),
            part_views(r@) == collapsed_parts(all, it.index()),
    {
        let ghost before = r@;
        let ghost v = part@;
        assert(all[it.index() as int] == v);
        match part {
            Part::Here => {},
            Part::Up => {
                let n = r.len();
                let (name, root) = if n == 0 {
                    (false, false)
                } else {
                    assert(part_views(before).last() == before.last()@);
                    match &r[n - 1] {
                        Part::Name(_) => (true, false),
                        Part::Root => (false, true),
                        _ => (false, false),
                    }
                };
                if name {
                    r.pop();
                    assert(part_views(r@) == part_views(before).drop_last());
                } else if !root {
                    r.push(part);
                    assert(part_views(r@) == part_views(before).push(v));
                }
            },
            _ => {
                r.push(part);
                assert(part_views(r@) == part_views(before).push(v));
            },
        }
    }
    r
}

/// Whether the `i`th part follows those before without a separator.
fn is_direct(parts: &Vec<Part>, i: usize) -> (r: bool)
    requires
        i < parts@.len(),
    ensures
        r == follows_directly(part_views(parts@), i as int),
{
    let ghost all = part_views(parts@);
    if i == 0 {
        return true;
    }
    assert(all[i as int] == parts@[i as int]@ && all[i - 1] == parts@[i - 1]@);
    let starts = match &parts[i] {
        Part::Prefix(_) => true,
        Part::Root => true,
        _ => false,
    };
    let after_start = match &parts[i - 1] {
        Part::Prefix(_) => true,
        Part::Root => true,
        _ => false,
    };
    starts || after_start
}

/// The path that is written by these parts.
pub fn write_parts(parts: &Vec<Part>, separator: &str) -> (r: String)
    ensures
        r@ == written(part_views(parts@), parts@.len() as int, separator@),
{
    let ghost all = part_views(parts@);
    let mut r = String::new();
    let mut i: usize = 0;
    while i < parts.len()
        invariant
            i <= parts@.len(),
            all == part_views(parts@),
            r@ == written(all, i as int, separator@),
        decreases parts.len() - i,
    {
        assert(all[i as int] == parts@[i as int]@);
        if !is_direct(parts, i) {
            r.append(separator);
        }
        let t: &str = match &parts[i] {
            Part::Prefix(t) => t.as_str(),
            Part::Root => separator,
            Part::Here => ".",
            Part::Up => "..",
            Part::Name(t) => t.as_str(),
        };
        r.append(t);
        i = i + 1;
    }
    r
}

/// Collapsing the parts of a path is collapsing its components.
proof fn lemma_collapsed_parts(drive: Seq<char>, rooted: bool, cs: Seq<Seq<char>>, n: int)
    requires
        0 <= n <= cs.len(),
    ensures
        collapsed_parts(
            parts_of(drive, rooted, cs),
            front_parts(drive, rooted).len() as int + n,
        ) == parts_of(drive, rooted, collapsed(cs, n, rooted)),
        forall|i: int|
            0 <= i < collapsed(cs, n, rooted).len() ==> #[trigger] collapsed(cs, n, rooted)[i]
                != "."@ && (rooted ==> collapsed(cs, n, rooted)[i] != ".."@),
    decreases n,
{
    let ps = parts_of(drive, rooted, cs);
    let off = front_parts(drive, rooted).len() as int;
    let kept = collapsed(cs, n, rooted);
    if n == 0 {
        reveal_with_fuel(collapsed_parts, 3);
        assert(collapsed_parts(ps, off) =~= parts_of(drive, rooted, kept));
    } else {
        lemma_collapsed_parts(drive, rooted, cs, n - 1);
        let c = cs[n - 1];
        assert(ps[off + n - 1] == part_of(c));
        let before = collapsed(cs, n - 1, rooted);
        let before_parts = parts_of(drive, rooted, before);
        if before.len() > 0 {
            assert(before_parts.last() == part_of(before.last()));
            assert(before[before.len() - 1] != "."@);
        } else if rooted {
            assert(before_parts.last() is Root);
        } else if drive.len() > 0 {
            assert(before_parts.last() is Prefix);
        }
        assert forall|i: int| 0 <= i < kept.len() implies #[trigger] kept[i] != "."@ && (rooted
            ==> kept[i] != ".."@) by {
            if i < before.len() {
                assert(before[i] != "."@);
            }
        }
        assert(collapsed_parts(ps, off + n) =~= parts_of(drive, rooted, kept));
    }
}

/// The parts of a path are written with separators between the components.
proof fn lemma_written(drive: Seq<char>, rooted: bool, cs: Seq<Seq<char>>, n: int, sep: Seq<char>)
    requires
        0 <= n <= cs.len(),
    ensures
        written(parts_of(drive, rooted, cs), front_parts(drive, rooted).len() as int + n, sep)
            == drive + (if rooted {
            sep
        } else {
            Seq::empty()
        }) + text::joined(cs.take(n), sep),
    decreases n,
{
    let ps = parts_of(drive, rooted, cs);
    let off = front_parts(drive, rooted).len() as int;
    let front = drive + (if rooted {
        sep
    } else {
        Seq::empty()
    });
    if n == 0 {
        assert(cs.take(0) =~= Seq::empty());
        reveal_with_fuel(written, 3);
        if drive.len() > 0 {
            assert(ps[0] == PartModel::Prefix(drive));
        }
        if rooted {
            assert(ps[off - 1] == PartModel::Root);
        }
        assert(written(ps, off, sep) =~= front);
        assert(front + text::joined(cs.take(0), sep) =~= front);
    } else {
        lemma_written(drive, rooted, cs, n - 1, sep);
        let at = off + n - 1;
        let c = cs[n - 1];
        assert(ps[at] == part_of(c));
        assert(part_text(part_of(c), sep) == c);
        assert(cs.take(n).drop_last() =~= cs.take(n - 1));
        assert(cs.take(n).last() == c);
        if n == 1 {
            assert(cs.take(0) =~= Seq::empty());
            assert(cs.take(1)[0] == c);
            if rooted {
                assert(ps[off - 1] is Root);
            } else if drive.len() > 0 {
                assert(ps[off - 1] is Prefix);
            }
            assert(follows_directly(ps, at));
            assert(written(ps, at, sep) =~= front);
        } else {
            assert(ps[at - 1] == part_of(cs[n - 2]));
            assert(!follows_directly(ps, at));
            assert(front + text::joined(cs.take(n - 1), sep) + sep + c =~= front + (text::joined(
                cs.take(n - 1),
                sep,
            ) + sep + c));
        }
    }
}

proof fn lemma_collapsed_is_component(cs: Seq<Seq<char>>, n: int, absolute: bool)
    requires
        0 <= n <= cs.len(),
    ensures
        forall|i: int|
            0 <= i < collapsed(cs, n, absolute).len() ==> cs.contains(
                #[trigger] collapsed(cs, n, absolute)[i],
            ),
    decreases n,
{
    if n > 0 {
        lemma_collapsed_is_component(cs, n - 1, absolute);
        let before = collapsed(cs, n - 1, absolute);
        let kept = collapsed(cs, n, absolute);
        assert forall|i: int| 0 <= i < kept.len() implies cs.contains(#[trigger] kept[i]) by {
            if i < before.len() {
                assert(kept[i] == before[i]);
            } else {
                assert(kept[i] == cs[n - 1]);
            }
        }
    }
}

proof fn lemma_replaced_concat(a: Seq<char>, b: Seq<char>, c: char, with: Seq<char>)
    ensures
        text::replaced(a + b, c, with) == text::replaced(a, c, with) + text::replaced(b, c, with),
    decreases b.len(),
{
    if b.len() == 0 {
        assert(a + b =~= a);
        assert(text::replaced(a, c, with) + b =~= text::replaced(a, c, with));
    } else {
        lemma_replaced_concat(a, b.drop_last(), c, with);
        assert((a + b).drop_last() =~= a + b.drop_last());
        assert((a + b).last() == b.last());
        assert(text::replaced(a + b, c, with) =~= text::replaced(a, c, with) + text::replaced(
            b,
            c,
            with,
        ));
    }
}

proof fn lemma_replaced_char(x: char, c: char, with: Seq<char>)
    ensures
        text::replaced(seq![x], c, with) == (if x == c {
            with
        } else {
            seq![x]
        }),
{
    reveal_with_fuel(text::replaced, 2);
    let s = seq![x];
    assert(s.drop_last() =~= Seq::empty());
    assert(text::replaced(s.drop_last(), c, with) =~= Seq::empty());
    assert(Seq::<char>::empty() + with =~= with);
    assert(Seq::<char>::empty().push(x) =~= s);
}

proof fn lemma_replaced_nothing(s: Seq<char>, c: char, with: Seq<char>)
    requires
        !s.contains(c),
    ensures
        text::replaced(s, c, with) == s,
    decreases s.len(),
{
    if s.len() > 0 {
        let front = s.drop_last();
        assert forall|i: int| 0 <= i < front.len() implies front[i] != c by {
            assert(s.contains(s[i]));
        }
        assert(s.contains(s.last()));
        lemma_replaced_nothing(front, c, with);
        assert(front.push(s.last()) =~= s);
    }
}

/// Writing the separators between texts without any as others.
proof fn lemma_replaced_joined(list: Seq<Seq<char>>, with: Seq<char>)
    requires
        forall|i: int| 0 <= i < list.len() ==> !(#[trigger] list[i]).contains('/'),
    ensures
        text::replaced(text::joined(list, "/"@), '/', with) == text::joined(list, with),
    decreases list.len(),
{
    reveal_strlit("/");
    if list.len() == 1 {
        lemma_replaced_nothing(list[0], '/', with);
    } else if list.len() > 1 {
        let front = list.drop_last();
        assert forall|i: int| 0 <= i < front.len() implies !(#[trigger] front[i]).contains('/') by {
            assert(front[i] == list[i]);
        }
        lemma_replaced_joined(front, with);
        let last = list[list.len() - 1];
        let j = text::joined(front, "/"@);
        lemma_replaced_concat(j + "/"@, last, '/', with);
        lemma_replaced_concat(j, "/"@, '/', with);
        lemma_replaced_nothing(last, '/', with);
        assert("/"@ =~= seq!['/']);
        lemma_replaced_char('/', '/', with);
    }
}

/// What is written by the collapsed parts of a path, as a platform reads and writes it.
proof fn lemma_writes_normalized(windows: bool, p: Seq<char>)
    ensures
        ({
            let kept = collapsed_parts(parts_on(windows, p), parts_on(windows, p).len() as int);
            written(
                kept,
                kept.len() as int,
                if windows {
                    "\\"@
                } else {
                    "/"@
                },
            ) == normalized_on(windows, p)
        }),
{
    let drive = drive_on(windows, p);
    let rest = path_on(windows, p);
    let rooted = is_absolute(rest);
    let cs = components(rest);
    let n = cs.len() as int;
    let sep = if windows {
        "\\"@
    } else {
        "/"@
    };
    let names = collapsed(cs, n, rooted);
    let ps = parts_on(windows, p);
    assert(ps.len() == front_parts(drive, rooted).len() + n);
    lemma_collapsed_parts(drive, rooted, cs, n);
    let kept = parts_of(drive, rooted, names);
    assert(kept.len() == front_parts(drive, rooted).len() + names.len());
    lemma_written(drive, rooted, names, names.len() as int, sep);
    assert(names.take(names.len() as int) =~= names);
    let joined = text::joined(names, "/"@);
    let lead = if rooted {
        "/"@
    } else {
        Seq::empty()
    };
    assert(normalized(rest) =~= lead + joined);
    if windows {
        lemma_collapsed_is_component(cs, n, rooted);
        assert forall|i: int| 0 <= i < names.len() implies !(#[trigger] names[i]).contains('/') by {
            assert(cs.contains(names[i]));
            let k = cs.index_of(names[i]);
            assert(cs[k] == names[i]);
            lemma_component(rest, k);
        }
        lemma_replaced_joined(names, sep);
        lemma_replaced_concat(lead, joined, '/', sep);
        reveal_strlit("/");
        assert("/"@ =~= seq!['/']);
        lemma_replaced_char('/', '/', sep);
        assert(drive + (if rooted {
            sep
        } else {
            Seq::empty()
        }) + text::joined(names, sep) =~= normalized_on(true, p));
    } else {
        assert(drive + lead + joined =~= normalized(p));
    }
}

/// A normalized path has no backslash that the path does not have.
proof fn lemma_normalized_plain(p: Seq<char>)
    requires
        !p.contains('\\'),
    ensures
        !normalized(p).contains('\\'),
{
    let cs = components(p);
    let n = cs.len() as int;
    let names = collapsed(cs, n, is_absolute(p));
    let x = normalized(p);
    reveal_strlit("/");
    lemma_collapsed_is_component(cs, n, is_absolute(p));
    assert forall|i: int| 0 <= i < names.len() implies !(#[trigger] names[i]).contains('\\') by {
        assert(cs.contains(names[i]));
        let k = cs.index_of(names[i]);
        assert(cs[k] == names[i]);
        lemma_component(p, k);
    }
    lemma_joined_holds(names, '\\');
    let joined = text::joined(names, "/"@);
    assert forall|i: int| 0 <= i < x.len() implies #[trigger] x[i] != '\\' by {
        let k = if is_absolute(p) {
            i - 1
        } else {
            i
        };
        if k >= 0 {
            assert(joined.contains(joined[k]));
        }
    }
}

/// A path that is read alike is normalized to one text but for the separators.
pub proof fn lemma_normalized_alike(p: Seq<char>, r: Seq<char>)
    requires
        reads_alike(p),
        normalizes(p, r),
    ensures
        with_slashes(r) == normalized(p),
{
    lemma_reads_alike(true, p);
    lemma_normalized_plain(p);
    let x = normalized(p);
    if r == x {
        lemma_slashes_stay(x);
    } else {
        assert(r =~= text::replaced(x, '/', "\\"@));
        lemma_slashes_undone(x);
    }
}

/// On Windows too the way to a path, followed from where it starts, leads there. Both paths are
/// absolute and on one drive, and the one where the way starts holds no `..`.
pub proof fn ways_lead_there_on_drives(p: Seq<char>, base: Seq<char>, read: Seq<char>)
    requires
        is_absolute_on(true, p),
        is_absolute_on(true, base),
        drive_on(true, p) == drive_on(true, base),
        says_way(true, p, base),
        !components(path_on(true, base)).contains(".."@),
        way_on(true, p, base) is Some,
        is_read_as(base, way_on(true, p, base)->0, read),
    ensures
        with_slashes(normalized_on(true, read)) == drive_on(true, p) + normalized(
            path_on(true, p),
        ),
{
    let a = path_on(true, p);
    let b = path_on(true, base);
    let way = way_on(true, p, base)->0;
    let parts = way_between(components(a), components(b))->0;
    let drive = base.take(2);
    let tail = base.skip(2);
    reveal_strlit("/");
    reveal_strlit("\\");
    ways_lead_there(a, b);
    lemma_with_slashes(tail);
    lemma_no_backslashes(tail);
    lemma_no_backslashes(p.skip(2));
    lemma_way_has_slashes(a, b);
    lemma_components_of_way(a, b);
    assert forall|i: int| 0 <= i < parts.len() implies (#[trigger] parts[i]).len() > 0 && parts[i]
        != "."@ && !parts[i].contains('/') by {
        lemma_way_shape(a, b, i);
    }
    assert(!takes_place(way)) by {
        if way.len() > 0 {
            lemma_joined_first(parts);
            lemma_way_shape(a, b, 0);
            lemma_with_slashes(way);
            let first = parts[0];
            assert(way.take(first.len() as int)[0] == first[0]);
            assert(first.contains(first[0]));
            if first.len() > 1 {
                assert(way.take(first.len() as int)[1] == first[1]);
            }
            assert(way[0] != '\\');
        }
    }
    assert(!begins_doubly(way));
    assert(base.len() > 2);
    assert(read == joined_path(base, way));
    let rest = read.skip(2);
    assert(read.take(2) =~= drive);
    if base.last() == '/' {
        assert(rest =~= tail + way);
        lemma_replaced_concat(tail, way, '\\', "/"@);
        assert(b.last() == '/');
    } else {
        assert(rest =~= tail + "/"@ + way);
        lemma_replaced_concat(tail + "/"@, way, '\\', "/"@);
        lemma_replaced_concat(tail, "/"@, '\\', "/"@);
        assert("/"@ =~= seq!['/']);
        lemma_replaced_char('/', '\\', "/"@);
        assert(path_on(true, read) =~= b + "/"@ + way);
        if base.last() == '\\' {
            assert(b.last() == '/');
            lemma_components_joined(b, a);
            if parts.len() == 0 {
                assert(b + "/"@ + way =~= b.push('/'));
                lemma_components_trailing(b);
                assert(components(b) + parts =~= components(b));
            } else {
                lemma_parts_of_joined(parts);
                lemma_components_below(b, way);
            }
            assert(is_absolute(b + "/"@ + way));
        }
    }
    assert(normalized(path_on(true, read)) == normalized(a));
    lemma_normalized_plain(a);
    let x = normalized(a);
    lemma_slashes_undone(x);
    lemma_replaced_concat(drive, text::replaced(x, '/', "\\"@), '\\', "/"@);
    assert forall|i: int| 0 <= i < drive.len() implies #[trigger] drive[i] != '\\' by {
        assert(drive[i] == base[i]);
    }
    lemma_replaced_nothing(drive, '\\', "/"@);
}

/// Backslashes that were written for slashes are slashes again.
proof fn lemma_slashes_undone(x: Seq<char>)
    requires
        !x.contains('\\'),
    ensures
        with_slashes(text::replaced(x, '/', "\\"@)) == x,
    decreases x.len(),
{
    reveal_strlit("/");
    reveal_strlit("\\");
    if x.len() > 0 {
        let front = x.drop_last();
        assert forall|i: int| 0 <= i < front.len() implies front[i] != '\\' by {
            assert(x.contains(x[i]));
        }
        assert(x.contains(x.last()));
        lemma_slashes_undone(front);
        let r = text::replaced(front, '/', "\\"@);
        let last = seq![if x.last() == '/' {
            '\\'
        } else {
            x.last()
        }];
        assert(text::replaced(x, '/', "\\"@) =~= r + last);
        lemma_replaced_concat(r, last, '\\', "/"@);
        lemma_replaced_char(last[0], '\\', "/"@);
        assert("/"@ =~= seq!['/']);
        assert(with_slashes(last) =~= seq![x.last()]);
        assert(front + seq![x.last()] =~= x);
    }
}

/// A path without `.` and, as far as possible, without `..`; no link is followed.
pub fn normalize_lexical(p: &str) -> (r: String)
    ensures
        normalizes(p@, r@),
{
    let (parts, separator) = path_parts(p);
    let ghost ps = part_views(parts@);
    let kept = collapse(parts);
    assert(part_views(kept@).len() == kept@.len());
    proof {
        lemma_writes_normalized(writes_backslashes(separator), p@);
    }
    if separator == '\\' {
        write_parts(&kept, "\\")
    } else {
        write_parts(&kept, "/")
    }
}

/// The components of a way that is written with slashes.
pub(crate) fn split_components(p: &str) -> (r: Vec<String>)
    ensures
        text::views(r@) == components(p@),
{
    let parts = text::split(p, '/');
    let ghost all = text::views(parts@);
    let mut r: Vec<String> = Vec::new();
    let mut i: usize = 0;
    while i < parts.len()
        invariant
            i <= parts@.len(),
            all == text::views(parts@),
            text::views(r@) == kept_parts(all, i as int),
        decreases parts.len() - i,
    {
        let empty = text::to_chars(parts[i].as_str()).len() == 0;
        let dot = text::same_text(parts[i].as_str(), ".");
        if !(empty || dot && i > 0) {
            let ghost before = r@;
            let part = parts[i].clone();
            let ghost p = part@;
            r.push(part);
            assert(text::views(r@) == text::views(before).push(p));
        }
        i = i + 1;
    }
    r
}

proof fn lemma_collapsed_parts_prefix(ps: Seq<PartModel>, x: PartModel, n: int)
    requires
        0 <= n <= ps.len(),
    ensures
        collapsed_parts(ps.push(x), n) == collapsed_parts(ps, n),
    decreases n,
{
    if n > 0 {
        lemma_collapsed_parts_prefix(ps, x, n - 1);
        assert(ps.push(x)[n - 1] == ps[n - 1]);
    }
}

/// Part by part: `.` adds nothing; `..` takes the name before it away, adds nothing at the root,
/// and stays where there is neither; everything else is added.
pub proof fn parts_collapse_one_by_one(ps: Seq<PartModel>, part: PartModel)
    ensures
        ({
            let n = ps.len() as int;
            let before = collapsed_parts(ps, n);
            &&& collapsed_parts(Seq::empty(), 0) == Seq::<PartModel>::empty()
            &&& collapsed_parts(ps.push(PartModel::Here), n + 1) == before
            &&& before.len() > 0 && before.last() is Name ==> collapsed_parts(
                ps.push(PartModel::Up),
                n + 1,
            ) == before.drop_last()
            &&& before.len() > 0 && before.last() is Root ==> collapsed_parts(
                ps.push(PartModel::Up),
                n + 1,
            ) == before
            &&& before.len() == 0 || before.last() is Up || before.last() is Prefix
                ==> collapsed_parts(ps.push(PartModel::Up), n + 1) == before.push(PartModel::Up)
            &&& part is Name || part is Root || part is Prefix ==> collapsed_parts(
                ps.push(part),
                n + 1,
            ) == before.push(part)
        }),
{
    lemma_collapsed_parts_prefix(ps, PartModel::Here, ps.len() as int);
    lemma_collapsed_parts_prefix(ps, PartModel::Up, ps.len() as int);
    lemma_collapsed_parts_prefix(ps, part, ps.len() as int);
}

/// Component by component: `.` adds nothing; `..` takes the name before it away, adds nothing
/// to an absolute path without names, and stays in front of a relative one; every name is
/// added.
pub proof fn components_collapse_one_by_one(
    cs: Seq<Seq<char>>,
    name: Seq<char>,
    absolute: bool,
)
    requires
        name != "."@,
        name != ".."@,
    ensures
        ({
            let n = cs.len() as int;
            let before = collapsed(cs, n, absolute);
            &&& collapsed(cs.push(name), n + 1, absolute) == before.push(name)
            &&& collapsed(cs.push("."@), n + 1, absolute) == before
            &&& before.len() > 0 && before.last() != ".."@ ==> collapsed(
                cs.push(".."@),
                n + 1,
                absolute,
            ) == before.drop_last()
            &&& absolute && before.len() == 0 ==> collapsed(cs.push(".."@), n + 1, absolute)
                == before
            &&& !absolute && (before.len() == 0 || before.last() == ".."@) ==> collapsed(
                cs.push(".."@),
                n + 1,
                absolute,
            ) == before.push(".."@)
        }),
{
    reveal_strlit(".");
    reveal_strlit("..");
    assert("."@.len() == 1 && ".."@.len() == 2);
    let n = cs.len() as int;
    lemma_collapsed_prefix(cs, seq![name], n, absolute);
    lemma_collapsed_prefix(cs, seq!["."@], n, absolute);
    lemma_collapsed_prefix(cs, seq![".."@], n, absolute);
    assert(cs + seq![name] == cs.push(name));
    assert(cs + seq!["."@] == cs.push("."@));
    assert(cs + seq![".."@] == cs.push(".."@));
}

proof fn lemma_written_prefix(ps: Seq<PartModel>, x: PartModel, n: int, separator: Seq<char>)
    requires
        0 <= n <= ps.len(),
    ensures
        written(ps.push(x), n, separator) == written(ps, n, separator),
    decreases n,
{
    if n > 0 {
        lemma_written_prefix(ps, x, n - 1, separator);
        assert(ps.push(x)[n - 1] == ps[n - 1]);
        if n > 1 {
            assert(ps.push(x)[n - 2] == ps[n - 2]);
        }
    }
}

/// A path is written with separators between its components and none after a drive or the root,
/// which is a separator itself.
pub proof fn separators_are_written_between_parts(
    ps: Seq<PartModel>,
    name: Seq<char>,
    separator: Seq<char>,
)
    ensures
        ({
            let n = ps.len() as int;
            let before = written(ps, n, separator);
            &&& n == 0 ==> before.len() == 0
            &&& n == 0 || ps.last() is Prefix || ps.last() is Root ==> ({
                &&& written(ps.push(PartModel::Name(name)), n + 1, separator) == before + name
                &&& written(ps.push(PartModel::Up), n + 1, separator) == before + seq!['.', '.']
            })
            &&& n > 0 && !(ps.last() is Prefix || ps.last() is Root) ==> ({
                &&& written(ps.push(PartModel::Name(name)), n + 1, separator) == before + separator
                    + name
                &&& written(ps.push(PartModel::Up), n + 1, separator) == before + separator
                    + seq!['.', '.']
            })
            &&& written(ps.push(PartModel::Root), n + 1, separator) == before + separator
            &&& written(ps.push(PartModel::Prefix(name)), n + 1, separator) == before + name
        }),
{
    reveal_strlit("..");
    assert(".."@ == seq!['.', '.']);
    let n = ps.len() as int;
    lemma_written_prefix(ps, PartModel::Name(name), n, separator);
    lemma_written_prefix(ps, PartModel::Up, n, separator);
    lemma_written_prefix(ps, PartModel::Root, n, separator);
    lemma_written_prefix(ps, PartModel::Prefix(name), n, separator);
    if n > 0 {
        assert(ps.push(PartModel::Name(name))[n - 1] == ps.last());
        assert(ps.push(PartModel::Up)[n - 1] == ps.last());
    }
}

/// The components of a path are the names between its slashes: a name after a slash is one
/// more, a further slash or a `.` after one adds none, and a `.` counts only at the very start.
pub proof fn components_stand_between_slashes(p: Seq<char>, name: Seq<char>)
    requires
        name.len() > 0,
        name != "."@,
        !name.contains('/'),
    ensures
        components(Seq::empty()) == Seq::<Seq<char>>::empty(),
        components(name) == seq![name],
        components(seq!['.']) == seq![seq!['.']],
        components(p.push('/') + name) == components(p).push(name),
        components(p.push('/')) == components(p),
        components(p.push('/') + seq!['.']) == components(p),
{
    reveal_strlit(".");
    let none = Seq::<char>::empty();
    let dot = seq!['.'];
    assert("."@ == dot);
    assert(!none.contains('/'));
    assert(!dot.contains('/'));
    text::separators_part_texts(none, none, '/');
    text::separators_part_texts(name, none, '/');
    text::separators_part_texts(dot, none, '/');
    text::lemma_parts_join(p, name, '/');
    text::lemma_parts_join(p, dot, '/');
    let parts = text::parts_from(p, '/', 0);
    let n = parts.len() as int;
    lemma_components_trailing(p);
    lemma_kept_prefix(parts, seq![name], n);
    lemma_kept_prefix(parts, seq![dot], n);
    assert((parts + seq![name])[n] == name && (parts + seq![dot])[n] == dot);
    lemma_some_part(p, '/', 0);
    assert(kept_parts(seq![name], 0) == Seq::<Seq<char>>::empty());
    assert(kept_parts(seq![name], 1) == Seq::<Seq<char>>::empty().push(name));
    assert(kept_parts(seq![dot], 0) == Seq::<Seq<char>>::empty());
    assert(kept_parts(seq![dot], 1) == Seq::<Seq<char>>::empty().push(dot));
    assert(kept_parts(seq![none], 0) == Seq::<Seq<char>>::empty());
    assert(kept_parts(seq![none], 1) == Seq::<Seq<char>>::empty());
    assert(Seq::<Seq<char>>::empty().push(name) == seq![name]);
    assert(Seq::<Seq<char>>::empty().push(dot) == seq![dot]);
}

proof fn lemma_some_part(p: Seq<char>, c: char, i: int)
    requires
        0 <= i <= p.len(),
    ensures
        text::parts_from(p, c, i).len() > 0,
{
    text::lemma_find_bounds(p, c, i);
}

} // verus!
