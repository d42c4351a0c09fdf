//! Versions and version ranges, which `node_semver` parses, matches and compares; the order of
//! versions is stated here.

use crate::text;
use vstd::prelude::*;

verus! {

/// A dot-separated part of a pre-release or build tag.
#[derive(Debug, Clone)]
pub enum Identifier {
    Numeric(u64),
    AlphaNumeric(String),
}

/// The contents of `Identifier`.
pub enum IdentifierModel {
    Numeric(u64),
    AlphaNumeric(Seq<char>),
}

impl View for Identifier {
    type V = IdentifierModel;

    open spec fn view(&self) -> IdentifierModel {
        match *self {
            Identifier::Numeric(n) => IdentifierModel::Numeric(n),
            Identifier::AlphaNumeric(s) => IdentifierModel::AlphaNumeric(s@),
        }
    }
}

/// A parsed version.
#[derive(Debug, Clone)]
pub struct Version {
    pub major: u64,
    pub minor: u64,
    pub patch: u64,
    pub pre_release: Vec<Identifier>,
    pub build: Vec<Identifier>,
}

/// The contents of `Version`.
#[verifier::ext_equal]
pub struct VersionModel {
    pub major: u64,
    pub minor: u64,
    pub patch: u64,
    pub pre_release: Seq<IdentifierModel>,
    pub build: Seq<IdentifierModel>,
}

/// The contents of a list of identifiers.
pub open spec fn identifiers(v: Seq<Identifier>) -> Seq<IdentifierModel> {
    Seq::new(v.len(), |i: int| v[i]@)
}

impl View for Version {
    type V = VersionModel;

    open spec fn view(&self) -> VersionModel {
        VersionModel {
            major: self.major,
            minor: self.minor,
            patch: self.patch,
            pre_release: identifiers(self.pre_release@),
            build: identifiers(self.build@),
        }
    }
}

/// Whether one identifier comes before another: numbers by value and before words, words
/// by code point.
pub open spec fn identifier_less(a: IdentifierModel, b: IdentifierModel) -> bool {
    match (a, b) {
        (IdentifierModel::Numeric(x), IdentifierModel::Numeric(y)) => x < y,
        (IdentifierModel::Numeric(_), IdentifierModel::AlphaNumeric(_)) => true,
        (IdentifierModel::AlphaNumeric(_), IdentifierModel::Numeric(_)) => false,
        (IdentifierModel::AlphaNumeric(x), IdentifierModel::AlphaNumeric(y)) => text::text_less(
            x,
            y,
        ),
    }
}

/// Whether one list of identifiers comes before another, from index `i` on: the first
/// difference decides, and a proper prefix comes first.
pub open spec fn identifiers_less(
    a: Seq<IdentifierModel>,
    b: Seq<IdentifierModel>,
    i: int,
) -> bool
    decreases b.len() - i,
{
    if i >= b.len() {
        false
    } else if i >= a.len() {
        true
    } else if a[i] != b[i] {
        identifier_less(a[i], b[i])
    } else {
        identifiers_less(a, b, i + 1)
    }
}

/// Whether one pre-release tag comes before another; a version without one comes last.
pub open spec fn pre_release_less(a: Seq<IdentifierModel>, b: Seq<IdentifierModel>) -> bool {
    if a.len() == 0 {
        false
    } else if b.len() == 0 {
        true
    } else {
        identifiers_less(a, b, 0)
    }
}

/// Whether one version comes before another. Build tags do not count.
pub open spec fn version_less(a: VersionModel, b: VersionModel) -> bool {
    if a.major != b.major {
        a.major < b.major
    } else if a.minor != b.minor {
        a.minor < b.minor
    } else if a.patch != b.patch {
        a.patch < b.patch
    } else {
        pre_release_less(a.pre_release, b.pre_release)
    }
}

/// Whether two versions have the same precedence.
pub open spec fn same_precedence(a: VersionModel, b: VersionModel) -> bool {
    !version_less(a, b) && !version_less(b, a)
}

proof fn lemma_identifier_order(a: IdentifierModel, b: IdentifierModel, c: IdentifierModel)
    ensures
        !identifier_less(a, a),
        identifier_less(a, b) && identifier_less(b, c) ==> identifier_less(a, c),
        identifier_less(a, b) || identifier_less(b, a) || a == b,
{
    match a {
        IdentifierModel::AlphaNumeric(x) => {
            text::lemma_less_irreflexive(x);
            match b {
                IdentifierModel::AlphaNumeric(y) => {
                    text::lemma_less_total(x, y);
                    match c {
                        IdentifierModel::AlphaNumeric(z) => {
                            if text::text_less(x, y) && text::text_less(y, z) {
                                text::lemma_less_transitive(x, y, z);
                            }
                        },
                        _ => {},
                    }
                },
                _ => {},
            }
        },
        _ => {},
    }
}

proof fn lemma_identifiers_irreflexive(a: Seq<IdentifierModel>, i: int)
    ensures
        !identifiers_less(a, a, i),
    decreases a.len() - i,
{
    if i < a.len() {
        lemma_identifiers_irreflexive(a, i + 1);
    }
}

proof fn lemma_identifiers_transitive(
    a: Seq<IdentifierModel>,
    b: Seq<IdentifierModel>,
    c: Seq<IdentifierModel>,
    i: int,
)
    requires
        identifiers_less(a, b, i),
        identifiers_less(b, c, i),
    ensures
        identifiers_less(a, c, i),
    decreases c.len() - i,
{
    if i < a.len() && i < b.len() && i < c.len() {
        lemma_identifier_order(a[i], b[i], c[i]);
        lemma_identifier_order(b[i], a[i], c[i]);
        if a[i] == b[i] && b[i] == c[i] {
            lemma_identifiers_transitive(a, b, c, i + 1);
        } else if a[i] == c[i] {
            lemma_identifier_order(a[i], b[i], a[i]);
        }
    }
}

proof fn lemma_identifiers_total(a: Seq<IdentifierModel>, b: Seq<IdentifierModel>, i: int)
    requires
        0 <= i <= a.len(),
        i <= b.len(),
        a.take(i) == b.take(i),
    ensures
        identifiers_less(a, b, i) || identifiers_less(b, a, i) || a == b,
    decreases b.len() - i,
{
    if i < a.len() && i < b.len() {
        lemma_identifier_order(a[i], b[i], a[i]);
        if a[i] == b[i] {
            assert(a.take(i + 1) == a.take(i).push(a[i]));
            assert(b.take(i + 1) == b.take(i).push(b[i]));
            lemma_identifiers_total(a, b, i + 1);
        }
    } else if i == a.len() && i == b.len() {
        assert(a == a.take(i));
        assert(b == b.take(i));
    }
}

/// No version comes before itself.
pub proof fn version_order_is_irreflexive(a: VersionModel)
    ensures
        !version_less(a, a),
{
    lemma_identifiers_irreflexive(a.pre_release, 0);
}

/// What comes before a version comes before all that the version comes before.
pub proof fn version_order_is_transitive(a: VersionModel, b: VersionModel, c: VersionModel)
    requires
        version_less(a, b),
        version_less(b, c),
    ensures
        version_less(a, c),
{
    let p = a.pre_release;
    let q = b.pre_release;
    let r = c.pre_release;
    if pre_release_less(p, q) && pre_release_less(q, r) && r.len() > 0 {
        lemma_identifiers_transitive(p, q, r, 0);
    }
}

/// Versions of the same precedence differ at most in their build tags.
pub proof fn same_precedence_is_equality_up_to_build(a: VersionModel, b: VersionModel)
    requires
        same_precedence(a, b),
    ensures
        a.major == b.major,
        a.minor == b.minor,
        a.patch == b.patch,
        a.pre_release == b.pre_release,
{
    let p = a.pre_release;
    let q = b.pre_release;
    if p.len() > 0 && q.len() > 0 {
        assert(p.take(0) == q.take(0));
        lemma_identifiers_total(p, q, 0);
    } else {
        assert(p == q);
    }
}

/// Of two versions one comes first, or they have the same precedence; and precedence is
/// carried over: what has the precedence of `b` compares to `c` as `b` does.
pub proof fn version_order_is_a_weak_order(a: VersionModel, b: VersionModel, c: VersionModel)
    requires
        same_precedence(a, b),
    ensures
        version_less(a, c) == version_less(b, c),
        version_less(c, a) == version_less(c, b),
{
    same_precedence_is_equality_up_to_build(a, b);
}

/// The order of `node_semver::Version` (`<`) on versions with these fields: `version_less`.
#[verifier::external_body]
fn is_less(a: &Version, b: &Version) -> (r: bool)
    ensures
        r == version_less(a@, b@),
{
    let convert = |i: &Identifier| match i {
        Identifier::Numeric(n) => node_semver::Identifier::Numeric(*n),
        Identifier::AlphaNumeric(a) => node_semver::Identifier::AlphaNumeric(a.clone()),
    };
    let [a, b] = [a, b].map(|v| node_semver::Version {
        major: v.major,
        minor: v.minor,
        patch: v.patch,
        pre_release: v.pre_release.iter().map(convert).collect(),
        build: v.build.iter().map(convert).collect(),
    });
    a < b
}

impl Version {
    /// Whether this version comes before `other`.
    pub fn precedes(&self, other: &Version) -> (r: bool)
        ensures
            r == version_less(self@, other@),
    {
        is_less(self, other)
    }

    /// The version in its usual notation.
    pub fn to_text(&self) -> (r: String)
        ensures
            r@ == version_text(self@),
    {
        let mut r = text::format_u64(self.major);
        r.append(".");
        r.append(text::format_u64(self.minor).as_str());
        r.append(".");
        r.append(text::format_u64(self.patch).as_str());
        if self.pre_release.len() > 0 {
            r.append("-");
            r.append(identifiers_text(&self.pre_release).as_str());
        }
        if self.build.len() > 0 {
            r.append("+");
            r.append(identifiers_text(&self.build).as_str());
        }
        r
    }
}

/// An identifier as text.
pub open spec fn identifier_text(i: IdentifierModel) -> Seq<char> {
    match i {
        IdentifierModel::Numeric(n) => text::decimal_text(n as nat),
        IdentifierModel::AlphaNumeric(s) => s,
    }
}

/// Identifiers as text, with dots between them.
pub open spec fn tag_text(tag: Seq<IdentifierModel>) -> Seq<char> {
    text::joined(Seq::new(tag.len(), |i: int| identifier_text(tag[i])), "."@)
}

/// A version in its usual notation.
pub open spec fn version_text(v: VersionModel) -> Seq<char> {
    let core = text::decimal_text(v.major as nat) + "."@ + text::decimal_text(v.minor as nat)
        + "."@ + text::decimal_text(v.patch as nat);
    let tagged = if v.pre_release.len() > 0 {
        core + "-"@ + tag_text(v.pre_release)
    } else {
        core
    };
    if v.build.len() > 0 {
        tagged + "+"@ + tag_text(v.build)
    } else {
        tagged
    }
}

fn identifiers_text(tag: &Vec<Identifier>) -> (r: String)
    ensures
        r@ == tag_text(identifiers(tag@)),
{
    let mut parts: Vec<String> = Vec::new();
    let mut i: usize = 0;
    while i < tag.len()
        invariant
            i <= tag@.len(),
            parts@.len() == i,
            forall|j: int| 0 <= j < i ==> #[trigger] parts@[j]@ == identifier_text(tag@[j]@),
        decreases tag.len() - i,
    {
        let part = match &tag[i] {
            Identifier::Numeric(n) => text::format_u64(*n),
            Identifier::AlphaNumeric(s) => s.clone(),
        };
        parts.push(part);
        i = i + 1;
    }
    proof {
        let model = identifiers(tag@);
        assert(text::views(parts@).skip(0) == Seq::new(
            model.len(),
            |i: int| identifier_text(model[i]),
        ));
    }
    text::join(&parts, 0, ".")
}

/// What `node_semver` makes of a version text.
pub uninterp spec fn parsed_version(s: Seq<char>) -> Option<VersionModel>;

/// Whether `node_semver` takes a text for a version range.
pub uninterp spec fn is_range(s: Seq<char>) -> bool;

/// Whether `node_semver` finds a version (as text) in a range (as text).
pub uninterp spec fn in_range(version: Seq<char>, range: Seq<char>) -> bool;

/// `node_semver::Version::parse`: the version that a text writes, or nothing if it writes
/// none. The text alone determines the outcome.
#[verifier::external_body]
pub(crate) fn parse_version(s: &str) -> (r: Option<Version>)
    ensures
        match r {
            Some(v) => parsed_version(s@) == Some(v@),
            None => parsed_version(s@) is None,
        },
{
    let convert = |i: node_semver::Identifier| match i {
        node_semver::Identifier::Numeric(n) => Identifier::Numeric(n),
        node_semver::Identifier::AlphaNumeric(a) => Identifier::AlphaNumeric(a),
    };
    node_semver::Version::parse(s).ok().map(|v| Version {
        major: v.major,
        minor: v.minor,
        patch: v.patch,
        pre_release: v.pre_release.into_iter().map(convert).collect(),
        build: v.build.into_iter().map(convert).collect(),
    })
}

/// `node_semver::Range::parse`: whether a text is a version range. The parser does not
/// return on the texts that `trips_range_parser` describes.
#[verifier::external_body]
pub(crate) fn parses_as_range(s: &str) -> (r: bool)
    requires
        !trips_range_parser(s@),
    ensures
        r == is_range(s@),
{
    node_semver::Range::parse(s).is_ok()
}

/// `node_semver::Version::satisfies`, on the version and the range that two texts write:
/// whether the version is in the range. The texts alone determine the outcome.
#[verifier::external_body]
pub(crate) fn satisfies(version: &str, range: &str) -> (r: bool)
    requires
        !trips_range_parser(range@),
        parsed_version(version@) is Some,
        is_range(range@),
    ensures
        r == in_range(version@, range@),
{
    match (node_semver::Version::parse(version), node_semver::Range::parse(range)) {
        (Ok(v), Ok(r)) => v.satisfies(&r),
        _ => false,
    }
}

/// The largest number that a version may hold.
pub const LARGEST_COMPONENT: u64 = 900_719_925_474_099;

/// A blank: what may stand between the parts of a range.
pub open spec fn is_blank(c: char) -> bool {
    c == ' ' || c == '\t'
}

/// A wildcard in place of a number.
pub open spec fn is_wild(c: char) -> bool {
    c == 'x' || c == 'X' || c == '*'
}

/// The first index from `i` on without a blank.
pub open spec fn past_blanks(s: Seq<char>, i: int) -> int
    decreases s.len() - i,
{
    if i < s.len() && is_blank(s[i]) {
        past_blanks(s, i + 1)
    } else {
        i
    }
}

/// The first index from `i` on without a digit.
pub open spec fn past_digits(s: Seq<char>, i: int) -> int
    decreases s.len() - i,
{
    if i < s.len() && '0' <= s[i] <= '9' {
        past_digits(s, i + 1)
    } else {
        i
    }
}

/// Where the first component of a partial version at `i` stands: behind an optional `v` and
/// blanks.
pub open spec fn component_at(s: Seq<char>, i: int) -> int {
    if i < s.len() && s[i] == 'v' {
        past_blanks(s, i + 1)
    } else {
        past_blanks(s, i)
    }
}

/// Whether a number that a version may hold stands at `i`.
pub open spec fn has_number(s: Seq<char>, i: int) -> bool {
    past_digits(s, i) > i && text::digits_value(s.subrange(i, past_digits(s, i)))
        <= LARGEST_COMPONENT
}

/// Whether a wildcard stands where the first component of a partial version at `i` does.
pub open spec fn starts_wild(s: Seq<char>, i: int) -> bool {
    let j = component_at(s, i);
    j < s.len() && is_wild(s[j])
}

/// Whether a partial version at `i` has a number, a wildcard and again a number.
pub open spec fn has_wild_gap(s: Seq<char>, i: int) -> bool {
    let j = component_at(s, i);
    let e = past_digits(s, j);
    &&& has_number(s, j)
    &&& e + 2 < s.len()
    &&& s[e] == '.'
    &&& is_wild(s[e + 1])
    &&& s[e + 2] == '.'
    &&& has_number(s, e + 3)
}

/// Where the partial version behind a tilde at `i` stands: `~`, or `~>`, and blanks.
pub open spec fn past_tilde(s: Seq<char>, i: int) -> int {
    let a = past_blanks(s, i + 1);
    if a < s.len() && s[a] == '>' {
        past_blanks(s, a + 1)
    } else {
        a
    }
}

/// Whether what stands at `i` is `=` before a wildcard, or `~` before a wildcard or before a
/// partial version with a wildcard between two numbers.
pub open spec fn trips_at(s: Seq<char>, i: int) -> bool {
    ||| s[i] == '=' && starts_wild(s, past_blanks(s, i + 1))
    ||| s[i] == '~' && (starts_wild(s, past_tilde(s, i)) || has_wild_gap(s, past_tilde(s, i)))
}

/// Whether a comparator of the range text `s` from `i` on is one that `trips_at` describes;
/// `start` says whether a comparator may start at `i`. Comparators stand between blanks and
/// `||`.
pub open spec fn trips_from(s: Seq<char>, i: int, start: bool) -> bool
    decreases s.len() - i,
{
    if i < 0 || i >= s.len() {
        false
    } else if is_blank(s[i]) {
        trips_from(s, i + 1, true)
    } else if s[i] == '|' && i + 1 < s.len() && s[i + 1] == '|' {
        trips_from(s, i + 2, true)
    } else if start && trips_at(s, i) {
        true
    } else {
        trips_from(s, i + 1, false)
    }
}

/// Whether a text has a comparator that the range parser does not get past.
pub open spec fn trips_range_parser(s: Seq<char>) -> bool {
    trips_from(s, 0, true)
}

fn skip_blanks(x: &Vec<char>, i: usize) -> (r: usize)
    requires
        i <= x@.len(),
    ensures
        r == past_blanks(x@, i as int),
        i <= r <= x@.len(),
{
    let mut j: usize = i;
    while j < x.len() && (x[j] == ' ' || x[j] == '\t')
        invariant
            i <= j <= x@.len(),
            past_blanks(x@, j as int) == past_blanks(x@, i as int),
        decreases x.len() - j,
    {
        j = j + 1;
    }
    j
}

fn skip_digits(x: &Vec<char>, i: usize) -> (r: usize)
    requires
        i <= x@.len(),
    ensures
        r == past_digits(x@, i as int),
        i <= r <= x@.len(),
        forall|j: int| i <= j < r ==> '0' <= #[trigger] x@[j] <= '9',
{
    let mut j: usize = i;
    while j < x.len() && '0' <= x[j] && x[j] <= '9'
        invariant
            i <= j <= x@.len(),
            past_digits(x@, j as int) == past_digits(x@, i as int),
            forall|k: int| i <= k < j ==> '0' <= #[trigger] x@[k] <= '9',
        decreases x.len() - j,
    {
        j = j + 1;
    }
    j
}

fn locate_component(x: &Vec<char>, i: usize) -> (r: usize)
    requires
        i <= x@.len(),
    ensures
        r == component_at(x@, i as int),
        i <= r <= x@.len(),
{
    if i < x.len() && x[i] == 'v' {
        skip_blanks(x, i + 1)
    } else {
        skip_blanks(x, i)
    }
}

fn number_at(x: &Vec<char>, i: usize) -> (r: bool)
    requires
        i <= x@.len(),
    ensures
        r == has_number(x@, i as int),
{
    let e = skip_digits(x, i);
    if e == i {
        return false;
    }
    let ghost run = x@.subrange(i as int, e as int);
    assert forall|j: int| 0 <= j < run.len() implies '0' <= #[trigger] run[j] <= '9' by {
        assert(run[j] == x@[i + j]);
    }
    let mut value: u64 = 0;
    let mut j: usize = i;
    while j < e
        invariant
            i <= j <= e <= x@.len(),
            run == x@.subrange(i as int, e as int),
            e == past_digits(x@, i as int),
            e > i,
            forall|k: int| 0 <= k < run.len() ==> '0' <= #[trigger] run[k] <= '9',
            value == text::digits_value(run.take(j - i)),
            value <= LARGEST_COMPONENT,
        decreases e - j,
    {
        proof {
            assert(run[j - i] == x@[j as int]);
            assert(run.take(j - i + 1).drop_last() == run.take(j - i));
            text::lemma_digits_grow(run, j - i + 1);
        }
        value = value * 10 + ((x[j] as u8) - ('0' as u8)) as u64;
        if value > LARGEST_COMPONENT {
            return false;
        }
        j = j + 1;
    }
    assert(run.take(j - i) == run);
    true
}

fn wild_at(x: &Vec<char>, i: usize) -> (r: bool)
    requires
        i < x@.len(),
    ensures
        r == is_wild(x@[i as int]),
{
    x[i] == 'x' || x[i] == 'X' || x[i] == '*'
}

fn wild_start_at(x: &Vec<char>, i: usize) -> (r: bool)
    requires
        i <= x@.len(),
    ensures
        r == starts_wild(x@, i as int),
{
    let j = locate_component(x, i);
    j < x.len() && wild_at(x, j)
}

fn wild_gap_at(x: &Vec<char>, i: usize) -> (r: bool)
    requires
        i <= x@.len(),
    ensures
        r == has_wild_gap(x@, i as int),
{
    let j = locate_component(x, i);
    if !number_at(x, j) {
        return false;
    }
    let e = skip_digits(x, j);
    if x.len() - e < 3 {
        return false;
    }
    x[e] == '.' && wild_at(x, e + 1) && x[e + 2] == '.' && number_at(x, e + 3)
}

fn comparator_trips(x: &Vec<char>, i: usize) -> (r: bool)
    requires
        i < x.len(),
    ensures
        r == trips_at(x@, i as int),
{
    if x[i] == '=' {
        wild_start_at(x, skip_blanks(x, i + 1))
    } else if x[i] == '~' {
        let a = skip_blanks(x, i + 1);
        let b = if a < x.len() && x[a] == '>' {
            skip_blanks(x, a + 1)
        } else {
            a
        };
        wild_start_at(x, b) || wild_gap_at(x, b)
    } else {
        false
    }
}

/// Whether a text can be handed to the range parser.
pub fn is_safe_range(s: &str) -> (r: bool)
    ensures
        r == !trips_range_parser(s@),
{
    let x = text::to_chars(s);
    let mut i: usize = 0;
    let mut start = true;
    while i < x.len()
        invariant
            x@ == s@,
            i <= x@.len(),
            trips_from(s@, i as int, start) == trips_range_parser(s@),
        decreases x.len() - i,
    {
        if x[i] == ' ' || x[i] == '\t' {
            i = i + 1;
            start = true;
        } else if x[i] == '|' && i + 1 < x.len() && x[i + 1] == '|' {
            i = i + 2;
            start = true;
        } else if start && comparator_trips(&x, i) {
            return false;
        } else {
            i = i + 1;
            start = false;
        }
    }
    true
}

/// The major number decides on the order of two versions, where that is the same the minor one,
/// then the patch. Where all three are the same, a pre-release comes before the release, and
/// of two pre-releases the first part in which they differ decides, or the shorter one comes
/// first. Build tags change nothing.
pub proof fn versions_are_ordered_by_their_parts(
    a: VersionModel,
    b: VersionModel,
    p: Seq<IdentifierModel>,
    x: Seq<IdentifierModel>,
    y: Seq<IdentifierModel>,
    build: Seq<IdentifierModel>,
)
    ensures
        a.major < b.major ==> version_less(a, b),
        a.major == b.major && a.minor < b.minor ==> version_less(a, b),
        a.major == b.major && a.minor == b.minor && a.patch < b.patch ==> version_less(a, b),
        a.major == b.major && a.minor == b.minor && a.patch == b.patch ==> ({
            &&& a.pre_release.len() > 0 && b.pre_release.len() == 0 ==> version_less(a, b)
                && !version_less(b, a)
            &&& a.pre_release == b.pre_release ==> !version_less(a, b)
            &&& a.pre_release == p + x && b.pre_release == p + y && x.len() > 0 && y.len() > 0
                && identifier_less(x[0], y[0]) ==> version_less(a, b)
            &&& p.len() > 0 && a.pre_release == p && b.pre_release == p + y && y.len() > 0
                ==> version_less(a, b)
        }),
        version_less(VersionModel { build, ..a }, b) == version_less(a, b),
        version_less(a, VersionModel { build, ..b }) == version_less(a, b),
{
    lemma_identifiers_irreflexive(a.pre_release, 0);
    lemma_identifiers_after(p, x, y, 0);
    let none = Seq::<IdentifierModel>::empty();
    lemma_identifiers_after(p, none, y, 0);
    assert(p + none == p);
    if x.len() > 0 && y.len() > 0 {
        assert((p + x)[p.len() as int] == x[0] && (p + y)[p.len() as int] == y[0]);
        lemma_identifier_order(x[0], y[0], x[0]);
    }
}

proof fn lemma_identifiers_after(
    p: Seq<IdentifierModel>,
    x: Seq<IdentifierModel>,
    y: Seq<IdentifierModel>,
    i: int,
)
    requires
        0 <= i <= p.len(),
    ensures
        identifiers_less(p + x, p + y, i) == identifiers_less(p + x, p + y, p.len() as int),
    decreases p.len() - i,
{
    if i < p.len() {
        assert((p + x)[i] == p[i] && (p + y)[i] == p[i]);
        lemma_identifiers_after(p, x, y, i + 1);
    }
}

/// Numbers come before words in a pre-release; numbers are ordered by value, words as texts.
pub proof fn numbers_come_before_words(m: u64, n: u64, v: Seq<char>, w: Seq<char>)
    ensures
        identifier_less(IdentifierModel::Numeric(m), IdentifierModel::AlphaNumeric(w)),
        !identifier_less(IdentifierModel::AlphaNumeric(w), IdentifierModel::Numeric(m)),
        identifier_less(IdentifierModel::Numeric(m), IdentifierModel::Numeric(n)) <==> m < n,
        identifier_less(IdentifierModel::AlphaNumeric(v), IdentifierModel::AlphaNumeric(w))
            <==> text::text_less(v, w),
{
}

/// A version is written as its three numbers with dots between them; a pre-release follows
/// after a hyphen and a build tag after a plus, each with dots between its parts.
pub proof fn versions_are_written_part_by_part(v: VersionModel, tag: Seq<IdentifierModel>)
    ensures
        ({
            let core = text::decimal_text(v.major as nat) + seq!['.'] + text::decimal_text(
                v.minor as nat,
            ) + seq!['.'] + text::decimal_text(v.patch as nat);
            let none = Seq::<IdentifierModel>::empty();
            &&& version_text(VersionModel { pre_release: none, build: none, ..v }) == core
            &&& tag.len() > 0 ==> version_text(VersionModel { pre_release: tag, build: none, ..v })
                == core + seq!['-'] + tag_text(tag)
            &&& tag.len() > 0 ==> version_text(VersionModel { build: tag, ..v }) == version_text(
                VersionModel { build: none, ..v },
            ) + seq!['+'] + tag_text(tag)
        }),
{
    reveal_strlit(".");
    reveal_strlit("-");
    reveal_strlit("+");
    assert("."@ == seq!['.'] && "-"@ == seq!['-'] && "+"@ == seq!['+']);
}

/// A tag is written with a dot between its parts, a number in decimal and a word as it is.
pub proof fn tags_are_written_part_by_part(
    tag: Seq<IdentifierModel>,
    last: IdentifierModel,
    n: u64,
    w: Seq<char>,
)
    ensures
        tag_text(seq![IdentifierModel::Numeric(n)]) == text::decimal_text(n as nat),
        tag_text(seq![IdentifierModel::AlphaNumeric(w)]) == w,
        tag.len() > 0 ==> tag_text(tag.push(last)) == tag_text(tag) + seq!['.'] + tag_text(
            seq![last],
        ),
{
    reveal_strlit(".");
    assert("."@ == seq!['.']);
    let texts = Seq::new(tag.len(), |i: int| identifier_text(tag[i]));
    let more = tag.push(last);
    assert(Seq::new(more.len(), |i: int| identifier_text(more[i])) == texts.push(
        identifier_text(last),
    ));
    text::separators_stand_between(texts, identifier_text(last), "."@);
    let one = seq![last];
    assert(Seq::new(one.len(), |i: int| identifier_text(one[i])) == seq![identifier_text(last)]);
    let a = seq![IdentifierModel::Numeric(n)];
    assert(Seq::new(a.len(), |i: int| identifier_text(a[i])) == seq![text::decimal_text(n as nat)]);
    let b = seq![IdentifierModel::AlphaNumeric(w)];
    assert(Seq::new(b.len(), |i: int| identifier_text(b[i])) == seq![w]);
}

proof fn lemma_past_blanks(s: Seq<char>, i: int)
    ensures
        i <= past_blanks(s, i),
    decreases s.len() - i,
{
    if i < s.len() && is_blank(s[i]) {
        lemma_past_blanks(s, i + 1);
    }
}

proof fn lemma_past_digits(s: Seq<char>, i: int)
    ensures
        i <= past_digits(s, i),
    decreases s.len() - i,
{
    if i < s.len() && '0' <= s[i] <= '9' {
        lemma_past_digits(s, i + 1);
    }
}

proof fn lemma_component(s: Seq<char>, i: int)
    ensures
        i <= component_at(s, i),
{
    lemma_past_blanks(s, i);
    lemma_past_blanks(s, i + 1);
}

proof fn lemma_tilde(s: Seq<char>, i: int)
    ensures
        i < past_tilde(s, i),
{
    lemma_past_blanks(s, i + 1);
    lemma_past_blanks(s, past_blanks(s, i + 1) + 1);
}

proof fn lemma_never_trips(s: Seq<char>, i: int, start: bool)
    requires
        0 <= i,
        forall|j: int| 0 <= j < s.len() ==> !#[trigger] trips_at(s, j),
    ensures
        !trips_from(s, i, start),
    decreases s.len() - i,
{
    if i < s.len() {
        assert(!trips_at(s, i));
        lemma_never_trips(s, i + 1, true);
        lemma_never_trips(s, i + 1, false);
        if i + 1 < s.len() {
            lemma_never_trips(s, i + 2, true);
        }
    }
}

/// Ranges are handed to the parser unless a `=` or a `~` stands before a wildcard: a text
/// without a wildcard is, one without either sign is, and so is one in which each of these
/// signs stands right before a digit and no wildcard right before a dot.
pub proof fn ordinary_ranges_are_handed_over(s: Seq<char>)
    ensures
        !s.contains('x') && !s.contains('X') && !s.contains('*') ==> !trips_range_parser(s),
        !s.contains('=') && !s.contains('~') ==> !trips_range_parser(s),
        (forall|i: int|
            0 <= i < s.len() && (#[trigger] s[i] == '=' || s[i] == '~') ==> i + 1 < s.len() && '0'
                <= s[i + 1] <= '9') && (forall|i: int|
            0 <= i < s.len() - 1 && (#[trigger] s[i] == 'x' || s[i] == 'X' || s[i] == '*') ==> s[i
                + 1] != '.') ==> !trips_range_parser(s),
{
    if !s.contains('x') && !s.contains('X') && !s.contains('*') {
        assert forall|j: int| 0 <= j < s.len() implies !is_wild(#[trigger] s[j]) by {
            assert(s.contains(s[j]));
        }
        assert forall|j: int| 0 <= j < s.len() implies !#[trigger] trips_at(s, j) by {
            lemma_past_blanks(s, j + 1);
            lemma_component(s, past_blanks(s, j + 1));
            lemma_tilde(s, j);
            lemma_component(s, past_tilde(s, j));
            lemma_past_digits(s, component_at(s, past_tilde(s, j)));
        }
        lemma_never_trips(s, 0, true);
    }
    if !s.contains('=') && !s.contains('~') {
        assert forall|j: int| 0 <= j < s.len() implies !#[trigger] trips_at(s, j) by {
            assert(s.contains(s[j]));
        }
        lemma_never_trips(s, 0, true);
    }
    if (forall|i: int|
        0 <= i < s.len() && (#[trigger] s[i] == '=' || s[i] == '~') ==> i + 1 < s.len() && '0'
            <= s[i + 1] <= '9') && (forall|i: int|
        0 <= i < s.len() - 1 && (#[trigger] s[i] == 'x' || s[i] == 'X' || s[i] == '*') ==> s[i + 1]
            != '.') {
        assert forall|j: int| 0 <= j < s.len() implies !#[trigger] trips_at(s, j) by {
            if s[j] == '=' || s[j] == '~' {
                assert('0' <= s[j + 1] <= '9');
                assert(past_blanks(s, j + 1) == j + 1);
                assert(past_tilde(s, j) == j + 1);
                assert(component_at(s, j + 1) == j + 1);
                lemma_past_digits(s, j + 1);
                let e = past_digits(s, j + 1);
                if e + 2 < s.len() && is_wild(s[e + 1]) {
                    assert(s[e + 2] != '.') by {
                        assert(s[e + 1] == 'x' || s[e + 1] == 'X' || s[e + 1] == '*');
                    }
                }
            }
        }
        lemma_never_trips(s, 0, true);
    }
}

} // verus!
