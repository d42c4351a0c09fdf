//! Text primitives: everything the rest of the crate says about strings is said over
//! `Seq<char>`, and the functions here compute those statements on `&str` and `String`.

use vstd::prelude::*;

verus! {

/// `String::push` appends the given character to the end of the string.
pub assume_specification[ String::push ](s: &mut String, c: char)
    ensures
        final(s)@ == old(s)@.push(c),
;

/// The characters of `s`, in order.
pub fn to_chars(s: &str) -> (chars: Vec<char>)
    ensures
        chars@ == s@,
{
    let mut chars: Vec<char> = Vec::new();
    for c in it: s.chars()
        invariant
            chars@ == it.seq().take(it.index()),
    {
        chars.push(c);
    }
    chars
}

/// The string made of `chars[from..to]`.
pub fn from_chars(chars: &Vec<char>, from: usize, to: usize) -> (s: String)
    requires
        from <= to <= chars@.len(),
    ensures
        s@ == chars@.subrange(from as int, to as int),
{
    let mut s = String::new();
    let mut i: usize = from;
    while i < to
        invariant
            from <= i <= to <= chars@.len(),
            s@ == chars@.subrange(from as int, i as int),
        decreases to - i,
    {
        s.push(chars[i]);
        i = i + 1;
        assert(s@ == chars@.subrange(from as int, i as int));
    }
    s
}

/// Whether two strings hold the same text.
pub fn same_text(a: &str, b: &str) -> (r: bool)
    ensures
        r == (a@ == b@),
{
    let x = a.as_bytes();
    let y = b.as_bytes();
    proof {
        vstd::utf8::encode_utf8_decode_utf8(a@);
        vstd::utf8::encode_utf8_decode_utf8(b@);
    }
    if x.len() != y.len() {
        return false;
    }
    let mut i: usize = 0;
    while i < x.len()
        invariant
            x@.len() == y@.len(),
            i <= x@.len(),
            x@.take(i as int) == y@.take(i as int),
            x@ == vstd::utf8::encode_utf8(a@),
            y@ == vstd::utf8::encode_utf8(b@),
        decreases x.len() - i,
    {
        if x[i] != y[i] {
            return false;
        }
        i = i + 1;
        assert(x@.take(i as int) == y@.take(i as int));
    }
    assert(x@ == x@.take(i as int) && y@ == y@.take(i as int));
    true
}

/// Whether `a` comes before `b`, looking at the characters from index `i` on: the first
/// character in which they differ decides, and a proper prefix comes first.
pub open spec fn less_from(a: Seq<char>, b: Seq<char>, i: int) -> bool
    decreases b.len() - i,
{
    if i >= b.len() {
        false
    } else if i >= a.len() {
        true
    } else if a[i] != b[i] {
        a[i] < b[i]
    } else {
        less_from(a, b, i + 1)
    }
}

/// Lexicographic order by code point, which is also the order of the UTF-8 encodings.
pub open spec fn text_less(a: Seq<char>, b: Seq<char>) -> bool {
    less_from(a, b, 0)
}

proof fn lemma_less_irreflexive_from(a: Seq<char>, i: int)
    ensures
        !less_from(a, a, i),
    decreases a.len() - i,
{
    if i < a.len() {
        lemma_less_irreflexive_from(a, i + 1);
    }
}

proof fn lemma_less_transitive_from(a: Seq<char>, b: Seq<char>, c: Seq<char>, i: int)
    requires
        less_from(a, b, i),
        less_from(b, c, i),
    ensures
        less_from(a, c, i),
    decreases c.len() - i,
{
    if i < a.len() && i < b.len() && i < c.len() && a[i] == b[i] && b[i] == c[i] {
        lemma_less_transitive_from(a, b, c, i + 1);
    }
}

proof fn lemma_less_total_from(a: Seq<char>, b: Seq<char>, i: int)
    requires
        0 <= i <= a.len(),
        i <= b.len(),
        a.take(i) == b.take(i),
    ensures
        less_from(a, b, i) || less_from(b, a, i) || a == b,
    decreases b.len() - i,
{
    if i < a.len() && i < b.len() && a[i] == b[i] {
        assert(a.take(i + 1) == a.take(i).push(a[i]));
        assert(b.take(i + 1) == b.take(i).push(b[i]));
        lemma_less_total_from(a, b, i + 1);
    } else if i == a.len() && i == b.len() {
        assert(a == a.take(i));
        assert(b == b.take(i));
    }
}

/// No text comes before itself.
pub proof fn lemma_less_irreflexive(a: Seq<char>)
    ensures
        !text_less(a, a),
{
    lemma_less_irreflexive_from(a, 0);
}

/// What comes before a text comes before all that the text comes before.
pub proof fn lemma_less_transitive(a: Seq<char>, b: Seq<char>, c: Seq<char>)
    requires
        text_less(a, b),
        text_less(b, c),
    ensures
        text_less(a, c),
{
    lemma_less_transitive_from(a, b, c, 0);
}

/// Of two different texts one comes first.
pub proof fn lemma_less_total(a: Seq<char>, b: Seq<char>)
    ensures
        text_less(a, b) || text_less(b, a) || a == b,
{
    assert(a.take(0) == b.take(0));
    lemma_less_total_from(a, b, 0);
}

/// Whether `a` comes before `b` in lexicographic order.
pub fn comes_before(a: &str, b: &str) -> (r: bool)
    ensures
        r == text_less(a@, b@),
{
    let x = to_chars(a);
    let y = to_chars(b);
    let mut i: usize = 0;
    while i < y.len() && i < x.len() && x[i] == y[i]
        invariant
            x@ == a@,
            y@ == b@,
            i <= y@.len(),
            less_from(a@, b@, i as int) == text_less(a@, b@),
        decreases y.len() - i,
    {
        i = i + 1;
    }
    if i >= y.len() {
        false
    } else if i >= x.len() {
        true
    } else {
        x[i] < y[i]
    }
}

/// Whether `s` begins with `p`.
pub open spec fn begins_with(s: Seq<char>, p: Seq<char>) -> bool {
    p.len() <= s.len() && s.take(p.len() as int) == p
}

/// Whether `s` ends with `p`.
pub open spec fn finishes_with(s: Seq<char>, p: Seq<char>) -> bool {
    p.len() <= s.len() && s.skip(s.len() - p.len()) == p
}

/// What follows the prefix `p` of `s`.
pub open spec fn after_prefix(s: Seq<char>, p: Seq<char>) -> Option<Seq<char>> {
    if begins_with(s, p) {
        Some(s.skip(p.len() as int))
    } else {
        None
    }
}

/// What precedes the suffix `p` of `s`.
pub open spec fn before_suffix(s: Seq<char>, p: Seq<char>) -> Option<Seq<char>> {
    if finishes_with(s, p) {
        Some(s.take(s.len() - p.len()))
    } else {
        None
    }
}

/// The text of an optional string.
pub open spec fn view_opt(s: Option<String>) -> Option<Seq<char>> {
    match s {
        Some(t) => Some(t@),
        None => None,
    }
}

/// The texts of an optional pair of strings.
pub open spec fn view_pair(p: Option<(String, String)>) -> Option<(Seq<char>, Seq<char>)> {
    match p {
        Some((a, b)) => Some((a@, b@)),
        None => None,
    }
}

/// The first index from `i` on at which `s` has `c`, or `s.len()` if there is none.
pub open spec fn find_from(s: Seq<char>, c: char, i: int) -> int
    decreases s.len() - i,
{
    if i >= s.len() {
        s.len() as int
    } else if s[i] == c {
        i
    } else {
        find_from(s, c, i + 1)
    }
}

/// The last index below `j` at which `s` has `c`, or -1 if there is none.
pub open spec fn rfind_below(s: Seq<char>, c: char, j: int) -> int
    decreases j,
{
    if j <= 0 {
        -1
    } else if s[j - 1] == c {
        j - 1
    } else {
        rfind_below(s, c, j - 1)
    }
}

/// What stands before and after the first `c` in `s`.
pub open spec fn split_at_first(s: Seq<char>, c: char) -> Option<(Seq<char>, Seq<char>)> {
    let i = find_from(s, c, 0);
    if i < s.len() {
        Some((s.take(i), s.skip(i + 1)))
    } else {
        None
    }
}

/// What stands before and after the last `c` in `s`.
pub open spec fn split_at_last(s: Seq<char>, c: char) -> Option<(Seq<char>, Seq<char>)> {
    let i = rfind_below(s, c, s.len() as int);
    if i >= 0 {
        Some((s.take(i), s.skip(i + 1)))
    } else {
        None
    }
}

/// The Unicode `White_Space` characters.
pub open spec fn is_space(c: char) -> bool {
    let u = c as u32;
    ||| 0x9 <= u <= 0xd
    ||| u == 0x20
    ||| u == 0x85
    ||| u == 0xa0
    ||| u == 0x1680
    ||| 0x2000 <= u <= 0x200a
    ||| u == 0x2028
    ||| u == 0x2029
    ||| u == 0x202f
    ||| u == 0x205f
    ||| u == 0x3000
}

/// The first index from `i` on at which `s` has no white space.
pub open spec fn skip_spaces(s: Seq<char>, i: int) -> int
    decreases s.len() - i,
{
    if i < s.len() && is_space(s[i]) {
        skip_spaces(s, i + 1)
    } else {
        i
    }
}

/// The end of `s[lo..j]` once trailing white space is taken off.
pub open spec fn drop_spaces(s: Seq<char>, lo: int, j: int) -> int
    decreases j - lo,
{
    if j > lo && is_space(s[j - 1]) {
        drop_spaces(s, lo, j - 1)
    } else {
        j
    }
}

/// `s` without white space at either end.
pub open spec fn trimmed(s: Seq<char>) -> Seq<char> {
    let lo = skip_spaces(s, 0);
    s.subrange(lo, drop_spaces(s, lo, s.len() as int))
}

/// `s` without the characters `c` at its end.
pub open spec fn trimmed_end(s: Seq<char>, c: char) -> Seq<char>
    decreases s.len(),
{
    if s.len() > 0 && s.last() == c {
        trimmed_end(s.drop_last(), c)
    } else {
        s
    }
}

/// `s` without the characters `c` at its start.
pub open spec fn trimmed_start(s: Seq<char>, c: char) -> Seq<char>
    decreases s.len(),
{
    if s.len() > 0 && s[0] == c {
        trimmed_start(s.skip(1), c)
    } else {
        s
    }
}

/// The first index from `i` on at which `s` has white space, or `s.len()`.
pub open spec fn word_end(s: Seq<char>, i: int) -> int
    decreases s.len() - i,
{
    if i < s.len() && !is_space(s[i]) {
        word_end(s, i + 1)
    } else {
        i
    }
}

/// The first run of characters in `s` that are not white space.
pub open spec fn first_word(s: Seq<char>) -> Option<Seq<char>> {
    let lo = skip_spaces(s, 0);
    if lo < s.len() {
        Some(s.subrange(lo, word_end(s, lo)))
    } else {
        None
    }
}

/// `s` with every `c` replaced by `with`.
pub open spec fn replaced(s: Seq<char>, c: char, with: Seq<char>) -> Seq<char>
    decreases s.len(),
{
    if s.len() == 0 {
        s
    } else if s.last() == c {
        replaced(s.drop_last(), c, with) + with
    } else {
        replaced(s.drop_last(), c, with).push(s.last())
    }
}

/// The lower-case form of an ASCII capital; other characters as they are.
pub open spec fn ascii_lower(c: char) -> char {
    if 'A' <= c <= 'Z' {
        ((c as u32) + 32) as char
    } else {
        c
    }
}

/// `s` with its ASCII capitals in lower case.
pub open spec fn ascii_lowered(s: Seq<char>) -> Seq<char> {
    Seq::new(s.len(), |i: int| ascii_lower(s[i]))
}

/// `a` followed by `b`.
pub fn cat(a: &str, b: &str) -> (r: String)
    ensures
        r@ == a@ + b@,
{
    let mut r = a.to_owned();
    r.append(b);
    r
}

/// Whether `s` begins with `p`.
pub fn starts_with(s: &str, p: &str) -> (r: bool)
    ensures
        r == begins_with(s@, p@),
{
    let x = to_chars(s);
    let y = to_chars(p);
    if y.len() > x.len() {
        return false;
    }
    let mut i: usize = 0;
    while i < y.len()
        invariant
            x@ == s@,
            y@ == p@,
            i <= y@.len() <= x@.len(),
            forall|j: int| 0 <= j < i ==> x@[j] == y@[j],
        decreases y.len() - i,
    {
        if x[i] != y[i] {
            assert(s@.take(p@.len() as int)[i as int] != p@[i as int]);
            return false;
        }
        i = i + 1;
    }
    assert(s@.take(p@.len() as int) == p@);
    true
}

/// Whether `s` ends with `p`.
pub fn ends_with(s: &str, p: &str) -> (r: bool)
    ensures
        r == finishes_with(s@, p@),
{
    let x = to_chars(s);
    let y = to_chars(p);
    if y.len() > x.len() {
        return false;
    }
    let d: usize = x.len() - y.len();
    let mut i: usize = 0;
    while i < y.len()
        invariant
            x@ == s@,
            y@ == p@,
            i <= y@.len() <= x@.len(),
            d + y.len() == x.len(),
            forall|j: int| 0 <= j < i ==> x@[d + j] == y@[j],
        decreases y.len() - i,
    {
        if x[d + i] != y[i] {
            assert(s@.skip(d as int)[i as int] != p@[i as int]);
            return false;
        }
        i = i + 1;
    }
    assert(s@.skip(d as int) == p@);
    true
}

/// What follows the prefix `p` of `s`, if `s` begins with it.
pub fn strip_prefix(s: &str, p: &str) -> (r: Option<String>)
    ensures
        view_opt(r) == after_prefix(s@, p@),
{
    if starts_with(s, p) {
        let x = to_chars(s);
        let n = to_chars(p).len();
        Some(from_chars(&x, n, x.len()))
    } else {
        None
    }
}

/// What precedes the suffix `p` of `s`, if `s` ends with it.
pub fn strip_suffix(s: &str, p: &str) -> (r: Option<String>)
    ensures
        view_opt(r) == before_suffix(s@, p@),
{
    if ends_with(s, p) {
        let x = to_chars(s);
        let n = to_chars(p).len();
        Some(from_chars(&x, 0, x.len() - n))
    } else {
        None
    }
}

/// A search from `i` ends at or after `i`, and within the text.
pub proof fn lemma_find_bounds(s: Seq<char>, c: char, i: int)
    requires
        0 <= i <= s.len(),
    ensures
        i <= find_from(s, c, i) <= s.len(),
    decreases s.len() - i,
{
    if i < s.len() && s[i] != c {
        lemma_find_bounds(s, c, i + 1);
    }
}

/// A search from `i` ends at the first place where `c` stands.
pub proof fn lemma_find_at(s: Seq<char>, c: char, i: int, e: int)
    requires
        0 <= i <= e <= s.len(),
        forall|j: int| i <= j < e ==> #[trigger] s[j] != c,
        e < s.len() ==> s[e] == c,
    ensures
        find_from(s, c, i) == e,
    decreases e - i,
{
    if i < e {
        lemma_find_at(s, c, i + 1, e);
    }
}

/// Splits `s` at the first `c`.
pub fn split_once(s: &str, c: char) -> (r: Option<(String, String)>)
    ensures
        view_pair(r) == split_at_first(s@, c),
{
    let x = to_chars(s);
    let mut i: usize = 0;
    while i < x.len() && x[i] != c
        invariant
            x@ == s@,
            i <= x@.len(),
            find_from(s@, c, i as int) == find_from(s@, c, 0),
        decreases x.len() - i,
    {
        i = i + 1;
    }
    if i < x.len() {
        Some((from_chars(&x, 0, i), from_chars(&x, i + 1, x.len())))
    } else {
        None
    }
}

/// Splits `s` at the last `c`.
pub fn rsplit_once(s: &str, c: char) -> (r: Option<(String, String)>)
    ensures
        view_pair(r) == split_at_last(s@, c),
{
    let x = to_chars(s);
    let mut j: usize = x.len();
    while j > 0 && x[j - 1] != c
        invariant
            x@ == s@,
            j <= x@.len(),
            rfind_below(s@, c, j as int) == rfind_below(s@, c, s@.len() as int),
        decreases j,
    {
        j = j - 1;
    }
    if j > 0 {
        Some((from_chars(&x, 0, j - 1), from_chars(&x, j, x.len())))
    } else {
        None
    }
}

fn is_white_space(c: char) -> (r: bool)
    ensures
        r == is_space(c),
{
    let u = c as u32;
    (0x9 <= u && u <= 0xd) || u == 0x20 || u == 0x85 || u == 0xa0 || u == 0x1680 || (0x2000 <= u
        && u <= 0x200a) || u == 0x2028 || u == 0x2029 || u == 0x202f || u == 0x205f || u == 0x3000
}

/// `s` without white space at either end.
pub fn trim(s: &str) -> (r: String)
    ensures
        r@ == trimmed(s@),
{
    let x = to_chars(s);
    let mut lo: usize = 0;
    while lo < x.len() && is_white_space(x[lo])
        invariant
            x@ == s@,
            lo <= x@.len(),
            skip_spaces(s@, lo as int) == skip_spaces(s@, 0),
        decreases x.len() - lo,
    {
        lo = lo + 1;
    }
    let mut hi: usize = x.len();
    while hi > lo && is_white_space(x[hi - 1])
        invariant
            x@ == s@,
            lo <= hi <= x@.len(),
            drop_spaces(s@, lo as int, hi as int) == drop_spaces(s@, lo as int, s@.len() as int),
        decreases hi - lo,
    {
        hi = hi - 1;
    }
    from_chars(&x, lo, hi)
}

/// `s` without the characters `c` at its end.
pub fn trim_end_matches(s: &str, c: char) -> (r: String)
    ensures
        r@ == trimmed_end(s@, c),
{
    let x = to_chars(s);
    let mut j: usize = x.len();
    assert(s@.take(j as int) == s@);
    while j > 0 && x[j - 1] == c
        invariant
            x@ == s@,
            j <= x@.len(),
            trimmed_end(s@.take(j as int), c) == trimmed_end(s@, c),
        decreases j,
    {
        assert(s@.take(j as int).drop_last() == s@.take(j - 1));
        j = j - 1;
    }
    assert(s@.take(j as int) == s@.subrange(0, j as int));
    from_chars(&x, 0, j)
}

/// `s` without the characters `c` at its start.
pub fn trim_start_matches(s: &str, c: char) -> (r: String)
    ensures
        r@ == trimmed_start(s@, c),
{
    let x = to_chars(s);
    let mut i: usize = 0;
    assert(s@.skip(0) == s@);
    while i < x.len() && x[i] == c
        invariant
            x@ == s@,
            i <= x@.len(),
            trimmed_start(s@.skip(i as int), c) == trimmed_start(s@, c),
        decreases x.len() - i,
    {
        assert(s@.skip(i as int).skip(1) == s@.skip(i + 1));
        i = i + 1;
    }
    assert(s@.skip(i as int) == s@.subrange(i as int, s@.len() as int));
    from_chars(&x, i, x.len())
}

/// The first run of characters in `s` that are not white space.
pub fn next_word(s: &str) -> (r: Option<String>)
    ensures
        view_opt(r) == first_word(s@),
{
    let x = to_chars(s);
    let mut lo: usize = 0;
    while lo < x.len() && is_white_space(x[lo])
        invariant
            x@ == s@,
            lo <= x@.len(),
            skip_spaces(s@, lo as int) == skip_spaces(s@, 0),
        decreases x.len() - lo,
    {
        lo = lo + 1;
    }
    if lo == x.len() {
        return None;
    }
    let mut hi: usize = lo;
    while hi < x.len() && !is_white_space(x[hi])
        invariant
            x@ == s@,
            lo <= hi <= x@.len(),
            word_end(s@, hi as int) == word_end(s@, lo as int),
        decreases x.len() - hi,
    {
        hi = hi + 1;
    }
    Some(from_chars(&x, lo, hi))
}

/// `s` with every `c` replaced by `with`.
pub fn replace(s: &str, c: char, with: &str) -> (r: String)
    ensures
        r@ == replaced(s@, c, with@),
{
    let x = to_chars(s);
    let mut r = String::new();
    let mut i: usize = 0;
    assert(replaced(s@.take(0), c, with@) == Seq::<char>::empty());
    while i < x.len()
        invariant
            x@ == s@,
            i <= x@.len(),
            r@ == replaced(s@.take(i as int), c, with@),
        decreases x.len() - i,
    {
        assert(s@.take(i + 1).drop_last() == s@.take(i as int));
        if x[i] == c {
            r.append(with);
        } else {
            r.push(x[i]);
        }
        i = i + 1;
    }
    assert(s@.take(i as int) == s@);
    r
}

fn lower_char(c: char) -> (r: char)
    ensures
        r == ascii_lower(c),
{
    if 'A' <= c && c <= 'Z' {
        ((c as u8) + 32) as char
    } else {
        c
    }
}

/// `s` with its ASCII capitals in lower case.
pub fn to_ascii_lowercase(s: &str) -> (r: String)
    ensures
        r@ == ascii_lowered(s@),
{
    let x = to_chars(s);
    let mut r = String::new();
    let mut i: usize = 0;
    while i < x.len()
        invariant
            x@ == s@,
            i <= x@.len(),
            r@ == ascii_lowered(s@).take(i as int),
        decreases x.len() - i,
    {
        r.push(lower_char(x[i]));
        i = i + 1;
        assert(ascii_lowered(s@).take(i as int) == ascii_lowered(s@).take(i - 1).push(
            ascii_lower(s@[i - 1]),
        ));
    }
    assert(ascii_lowered(s@).take(i as int) == ascii_lowered(s@));
    r
}

/// A line without its carriage return, if it ends in one.
pub open spec fn without_cr(line: Seq<char>) -> Seq<char> {
    if line.len() > 0 && line.last() == '\r' {
        line.drop_last()
    } else {
        line
    }
}

/// The lines of `s[i..]`: a line ends with a line feed, or a carriage return and a line
/// feed, and the last line need not.
pub open spec fn lines_from(s: Seq<char>, i: int) -> Seq<Seq<char>>
    decreases s.len() - i,
    when 0 <= i
{
    let e = find_from(s, '\n', i);
    proof {
        if i < s.len() {
            lemma_find_bounds(s, '\n', i);
        }
    }
    if i >= s.len() {
        Seq::empty()
    } else if e >= s.len() {
        seq![s.skip(i)]
    } else {
        seq![without_cr(s.subrange(i, e))] + lines_from(s, e + 1)
    }
}

/// The texts of a list of strings.
pub open spec fn views(v: Seq<String>) -> Seq<Seq<char>> {
    Seq::new(v.len(), |i: int| v[i]@)
}

/// The texts of a list of pairs of strings.
pub open spec fn view_pairs(v: Seq<(String, String)>) -> Seq<(Seq<char>, Seq<char>)> {
    Seq::new(v.len(), |i: int| (v[i].0@, v[i].1@))
}

/// The lines of `s`, without their endings.
pub fn lines(s: &str) -> (r: Vec<String>)
    ensures
        views(r@) == lines_from(s@, 0),
{
    let x = to_chars(s);
    let mut r: Vec<String> = Vec::new();
    let mut i: usize = 0;
    assert(views(r@) + lines_from(s@, 0) == lines_from(s@, 0));
    while i < x.len()
        invariant
            x@ == s@,
            i <= x@.len(),
            views(r@) + lines_from(s@, i as int) == lines_from(s@, 0),
        decreases x.len() - i,
    {
        let ghost before = r@;
        let start = i;
        let mut e: usize = i;
        while e < x.len() && x[e] != '\n'
            invariant
                x@ == s@,
                start <= e <= x@.len(),
                find_from(s@, '\n', e as int) == find_from(s@, '\n', start as int),
            decreases x.len() - e,
        {
            e = e + 1;
        }
        if e < x.len() {
            let end = if e > start && x[e - 1] == '\r' {
                e - 1
            } else {
                e
            };
            r.push(from_chars(&x, start, end));
            i = e + 1;
            proof {
                let whole = s@.subrange(start as int, e as int);
                assert(r@.last()@ == without_cr(whole));
                assert(views(r@) == views(before).push(without_cr(whole)));
                assert(views(r@) + lines_from(s@, i as int) == views(before) + (seq![
                    without_cr(whole),
                ] + lines_from(s@, i as int)));
            }
        } else {
            r.push(from_chars(&x, start, e));
            i = e;
            proof {
                assert(s@.subrange(start as int, e as int) == s@.skip(start as int));
                assert(views(r@) == views(before).push(s@.skip(start as int)));
                assert(views(r@) + lines_from(s@, i as int) == views(before) + seq![
                    s@.skip(start as int),
                ]);
            }
        }
    }
    assert(views(r@) == views(r@) + lines_from(s@, i as int));
    r
}

/// The parts of `s[i..]` between the characters `c`.
pub open spec fn parts_from(s: Seq<char>, c: char, i: int) -> Seq<Seq<char>>
    decreases s.len() - i,
    when 0 <= i <= s.len()
{
    let e = find_from(s, c, i);
    proof {
        lemma_find_bounds(s, c, i);
    }
    if e >= s.len() {
        seq![s.skip(i)]
    } else {
        seq![s.subrange(i, e)] + parts_from(s, c, e + 1)
    }
}

/// Whether `s[a..b]` is one of the parts of `s[i..]` between the characters `c`.
pub open spec fn is_part(s: Seq<char>, c: char, i: int, a: int, b: int) -> bool {
    &&& 0 <= i <= a <= b <= s.len()
    &&& a == i || s[a - 1] == c
    &&& b == s.len() || s[b] == c
    &&& forall|j: int| a <= j < b ==> #[trigger] s[j] != c
}

/// A search from `i` passes no `c`, and ends at one unless it ends with the text.
pub proof fn lemma_find_stops(s: Seq<char>, c: char, i: int)
    requires
        0 <= i <= s.len(),
    ensures
        i <= find_from(s, c, i) <= s.len(),
        find_from(s, c, i) < s.len() ==> s[find_from(s, c, i)] == c,
        forall|j: int| i <= j < find_from(s, c, i) ==> #[trigger] s[j] != c,
    decreases s.len() - i,
{
    if i < s.len() && s[i] != c {
        lemma_find_stops(s, c, i + 1);
    }
}

/// Every part stands somewhere in the text.
pub proof fn lemma_part_stands(s: Seq<char>, c: char, i: int, k: int) -> (r: (int, int))
    requires
        0 <= i <= s.len(),
        0 <= k < parts_from(s, c, i).len(),
    ensures
        is_part(s, c, i, r.0, r.1),
        parts_from(s, c, i)[k] == s.subrange(r.0, r.1),
    decreases k,
{
    let e = find_from(s, c, i);
    lemma_find_stops(s, c, i);
    if e >= s.len() {
        assert(s.skip(i) == s.subrange(i, s.len() as int));
        (i, s.len() as int)
    } else if k == 0 {
        (i, e)
    } else {
        lemma_part_stands(s, c, e + 1, k - 1)
    }
}

proof fn lemma_parts_shift(s: Seq<char>, b: Seq<char>, c: char, k: int, j: int)
    requires
        0 <= k <= s.len(),
        s.skip(k) == b,
        0 <= j <= b.len(),
    ensures
        parts_from(s, c, k + j) == parts_from(b, c, j),
    decreases b.len() - j,
{
    let e = find_from(b, c, j);
    lemma_find_stops(b, c, j);
    assert forall|x: int| k + j <= x < k + e implies #[trigger] s[x] != c by {
        assert(b[x - k] != c);
    }
    if e < b.len() {
        assert(s[k + e] == b[e]);
    }
    lemma_find_at(s, c, k + j, k + e);
    if e < b.len() {
        lemma_parts_shift(s, b, c, k, e + 1);
        assert(s.subrange(k + j, k + e) == b.subrange(j, e));
    } else {
        assert(s.skip(k + j) == b.skip(j));
    }
}

proof fn lemma_parts_join_from(a: Seq<char>, b: Seq<char>, c: char, i: int)
    requires
        0 <= i <= a.len(),
    ensures
        parts_from(a.push(c) + b, c, i) == parts_from(a, c, i) + parts_from(b, c, 0),
    decreases a.len() - i,
{
    let s = a.push(c) + b;
    let e = find_from(a, c, i);
    lemma_find_stops(a, c, i);
    assert forall|x: int| i <= x < e implies #[trigger] s[x] != c by {
        assert(a[x] != c);
    }
    assert(s[e] == c);
    lemma_find_at(s, c, i, e);
    assert(s.subrange(i, e) == a.subrange(i, e));
    if e < a.len() {
        lemma_parts_join_from(a, b, c, e + 1);
        assert(parts_from(s, c, i) == seq![a.subrange(i, e)] + (parts_from(a, c, e + 1)
            + parts_from(b, c, 0)));
        assert(parts_from(a, c, i) + parts_from(b, c, 0) == seq![a.subrange(i, e)] + (parts_from(
            a,
            c,
            e + 1,
        ) + parts_from(b, c, 0)));
    } else {
        assert(s.skip(e + 1) == b);
        lemma_parts_shift(s, b, c, e + 1, 0);
        assert(a.skip(i) == a.subrange(i, e));
    }
}

/// The parts of two texts with `c` between them are those of the one and of the other.
pub proof fn lemma_parts_join(a: Seq<char>, b: Seq<char>, c: char)
    ensures
        parts_from(a.push(c) + b, c, 0) == parts_from(a, c, 0) + parts_from(b, c, 0),
{
    lemma_parts_join_from(a, b, c, 0);
}

/// The parts of `s` between the characters `c`.
pub fn split(s: &str, c: char) -> (r: Vec<String>)
    ensures
        views(r@) == parts_from(s@, c, 0),
{
    let x = to_chars(s);
    let mut r: Vec<String> = Vec::new();
    let mut start: usize = 0;
    let mut i: usize = 0;
    assert(views(r@) + parts_from(s@, c, 0) == parts_from(s@, c, 0));
    while i < x.len()
        invariant
            x@ == s@,
            start <= i <= x@.len(),
            views(r@) + parts_from(s@, c, start as int) == parts_from(s@, c, 0),
            find_from(s@, c, i as int) == find_from(s@, c, start as int),
        decreases x.len() - i,
    {
        if x[i] == c {
            let ghost before = r@;
            let part = from_chars(&x, start, i);
            let ghost p = part@;
            r.push(part);
            proof {
                assert(views(r@) == views(before).push(p));
                assert(views(r@) + parts_from(s@, c, i + 1) == views(before) + (seq![p]
                    + parts_from(s@, c, i + 1)));
            }
            start = i + 1;
        }
        i = i + 1;
    }
    let ghost before = r@;
    let part = from_chars(&x, start, i);
    let ghost p = part@;
    r.push(part);
    proof {
        assert(p == s@.skip(start as int));
        assert(views(r@) == views(before) + seq![p]);
    }
    r
}

/// The number that a run of decimal digits stands for.
pub open spec fn digits_value(s: Seq<char>) -> nat
    decreases s.len(),
{
    if s.len() == 0 {
        0
    } else {
        (digits_value(s.drop_last()) * 10 + (s.last() as u32 - '0' as u32)) as nat
    }
}

/// Whether `s` is one or more ASCII digits.
pub open spec fn is_digits(s: Seq<char>) -> bool {
    s.len() > 0 && forall|i: int| 0 <= i < s.len() ==> '0' <= #[trigger] s[i] <= '9'
}

/// The number that `s` writes in decimal, with an optional `+` before it.
pub open spec fn decimal(s: Seq<char>) -> Option<nat> {
    let body = if s.len() > 0 && s[0] == '+' {
        s.skip(1)
    } else {
        s
    };
    if is_digits(body) {
        Some(digits_value(body))
    } else {
        None
    }
}

/// A longer run of digits stands for a number at least as large.
pub proof fn lemma_digits_grow(s: Seq<char>, i: int)
    requires
        0 <= i <= s.len(),
        forall|j: int| 0 <= j < s.len() ==> '0' <= #[trigger] s[j] <= '9',
    ensures
        digits_value(s.take(i)) <= digits_value(s),
    decreases s.len() - i,
{
    if i < s.len() {
        lemma_digits_grow(s, i + 1);
        assert(s.take(i + 1).drop_last() == s.take(i));
    } else {
        assert(s.take(i) == s);
    }
}

/// The number that `s` writes in decimal, if it does and a `usize` can hold it.
pub fn parse_usize(s: &str) -> (r: Option<usize>)
    ensures
        match r {
            Some(n) => decimal(s@) == Some(n as nat),
            None => decimal(s@) is None || decimal(s@)->0 > usize::MAX,
        },
{
    let x = to_chars(s);
    let start: usize = if x.len() > 0 && x[0] == '+' {
        1
    } else {
        0
    };
    let ghost body = s@.skip(start as int);
    assert(start == 0 ==> body == s@);
    if start == x.len() {
        return None;
    }
    let mut k: usize = start;
    while k < x.len()
        invariant
            x@ == s@,
            start <= k <= x@.len(),
            start < x@.len(),
            body == s@.skip(start as int),
            decimal(s@) == (if is_digits(body) {
                Some(digits_value(body))
            } else {
                None
            }),
            forall|j: int| 0 <= j < k - start ==> '0' <= #[trigger] body[j] <= '9',
        decreases x.len() - k,
    {
        if x[k] < '0' || x[k] > '9' {
            assert(body[k - start] == x@[k as int]);
            return None;
        }
        assert(body[k - start] == x@[k as int]);
        k = k + 1;
    }
    let mut value: usize = 0;
    let mut i: usize = start;
    while i < x.len()
        invariant
            x@ == s@,
            start <= i <= x@.len(),
            start < x@.len(),
            body == s@.skip(start as int),
            decimal(s@) == Some(digits_value(body)),
            forall|j: int| 0 <= j < body.len() ==> '0' <= #[trigger] body[j] <= '9',
            value == digits_value(body.take(i - start)),
        decreases x.len() - i,
    {
        proof {
            assert(body[i - start] == x@[i as int]);
            assert(body.take(i - start + 1).drop_last() == body.take(i - start));
            lemma_digits_grow(body, i - start + 1);
        }
        let digit: usize = ((x[i] as u8) - ('0' as u8)) as usize;
        match value.checked_mul(10) {
            Some(tens) => match tens.checked_add(digit) {
                Some(next) => {
                    value = next;
                },
                None => {
                    return None;
                },
            },
            None => {
                return None;
            },
        }
        i = i + 1;
    }
    assert(body.take(i - start) == body);
    Some(value)
}

/// A number in decimal, without leading zeros.
pub open spec fn decimal_text(n: nat) -> Seq<char>
    decreases n,
{
    let last = ('0' as u32 + n % 10) as char;
    if n < 10 {
        seq![last]
    } else {
        decimal_text(n / 10).push(last)
    }
}

fn digit_char(d: u64) -> (c: char)
    requires
        d < 10,
    ensures
        c == ('0' as u32 + d) as char,
{
    (48u8 + (d as u8)) as char
}

/// A number in decimal, without leading zeros.
pub fn format_u64(n: u64) -> (r: String)
    ensures
        r@ == decimal_text(n as nat),
    decreases n,
{
    if n < 10 {
        let mut r = String::new();
        r.push(digit_char(n));
        assert(r@ == decimal_text(n as nat));
        r
    } else {
        let mut r = format_u64(n / 10);
        r.push(digit_char(n % 10));
        r
    }
}

/// A list of texts with `sep` between them.
pub open spec fn joined(parts: Seq<Seq<char>>, sep: Seq<char>) -> Seq<char>
    decreases parts.len(),
{
    if parts.len() == 0 {
        Seq::empty()
    } else if parts.len() == 1 {
        parts[0]
    } else {
        joined(parts.drop_last(), sep) + sep + parts.last()
    }
}

/// The strings of `parts[from..]` with `sep` between them.
pub fn join(parts: &Vec<String>, from: usize, sep: &str) -> (r: String)
    requires
        from <= parts@.len(),
    ensures
        r@ == joined(views(parts@).skip(from as int), sep@),
{
    let ghost all = views(parts@).skip(from as int);
    let mut r = String::new();
    let mut i: usize = from;
    assert(all.take(0) == Seq::<Seq<char>>::empty());
    while i < parts.len()
        invariant
            from <= i <= parts@.len(),
            all == views(parts@).skip(from as int),
            r@ == joined(all.take(i - from), sep@),
        decreases parts.len() - i,
    {
        proof {
            assert(all.take(i - from + 1).drop_last() == all.take(i - from));
            assert(all.take(i - from + 1).last() == parts@[i as int]@);
        }
        if i > from {
            r.append(sep);
        }
        r.append(parts[i].as_str());
        i = i + 1;
    }
    assert(all.take(i - from) == all);
    r
}

/// What `str::to_lowercase` makes of a text.
pub uninterp spec fn lowercased(s: Seq<char>) -> Seq<char>;

/// `str::to_lowercase`: the Unicode lower-case form of `s`, which `s` alone determines. On
/// ASCII text only the letters from `A` to `Z` have another lower-case form.
#[verifier::external_body]
pub(crate) fn to_lowercase(s: &str) -> (r: String)
    ensures
        r@ == lowercased(s@),
        (forall|i: int| 0 <= i < s@.len() ==> (#[trigger] s@[i] as u32) < 128) ==> r@
            == ascii_lowered(s@),
{
    s.to_lowercase()
}

/// Blanks, tabs and line ends are white space; the printable ASCII characters are not. Beyond
/// ASCII it is the spaces and line ends of Unicode alone.
pub proof fn blanks_are_spaces(c: char)
    ensures
        c > '~' ==> (is_space(c) <==> c == '\u{85}' || c == '\u{a0}' || c == '\u{1680}' || '\u{2000}'
            <= c <= '\u{200a}' || c == '\u{2028}' || c == '\u{2029}' || c == '\u{202f}' || c
            == '\u{205f}' || c == '\u{3000}'),
        c < '!' ==> (is_space(c) <==> c == ' ' || '\t' <= c <= '\r'),
        c == ' ' || c == '\t' || c == '\n' || c == '\r' ==> is_space(c),
        '!' <= c <= '~' ==> !is_space(c),
{
}

proof fn lemma_skip_spaces(s: Seq<char>, i: int, lo: int)
    requires
        0 <= i <= lo <= s.len(),
        forall|j: int| i <= j < lo ==> is_space(#[trigger] s[j]),
        lo < s.len() ==> !is_space(s[lo]),
    ensures
        skip_spaces(s, i) == lo,
    decreases lo - i,
{
    if i < lo {
        lemma_skip_spaces(s, i + 1, lo);
    }
}

proof fn lemma_drop_spaces(s: Seq<char>, lo: int, hi: int, j: int)
    requires
        0 <= lo <= hi <= j <= s.len(),
        forall|k: int| hi <= k < j ==> is_space(#[trigger] s[k]),
        hi > lo ==> !is_space(s[hi - 1]),
    ensures
        drop_spaces(s, lo, j) == hi,
    decreases j - hi,
{
    if j > hi {
        lemma_drop_spaces(s, lo, hi, j - 1);
    }
}

/// White space around a text is taken off, and nothing else.
pub proof fn trimming_takes_space_off(a: Seq<char>, s: Seq<char>, b: Seq<char>)
    requires
        forall|i: int| 0 <= i < a.len() ==> is_space(#[trigger] a[i]),
        forall|i: int| 0 <= i < b.len() ==> is_space(#[trigger] b[i]),
        s.len() > 0 ==> !is_space(s[0]) && !is_space(s.last()),
    ensures
        trimmed(a + s + b) == s,
{
    let t = a + s + b;
    if s.len() > 0 {
        let lo = a.len() as int;
        let hi = lo + s.len();
        assert forall|j: int| 0 <= j < lo implies is_space(#[trigger] t[j]) by {
            assert(t[j] == a[j]);
        }
        assert forall|k: int| hi <= k < t.len() implies is_space(#[trigger] t[k]) by {
            assert(t[k] == b[k - hi]);
        }
        assert(t[lo] == s[0] && t[hi - 1] == s.last());
        lemma_skip_spaces(t, 0, lo);
        lemma_drop_spaces(t, lo, hi, t.len() as int);
        assert(t.subrange(lo, hi) =~= s);
    } else {
        let n = t.len() as int;
        assert forall|j: int| 0 <= j < n implies is_space(#[trigger] t[j]) by {
            if j < a.len() {
                assert(t[j] == a[j]);
            } else {
                assert(t[j] == b[j - a.len()]);
            }
        }
        lemma_skip_spaces(t, 0, n);
        assert(t.subrange(n, n) =~= s);
    }
}

/// A text is split at the first of the characters that separate: what is before holds none.
pub proof fn the_first_separator_splits(k: Seq<char>, c: char, v: Seq<char>)
    requires
        !k.contains(c),
    ensures
        split_at_first(k + seq![c] + v, c) == Some((k, v)),
        split_at_first(k, c) is None,
{
    let s = k + seq![c] + v;
    let n = k.len() as int;
    assert forall|j: int| 0 <= j < n implies #[trigger] s[j] != c by {
        assert(k.contains(k[j]));
    }
    lemma_find_at(s, c, 0, n);
    assert(s.take(n) =~= k && s.skip(n + 1) =~= v);
    assert forall|j: int| 0 <= j < n implies #[trigger] k[j] != c by {
        assert(k.contains(k[j]));
    }
    lemma_find_at(k, c, 0, n);
}

proof fn lemma_rfind_at(s: Seq<char>, c: char, e: int, j: int)
    requires
        -1 <= e < j <= s.len(),
        e >= 0 ==> s[e] == c,
        forall|i: int| e < i < j ==> #[trigger] s[i] != c,
    ensures
        rfind_below(s, c, j) == e,
    decreases j - e,
{
    if j > e + 1 {
        lemma_rfind_at(s, c, e, j - 1);
    }
}

/// A text is split at the last of the characters that separate: what is behind holds none.
pub proof fn the_last_separator_splits(k: Seq<char>, c: char, v: Seq<char>)
    requires
        !v.contains(c),
    ensures
        split_at_last(k + seq![c] + v, c) == Some((k, v)),
        split_at_last(v, c) is None,
{
    let s = k + seq![c] + v;
    let n = k.len() as int;
    assert forall|j: int| n < j < s.len() implies #[trigger] s[j] != c by {
        assert(s[j] == v[j - n - 1]);
        assert(v.contains(v[j - n - 1]));
    }
    lemma_rfind_at(s, c, n, s.len() as int);
    assert(s.take(n) =~= k && s.skip(n + 1) =~= v);
    assert forall|j: int| -1 < j < v.len() implies #[trigger] v[j] != c by {
        assert(v.contains(v[j]));
    }
    lemma_rfind_at(v, c, -1, v.len() as int);
}

proof fn lemma_find_shift(a: Seq<char>, b: Seq<char>, c: char, i: int)
    requires
        0 <= i <= b.len(),
    ensures
        find_from(a + b, c, a.len() + i) == a.len() + find_from(b, c, i),
    decreases b.len() - i,
{
    if i < b.len() {
        assert((a + b)[a.len() + i] == b[i]);
        if b[i] != c {
            lemma_find_shift(a, b, c, i + 1);
        }
    }
}

proof fn lemma_lines_shift(a: Seq<char>, b: Seq<char>, i: int)
    requires
        0 <= i <= b.len(),
    ensures
        lines_from(a + b, a.len() + i) == lines_from(b, i),
    decreases b.len() - i,
{
    let s = a + b;
    let n = a.len() as int;
    if i < b.len() {
        lemma_find_shift(a, b, '\n', i);
        lemma_find_bounds(b, '\n', i);
        let e = find_from(b, '\n', i);
        assert(s.skip(n + i) =~= b.skip(i));
        if e < b.len() {
            assert(s.subrange(n + i, n + e) =~= b.subrange(i, e));
            lemma_lines_shift(a, b, e + 1);
        }
    }
}

/// A text is read line by line: a line ends at the line feed, and a carriage return before that
/// belongs to the line end.
pub proof fn lines_end_at_line_feeds(line: Seq<char>, rest: Seq<char>)
    requires
        !line.contains('\n'),
    ensures
        lines_from(line + seq!['\n'] + rest, 0) == seq![
            if line.len() > 0 && line.last() == '\r' {
                line.drop_last()
            } else {
                line
            },
        ] + lines_from(rest, 0),
        line.len() > 0 ==> lines_from(line, 0) == seq![line],
        lines_from(Seq::empty(), 0) == Seq::<Seq<char>>::empty(),
{
    let front = line + seq!['\n'];
    let s = front + rest;
    let n = line.len() as int;
    assert forall|j: int| 0 <= j < n implies #[trigger] s[j] != '\n' by {
        assert(line.contains(line[j]));
    }
    assert(s[n] == '\n');
    lemma_find_at(s, '\n', 0, n);
    assert(s.subrange(0, n) =~= line);
    lemma_lines_shift(front, rest, 0);
    assert forall|j: int| 0 <= j < n implies #[trigger] line[j] != '\n' by {
        assert(line.contains(line[j]));
    }
    lemma_find_at(line, '\n', 0, n);
    assert(line.skip(0) =~= line);
}

/// A text begins with another one if it is that one and something after it, which is what
/// follows the prefix; and it ends with another one if it is something and that one after it,
/// where the something precedes the suffix.
pub proof fn beginnings_and_ends_are_cut_off(a: Seq<char>, b: Seq<char>, s: Seq<char>, p: Seq<char>)
    ensures
        begins_with(a + b, a),
        after_prefix(a + b, a) == Some(b),
        finishes_with(a + b, b),
        before_suffix(a + b, b) == Some(a),
        begins_with(s, p) <==> after_prefix(s, p) is Some,
        begins_with(s, p) ==> s == p + after_prefix(s, p)->0,
        finishes_with(s, p) <==> before_suffix(s, p) is Some,
        finishes_with(s, p) ==> s == before_suffix(s, p)->0 + p,
{
    assert((a + b).take(a.len() as int) == a);
    assert((a + b).skip(a.len() as int) == b);
    assert((a + b).len() - b.len() == a.len());
    if begins_with(s, p) {
        assert(s == s.take(p.len() as int) + s.skip(p.len() as int));
    }
    if finishes_with(s, p) {
        assert(s == s.take(s.len() - p.len()) + s.skip(s.len() - p.len()));
    }
}

/// What is trimmed at the end is a run of the character and nothing else: a text that does not
/// end in it comes back from however many of them stand after it.
pub proof fn trailing_characters_are_taken_off(s: Seq<char>, c: char, n: nat)
    requires
        s.len() > 0 ==> s.last() != c,
    ensures
        trimmed_end(s + Seq::new(n, |i: int| c), c) == s,
    decreases n,
{
    let t = s + Seq::new(n, |i: int| c);
    if n > 0 {
        trailing_characters_are_taken_off(s, c, (n - 1) as nat);
        assert(t.drop_last() == s + Seq::new((n - 1) as nat, |i: int| c));
    } else {
        assert(t == s);
    }
}

/// What is trimmed at the start is a run of the character and nothing else.
pub proof fn leading_characters_are_taken_off(s: Seq<char>, c: char, n: nat)
    requires
        s.len() > 0 ==> s[0] != c,
    ensures
        trimmed_start(Seq::new(n, |i: int| c) + s, c) == s,
    decreases n,
{
    let t = Seq::new(n, |i: int| c) + s;
    if n > 0 {
        leading_characters_are_taken_off(s, c, (n - 1) as nat);
        assert(t.skip(1) == Seq::new((n - 1) as nat, |i: int| c) + s);
    } else {
        assert(t == s);
    }
}

/// Replacing goes character by character: each `c` gives `with`, every other character
/// itself, in order.
pub proof fn every_occurrence_is_replaced(a: Seq<char>, b: Seq<char>, x: char, c: char, with: Seq<char>)
    ensures
        replaced(Seq::empty(), c, with) == Seq::<char>::empty(),
        x == c ==> replaced(seq![x], c, with) == with,
        x != c ==> replaced(seq![x], c, with) == seq![x],
        replaced(a + b, c, with) == replaced(a, c, with) + replaced(b, c, with),
    decreases b.len(),
{
    assert(seq![x].drop_last() == Seq::<char>::empty());
    assert(replaced(seq![x].drop_last(), c, with) == Seq::<char>::empty());
    assert(Seq::<char>::empty() + with == with);
    assert(Seq::<char>::empty().push(x) == seq![x]);
    if b.len() == 0 {
        assert(a + b == a);
        assert(replaced(b, c, with) == Seq::<char>::empty());
        assert(replaced(a, c, with) + Seq::<char>::empty() == replaced(a, c, with));
    } else {
        every_occurrence_is_replaced(a, b.drop_last(), x, c, with);
        assert((a + b).drop_last() == a + b.drop_last());
        assert((a + b).last() == b.last());
        assert(replaced(a, c, with) + (replaced(b.drop_last(), c, with) + with) == replaced(
            a,
            c,
            with,
        ) + replaced(b.drop_last(), c, with) + with);
        assert(replaced(a, c, with) + replaced(b.drop_last(), c, with).push(b.last()) == (replaced(
            a,
            c,
            with,
        ) + replaced(b.drop_last(), c, with)).push(b.last()));
    }
}

/// Lowering changes the capitals from `A` to `Z`, each to the letter 32 places on, and nothing
/// else.
pub proof fn capitals_are_lowered(s: Seq<char>, i: int)
    requires
        0 <= i < s.len(),
    ensures
        ascii_lowered(s).len() == s.len(),
        'A' <= s[i] <= 'Z' ==> ascii_lowered(s)[i] as u32 == s[i] as u32 + 32,
        s[i] < 'A' || s[i] > 'Z' ==> ascii_lowered(s)[i] == s[i],
{
}

proof fn lemma_word_end(s: Seq<char>, i: int, e: int)
    requires
        0 <= i <= e <= s.len(),
        forall|j: int| i <= j < e ==> !is_space(#[trigger] s[j]),
        e == s.len() || is_space(s[e]),
    ensures
        word_end(s, i) == e,
    decreases e - i,
{
    if i < e {
        lemma_word_end(s, i + 1, e);
    }
}

/// The first word is what stands between the white space at the start and the next white
/// space or the end; a text of white space alone has none.
pub proof fn the_first_word_stands_between_spaces(
    spaces: Seq<char>,
    word: Seq<char>,
    rest: Seq<char>,
)
    requires
        forall|i: int| 0 <= i < spaces.len() ==> is_space(#[trigger] spaces[i]),
        forall|i: int| 0 <= i < word.len() ==> !is_space(#[trigger] word[i]),
        rest.len() > 0 ==> is_space(rest[0]),
    ensures
        first_word(spaces) is None,
        word.len() > 0 ==> first_word(spaces + word + rest) == Some(word),
{
    lemma_skip_spaces(spaces, 0, spaces.len() as int);
    if word.len() > 0 {
        let s = spaces + word + rest;
        let lo = spaces.len() as int;
        let e = lo + word.len();
        assert forall|j: int| 0 <= j < lo implies is_space(#[trigger] s[j]) by {
            assert(s[j] == spaces[j]);
        }
        assert(s[lo] == word[0]);
        lemma_skip_spaces(s, 0, lo);
        assert forall|j: int| lo <= j < e implies !is_space(#[trigger] s[j]) by {
            assert(s[j] == word[j - lo]);
        }
        if rest.len() > 0 {
            assert(s[e] == rest[0]);
        }
        lemma_word_end(s, lo, e);
        assert(s.subrange(lo, e) == word);
    }
}

proof fn lemma_less_after(p: Seq<char>, a: Seq<char>, b: Seq<char>, i: int)
    requires
        0 <= i <= p.len(),
    ensures
        less_from(p + a, p + b, i) == less_from(p + a, p + b, p.len() as int),
    decreases p.len() - i,
{
    if i < p.len() {
        lemma_less_after(p, a, b, i + 1);
        if i < (p + b).len() {
            assert((p + a)[i] == p[i] && (p + b)[i] == p[i]);
        }
    }
}

/// Where two texts first differ decides on their order; a text comes before its
/// continuations.
pub proof fn the_first_difference_decides(p: Seq<char>, a: Seq<char>, b: Seq<char>)
    ensures
        a.len() > 0 && b.len() > 0 && a[0] != b[0] ==> (text_less(p + a, p + b) <==> a[0] < b[0]),
        b.len() > 0 ==> text_less(p, p + b) && !text_less(p + b, p),
        !text_less(p, p),
{
    lemma_less_after(p, a, b, 0);
    let e = Seq::<char>::empty();
    lemma_less_after(p, e, b, 0);
    lemma_less_after(p, b, e, 0);
    assert(p + e == p);
    lemma_less_irreflexive(p);
    if a.len() > 0 && b.len() > 0 {
        assert((p + a)[p.len() as int] == a[0] && (p + b)[p.len() as int] == b[0]);
    }
}

/// A decimal number is one digit or more: a digit alone is its value, one more digit
/// multiplies by ten, a `+` before the number changes nothing, and a text with any other
/// character is no number, nor is an empty one.
pub proof fn numbers_are_read_digit_by_digit(s: Seq<char>, d: char, x: char, i: int)
    requires
        forall|j: int| 0 <= j < s.len() ==> '0' <= #[trigger] s[j] <= '9',
        '0' <= d <= '9',
        0 <= i <= s.len(),
        x < '0' || x > '9',
    ensures
        decimal(seq![d]) == Some((d as u32 - '0' as u32) as nat),
        s.len() > 0 ==> decimal(s) is Some && decimal(s.push(d)) == Some(
            (decimal(s)->0 * 10 + (d as u32 - '0' as u32)) as nat,
        ),
        s.len() > 0 ==> decimal(seq!['+'] + s) == decimal(s),
        decimal(Seq::empty()) is None,
        decimal(seq![x]) is None,
        x != '+' || i > 0 ==> decimal(s.take(i) + seq![x] + s.skip(i)) is None,
{
    let one = seq![d];
    assert(one.drop_last() == Seq::<char>::empty());
    assert(digits_value(one.drop_last()) == 0);
    assert(is_digits(one));
    assert(s.push(d).drop_last() == s);
    if s.len() > 0 {
        assert(is_digits(s));
        assert(s[0] != '+');
        assert(s.push(d)[0] == s[0]);
        assert(is_digits(s.push(d)));
        assert((seq!['+'] + s)[0] == '+');
        assert((seq!['+'] + s).skip(1) == s);
    }
    assert(!is_digits(seq![x])) by {
        assert(seq![x][0] == x);
    }
    if seq![x][0] == '+' {
        assert(seq![x].skip(1).len() == 0);
    }
    let t = s.take(i) + seq![x] + s.skip(i);
    assert(t[i] == x);
    if x != '+' || i > 0 {
        if t[0] == '+' {
            if i > 0 {
                assert(t[0] == s[0]);
            }
        }
        assert(!is_digits(t));
    }
}

/// A number is written so that it is read back, without a sign and without leading zeros.
pub proof fn written_numbers_are_read_back(n: nat)
    ensures
        decimal(decimal_text(n)) == Some(n),
        decimal_text(n).len() > 0,
        decimal_text(n)[0] == '0' ==> n == 0 && decimal_text(n).len() == 1,
        forall|i: int|
            0 <= i < decimal_text(n).len() ==> '0' <= #[trigger] decimal_text(n)[i] <= '9',
    decreases n,
{
    let last = ('0' as u32 + n % 10) as char;
    assert(n % 10 < 10);
    assert('0' <= last <= '9');
    assert(last as u32 - '0' as u32 == n % 10);
    let t = decimal_text(n);
    if n < 10 {
        assert(t == seq![last]);
        numbers_are_read_digit_by_digit(Seq::empty(), last, ' ', 0);
    } else {
        written_numbers_are_read_back(n / 10);
        let front = decimal_text(n / 10);
        assert(t == front.push(last));
        numbers_are_read_digit_by_digit(front, last, ' ', 0);
        assert(t[0] == front[0]);
        assert forall|i: int| 0 <= i < t.len() implies '0' <= #[trigger] t[i] <= '9' by {
            if i < front.len() {
                assert(t[i] == front[i]);
            }
        }
    }
}

/// Joining puts the separator between any two neighbours, and nowhere else.
pub proof fn separators_stand_between(parts: Seq<Seq<char>>, last: Seq<char>, sep: Seq<char>)
    ensures
        joined(Seq::empty(), sep) == Seq::<char>::empty(),
        joined(seq![last], sep) == last,
        parts.len() > 0 ==> joined(parts.push(last), sep) == joined(parts, sep) + sep + last,
{
    assert(parts.push(last).drop_last() == parts);
}

/// A text without the separator is one part, and the separator ends a part and starts the
/// next one.
pub proof fn separators_part_texts(a: Seq<char>, b: Seq<char>, c: char)
    requires
        !a.contains(c),
    ensures
        parts_from(a, c, 0) == seq![a],
        parts_from(a.push(c) + b, c, 0) == seq![a] + parts_from(b, c, 0),
{
    lemma_find_stops(a, c, 0);
    let e = find_from(a, c, 0);
    if e < a.len() {
        assert(a.contains(a[e]));
    }
    assert(a.skip(0) == a);
    lemma_parts_join(a, b, c);
}

} // verus!
