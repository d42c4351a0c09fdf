//! The `.npmrc` format: lines of `key=value`, comments, line continuation with a trailing
//! backslash, quoted values and `${VAR}` references to the environment.

use crate::text;
use crate::text_map::TextMap;
use vstd::prelude::*;

verus! {

/// The environment: the variables that are set, by name.
pub type Environment = Map<Seq<char>, String>;

/// What a reference to the variable `name` stands for: its value, or nothing if it is unset.
pub open spec fn value_of(env: Environment, name: Seq<char>) -> Seq<char> {
    if env.contains_key(name) {
        env[name]@
    } else {
        Seq::empty()
    }
}

/// The index after the one at which a search in `s` ended.
pub open spec fn past(s: Seq<char>, e: int) -> int {
    if e < s.len() {
        e + 1
    } else {
        e
    }
}

/// `s[i..]` with each `${NAME}` replaced by the variable's value. A reference that is never
/// closed reaches to the end of the text.
pub open spec fn substituted_from(s: Seq<char>, i: int, env: Environment) -> Seq<char>
    decreases s.len() - i,
    when 0 <= i
{
    let e = text::find_from(s, '}', i + 2);
    proof {
        if i + 2 <= s.len() {
            text::lemma_find_bounds(s, '}', i + 2);
        }
    }
    if i >= s.len() {
        Seq::empty()
    } else if s[i] == '$' && i + 1 < s.len() && s[i + 1] == '{' {
        value_of(env, s.subrange(i + 2, e)) + substituted_from(s, past(s, e), env)
    } else {
        seq![s[i]] + substituted_from(s, i + 1, env)
    }
}

/// `s` with each `${NAME}` replaced by the variable's value.
pub open spec fn substituted(s: Seq<char>, env: Environment) -> Seq<char> {
    substituted_from(s, 0, env)
}

/// `s` without one pair of matching quotes around it.
pub open spec fn unquoted(s: Seq<char>) -> Seq<char> {
    if s.len() >= 2 && (s[0] == '"' || s[0] == '\'') && s.last() == s[0] {
        s.subrange(1, s.len() - 1)
    } else {
        s
    }
}

/// The logical lines that physical lines make up: a line that ends in a backslash goes on,
/// without the backslash, in the next one. `acc` is what the next line continues.
pub open spec fn logical_lines(lines: Seq<Seq<char>>, acc: Seq<char>) -> Seq<Seq<char>>
    decreases lines.len(),
{
    if lines.len() == 0 {
        if acc.len() > 0 {
            seq![acc]
        } else {
            Seq::empty()
        }
    } else if lines[0].len() > 0 && lines[0].last() == '\\' {
        logical_lines(lines.skip(1), acc + lines[0].drop_last())
    } else {
        seq![acc + lines[0]] + logical_lines(lines.skip(1), Seq::empty())
    }
}

/// The entry on a logical line: none on an empty line, a comment, or a line without `=`.
pub open spec fn entry_on(line: Seq<char>, env: Environment) -> Option<(Seq<char>, Seq<char>)> {
    let t = text::trimmed(line);
    if t.len() == 0 || t[0] == '#' || t[0] == ';' {
        None
    } else {
        match text::split_at_first(t, '=') {
            Some((k, v)) => Some(
                (
                    substituted(text::trimmed(k), env),
                    substituted(unquoted(text::trimmed(v)), env),
                ),
            ),
            None => None,
        }
    }
}

/// The entries on a list of logical lines, in order.
pub open spec fn entries_on(lines: Seq<Seq<char>>, env: Environment) -> Seq<
    (Seq<char>, Seq<char>),
>
    decreases lines.len(),
{
    if lines.len() == 0 {
        Seq::empty()
    } else {
        let before = entries_on(lines.drop_last(), env);
        match entry_on(lines.last(), env) {
            Some(e) => before.push(e),
            None => before,
        }
    }
}

/// `s` without the byte order mark that it may begin with.
pub open spec fn without_bom(s: Seq<char>) -> Seq<char> {
    if s.len() > 0 && s[0] == '\u{feff}' {
        s.skip(1)
    } else {
        s
    }
}

/// The entries of a `.npmrc` file with the given contents.
pub open spec fn npmrc_entries(content: Seq<char>, env: Environment) -> Seq<
    (Seq<char>, Seq<char>),
> {
    entries_on(
        logical_lines(text::lines_from(without_bom(content), 0), Seq::empty()),
        env,
    )
}

/// Replaces each `${NAME}` by the value of the variable, or by nothing if it is unset.
pub fn substitute_env(value: &str, env: &TextMap<String>) -> (r: String)
    ensures
        r@ == substituted(value@, env@),
{
    let x = text::to_chars(value);
    let mut r = String::new();
    let mut i: usize = 0;
    assert(r@ + substituted_from(value@, 0, env@) == substituted(value@, env@));
    while i < x.len()
        invariant
            x@ == value@,
            i <= x@.len(),
            r@ + substituted_from(value@, i as int, env@) == substituted(value@, env@),
        decreases x.len() - i,
    {
        let ghost before = r@;
        let start = i;
        if x[i] == '$' && i + 1 < x.len() && x[i + 1] == '{' {
            let mut e: usize = i + 2;
            while e < x.len() && x[e] != '}'
                invariant
                    x@ == value@,
                    start + 2 <= e <= x@.len(),
                    text::find_from(value@, '}', e as int) == text::find_from(
                        value@,
                        '}',
                        start + 2,
                    ),
                decreases x.len() - e,
            {
                e = e + 1;
            }
            let name = text::from_chars(&x, start + 2, e);
            if let Some(v) = env.get(name.as_str()) {
                r.append(v.as_str());
            }
            i = if e < x.len() {
                e + 1
            } else {
                e
            };
            proof {
                assert(r@ == before + value_of(env@, name@));
                assert(r@ + substituted_from(value@, i as int, env@) == before + (value_of(
                    env@,
                    name@,
                ) + substituted_from(value@, i as int, env@)));
            }
        } else {
            r.push(x[i]);
            i = i + 1;
            assert(r@ + substituted_from(value@, i as int, env@) == before + (seq![
                value@[start as int],
            ] + substituted_from(value@, i as int, env@)));
        }
    }
    assert(r@ + substituted_from(value@, i as int, env@) == r@);
    r
}

/// Takes one pair of matching quotes off `value`, and leaves everything inside as it is.
pub fn strip_matched_quotes(value: &str) -> (r: &str)
    ensures
        r@ == unquoted(value@),
{
    let x = text::to_chars(value);
    let n = x.len();
    if n >= 2 && (x[0] == '"' || x[0] == '\'') && x[n - 1] == x[0] {
        value.substring_char(1, n - 1)
    } else {
        value
    }
}

/// Joins each physical line that ends in a backslash with the one after it.
fn fold_lines(lines: &Vec<String>) -> (logical: Vec<String>)
    ensures
        text::views(logical@) == logical_lines(text::views(lines@), Seq::empty()),
{
    let ghost all = text::views(lines@);
    let mut logical: Vec<String> = Vec::new();
    let mut acc = String::new();
    let mut i: usize = 0;
    assert(all.skip(0) == all);
    assert(text::views(logical@) + logical_lines(all, acc@) == logical_lines(all, Seq::empty()));
    while i < lines.len()
        invariant
            i <= lines@.len(),
            all == text::views(lines@),
            text::views(logical@) + logical_lines(all.skip(i as int), acc@) == logical_lines(
                all,
                Seq::empty(),
            ),
        decreases lines.len() - i,
    {
        let ghost rest = all.skip(i as int);
        let ghost before = logical@;
        let ghost acc_before = acc@;
        let raw = text::to_chars(lines[i].as_str());
        proof {
            assert(rest[0] == raw@);
            assert(rest.skip(1) == all.skip(i + 1));
        }
        if raw.len() > 0 && raw[raw.len() - 1] == '\\' {
            let part = text::from_chars(&raw, 0, raw.len() - 1);
            acc.append(part.as_str());
            assert(part@ == raw@.drop_last());
        } else {
            acc.append(lines[i].as_str());
            logical.push(acc);
            acc = String::new();
            proof {
                assert(text::views(logical@) == text::views(before).push(acc_before + raw@));
                assert(text::views(logical@) + logical_lines(all.skip(i + 1), acc@)
                    == text::views(before) + (seq![acc_before + raw@] + logical_lines(
                    all.skip(i + 1),
                    Seq::empty(),
                )));
            }
        }
        i = i + 1;
    }
    let ghost before = logical@;
    if text::to_chars(acc.as_str()).len() > 0 {
        let ghost last = acc@;
        logical.push(acc);
        assert(text::views(logical@) == text::views(before).push(last));
        assert(text::views(logical@) == text::views(before) + seq![last]);
    } else {
        assert(text::views(logical@) == text::views(before) + Seq::<Seq<char>>::empty());
    }
    logical
}

/// The entry on one logical line.
fn parse_line(line: &str, env: &TextMap<String>) -> (r: Option<(String, String)>)
    ensures
        text::view_pair(r) == entry_on(line@, env@),
{
    let t = text::trim(line);
    let x = text::to_chars(t.as_str());
    if x.len() == 0 || x[0] == '#' || x[0] == ';' {
        return None;
    }
    match text::split_once(t.as_str(), '=') {
        Some((key, value)) => {
            let key = substitute_env(text::trim(key.as_str()).as_str(), env);
            let value = text::trim(value.as_str());
            let value = substitute_env(strip_matched_quotes(value.as_str()), env);
            Some((key, value))
        },
        None => None,
    }
}

/// Parses the contents of a `.npmrc` file into its `key=value` entries.
pub fn parse_npmrc(content: &str, env: &TextMap<String>) -> (entries: Vec<(String, String)>)
    ensures
        text::view_pairs(entries@) == npmrc_entries(content@, env@),
{
    let x = text::to_chars(content);
    let start: usize = if x.len() > 0 && x[0] == '\u{feff}' {
        1
    } else {
        0
    };
    let body = text::from_chars(&x, start, x.len());
    assert(body@ == without_bom(content@));
    let lines = text::lines(body.as_str());
    let logical = fold_lines(&lines);
    let ghost all = text::views(logical@);
    let mut entries: Vec<(String, String)> = Vec::new();
    let mut i: usize = 0;
    while i < logical.len()
        invariant
            i <= logical@.len(),
            all == text::views(logical@),
            text::view_pairs(entries@) == entries_on(all.take(i as int), env@),
        decreases logical.len() - i,
    {
        let ghost before = entries@;
        proof {
            assert(all.take(i + 1).drop_last() == all.take(i as int));
            assert(all.take(i + 1).last() == logical@[i as int]@);
        }
        if let Some(entry) = parse_line(logical[i].as_str(), env) {
            entries.push(entry);
            assert(text::view_pairs(entries@) == text::view_pairs(before).push(
                (entry.0@, entry.1@),
            ));
        }
        i = i + 1;
    }
    assert(all.take(i as int) == all);
    entries
}

/// Text without a `$` is not changed by substitution.
pub proof fn substitution_keeps_plain_text(s: Seq<char>, env: Environment)
    requires
        !s.contains('$'),
    ensures
        substituted(s, env) == s,
{
    lemma_plain_from(s, 0, env);
    assert(s.skip(0) == s);
}

proof fn lemma_plain_from(s: Seq<char>, i: int, env: Environment)
    requires
        !s.contains('$'),
        0 <= i <= s.len(),
    ensures
        substituted_from(s, i, env) == s.skip(i),
    decreases s.len() - i,
{
    if i < s.len() {
        assert(s.contains(s[i]));
        lemma_plain_from(s, i + 1, env);
        assert(s.skip(i) == seq![s[i]] + s.skip(i + 1));
    }
}

/// One pair of quotes around a value is taken off, whatever the value holds.
pub proof fn quotes_protect_a_value(v: Seq<char>, q: char)
    requires
        q == '"' || q == '\'',
    ensures
        unquoted(seq![q] + v + seq![q]) == v,
{
    let s = seq![q] + v + seq![q];
    assert(s.subrange(1, s.len() - 1) == v);
}

proof fn lemma_substituted_front(a: Seq<char>, b: Seq<char>, env: Environment, i: int)
    requires
        !a.contains('$'),
        0 <= i <= a.len(),
    ensures
        substituted_from(a + b, i, env) == a.skip(i) + substituted_from(a + b, a.len() as int, env),
    decreases a.len() - i,
{
    let s = a + b;
    if i < a.len() {
        assert(a.contains(a[i]));
        assert(s[i] == a[i]);
        lemma_substituted_front(a, b, env, i + 1);
        assert(a.skip(i) =~= seq![a[i]] + a.skip(i + 1));
        assert(seq![s[i]] + (a.skip(i + 1) + substituted_from(s, a.len() as int, env))
            =~= a.skip(i) + substituted_from(s, a.len() as int, env));
    } else {
        assert(a.skip(i) + substituted_from(s, i, env) =~= substituted_from(s, i, env));
    }
}

proof fn lemma_substituted_shift(a: Seq<char>, b: Seq<char>, env: Environment, i: int)
    requires
        0 <= i,
    ensures
        substituted_from(a + b, a.len() + i, env) == substituted_from(b, i, env),
    decreases b.len() - i,
{
    let s = a + b;
    let n = a.len() as int;
    if i < b.len() {
        assert(s[n + i] == b[i]);
        if i + 1 < b.len() {
            assert(s[n + i + 1] == b[i + 1]);
        }
        if b[i] == '$' && i + 1 < b.len() && b[i + 1] == '{' {
            let e = text::find_from(b, '}', i + 2);
            text::lemma_find_stops(b, '}', i + 2);
            assert forall|j: int| n + i + 2 <= j < n + e implies #[trigger] s[j] != '}' by {
                assert(s[j] == b[j - n]);
            }
            text::lemma_find_at(s, '}', n + i + 2, n + e);
            assert(s.subrange(n + i + 2, n + e) =~= b.subrange(i + 2, e));
            lemma_substituted_shift(a, b, env, past(b, e));
        } else {
            lemma_substituted_shift(a, b, env, i + 1);
        }
    }
}

/// `${NAME}` stands for the value of the variable, and for nothing where it is not set. What
/// stands before it is kept, and what follows is substituted in turn.
pub proof fn references_stand_for_their_variables(
    before: Seq<char>,
    name: Seq<char>,
    after: Seq<char>,
    env: Environment,
)
    requires
        !before.contains('$'),
        !name.contains('}'),
    ensures
        env.contains_key(name) ==> substituted(
            before + seq!['$', '{'] + name + seq!['}'] + after,
            env,
        ) == before + env[name]@ + substituted(after, env),
        !env.contains_key(name) ==> substituted(
            before + seq!['$', '{'] + name + seq!['}'] + after,
            env,
        ) == before + substituted(after, env),
        env.contains_key(name) ==> substituted(before + seq!['$', '{'] + name, env) == before
            + env[name]@,
{
    let open = seq!['$', '{'];
    let n = before.len() as int;
    let s = before + open + name + seq!['}'] + after;
    let tail = open + name + seq!['}'] + after;
    assert(s =~= before + tail);
    lemma_substituted_front(before, tail, env, 0);
    assert(before.skip(0) =~= before);
    let e = n + 2 + name.len();
    assert forall|j: int| n + 2 <= j < e implies #[trigger] s[j] != '}' by {
        assert(s[j] == name[j - n - 2]);
        assert(name.contains(name[j - n - 2]));
    }
    assert(s[e] == '}');
    text::lemma_find_at(s, '}', n + 2, e);
    assert(s.subrange(n + 2, e) =~= name);
    let front = before + open + name + seq!['}'];
    assert(s =~= front + after);
    lemma_substituted_shift(front, after, env, 0);
    if env.contains_key(name) {
        assert(before + (env[name]@ + substituted(after, env)) =~= before + env[name]@
            + substituted(after, env));
    } else {
        assert(before + (Seq::<char>::empty() + substituted(after, env)) =~= before + substituted(
            after,
            env,
        ));
    }
    let u = before + open + name;
    assert(u =~= before + (open + name));
    lemma_substituted_front(before, open + name, env, 0);
    assert forall|j: int| n + 2 <= j < u.len() implies #[trigger] u[j] != '}' by {
        assert(u[j] == name[j - n - 2]);
        assert(name.contains(name[j - n - 2]));
    }
    text::lemma_find_at(u, '}', n + 2, u.len() as int);
    assert(u.subrange(n + 2, u.len() as int) =~= name);
    assert(substituted_from(u, u.len() as int, env) =~= Seq::empty());
    if env.contains_key(name) {
        assert(env[name]@ + Seq::<char>::empty() =~= env[name]@);
        assert(substituted_from(u, n, env) == env[name]@);
    }
}

/// A line `key=value` gives the key and the value with the variables in both substituted, with or
/// without a pair of quotes around the value, and whatever white space is around the line, the
/// key or the value.
pub proof fn lines_give_their_entries(
    pad: Seq<char>,
    key: Seq<char>,
    left: Seq<char>,
    right: Seq<char>,
    value: Seq<char>,
    end: Seq<char>,
    quote: char,
    env: Environment,
)
    requires
        forall|i: int| 0 <= i < pad.len() ==> text::is_space(#[trigger] pad[i]),
        forall|i: int| 0 <= i < left.len() ==> text::is_space(#[trigger] left[i]),
        forall|i: int| 0 <= i < right.len() ==> text::is_space(#[trigger] right[i]),
        forall|i: int| 0 <= i < end.len() ==> text::is_space(#[trigger] end[i]),
        key.len() > 0,
        !key.contains('='),
        key[0] != '#' && key[0] != ';',
        !text::is_space(key[0]) && !text::is_space(key.last()),
        quote == '"' || quote == '\'',
    ensures
        entry_on(
            pad + key + left + seq!['='] + right + (seq![quote] + value + seq![quote]) + end,
            env,
        ) == Some((substituted(key, env), substituted(value, env))),
        (value.len() > 0 ==> !text::is_space(value[0]) && !text::is_space(value.last())) && !(
        value.len() >= 2 && (value[0] == '"' || value[0] == '\'') && value.last() == value[0])
            ==> entry_on(pad + key + left + seq!['='] + right + value + end, env) == Some(
            (substituted(key, env), substituted(value, env)),
        ),
{
    let quoted = seq![quote] + value + seq![quote];
    text::blanks_are_spaces(quote);
    lemma_entry(pad, key, left, right, quoted, end, env);
    assert(quoted.subrange(1, quoted.len() - 1) =~= value);
    if (value.len() > 0 ==> !text::is_space(value[0]) && !text::is_space(value.last())) && !(
    value.len() >= 2 && (value[0] == '"' || value[0] == '\'') && value.last() == value[0]) {
        lemma_entry(pad, key, left, right, value, end, env);
    }
}

proof fn lemma_entry(
    pad: Seq<char>,
    key: Seq<char>,
    left: Seq<char>,
    right: Seq<char>,
    value: Seq<char>,
    end: Seq<char>,
    env: Environment,
)
    requires
        forall|i: int| 0 <= i < pad.len() ==> text::is_space(#[trigger] pad[i]),
        forall|i: int| 0 <= i < left.len() ==> text::is_space(#[trigger] left[i]),
        forall|i: int| 0 <= i < right.len() ==> text::is_space(#[trigger] right[i]),
        forall|i: int| 0 <= i < end.len() ==> text::is_space(#[trigger] end[i]),
        key.len() > 0,
        !key.contains('='),
        key[0] != '#' && key[0] != ';',
        !text::is_space(key[0]) && !text::is_space(key.last()),
        value.len() > 0 ==> !text::is_space(value[0]) && !text::is_space(value.last()),
    ensures
        entry_on(pad + key + left + seq!['='] + right + value + end, env) == Some(
            (substituted(key, env), substituted(unquoted(value), env)),
        ),
{
    let line = pad + key + left + seq!['='] + right + value + end;
    text::blanks_are_spaces('=');
    let none = Seq::<char>::empty();
    let head = key + left;
    let core = head + seq!['='] + (if value.len() > 0 {
        right + value
    } else {
        none
    });
    let tail = if value.len() > 0 {
        end
    } else {
        right + end
    };
    assert(line =~= pad + core + tail);
    assert forall|i: int| 0 <= i < tail.len() implies text::is_space(#[trigger] tail[i]) by {
        if value.len() == 0 {
            if i < right.len() {
                assert(tail[i] == right[i]);
            } else {
                assert(tail[i] == end[i - right.len()]);
            }
        }
    }
    assert(core[0] == key[0]);
    if value.len() > 0 {
        assert(core.last() == value.last());
    } else {
        assert(core.last() == '=');
    }
    text::trimming_takes_space_off(pad, core, tail);
    assert forall|i: int| 0 <= i < head.len() implies #[trigger] head[i] != '=' by {
        if i < key.len() {
            assert(key.contains(key[i]));
        } else {
            assert(head[i] == left[i - key.len()]);
            assert(text::is_space(left[i - key.len()]));
        }
    }
    let v = if value.len() > 0 {
        right + value
    } else {
        none
    };
    text::the_first_separator_splits(head, '=', v);
    text::trimming_takes_space_off(none, key, left);
    assert(none + key + left =~= head);
    if value.len() > 0 {
        text::trimming_takes_space_off(right, value, none);
        assert(right + value + none =~= v);
    } else {
        text::trimming_takes_space_off(none, none, none);
        assert(none + none + none =~= none);
        assert(value =~= none);
    }
}

/// Comments, empty lines and lines without `=` give no entry.
pub proof fn other_lines_give_nothing(pad: Seq<char>, line: Seq<char>, env: Environment)
    requires
        forall|i: int| 0 <= i < pad.len() ==> text::is_space(#[trigger] pad[i]),
        line.len() > 0 ==> !text::is_space(line[0]) && !text::is_space(line.last()),
        line.len() == 0 || line[0] == '#' || line[0] == ';' || !line.contains('='),
    ensures
        entry_on(pad + line, env) is None,
{
    let none = Seq::<char>::empty();
    text::trimming_takes_space_off(pad, line, none);
    assert(pad + line + none =~= pad + line);
    if line.len() > 0 && !line.contains('=') {
        text::the_first_separator_splits(line, '=', none);
    }
}

proof fn lemma_entries_front(first: Seq<char>, lines: Seq<Seq<char>>, env: Environment)
    ensures
        entries_on(seq![first] + lines, env) == (match entry_on(first, env) {
            Some(e) => seq![e],
            None => Seq::empty(),
        }) + entries_on(lines, env),
    decreases lines.len(),
{
    let all = seq![first] + lines;
    if lines.len() == 0 {
        assert(all.drop_last() =~= Seq::empty());
        assert(entries_on(all.drop_last(), env) =~= Seq::empty());
        assert(all.last() == first);
    } else {
        assert(all.drop_last() =~= seq![first] + lines.drop_last());
        assert(all.last() == lines.last());
        lemma_entries_front(first, lines.drop_last(), env);
    }
    assert(entries_on(all, env) =~= (match entry_on(first, env) {
        Some(e) => seq![e],
        None => Seq::empty(),
    }) + entries_on(lines, env));
}

/// A file is read line by line: the entries of a line come before those of the rest. A byte
/// order mark in front does not count.
pub proof fn files_are_read_line_by_line(line: Seq<char>, rest: Seq<char>, env: Environment)
    requires
        !line.contains('\n'),
        line.len() > 0,
        line[0] != '\u{feff}',
        line.last() != '\r' && line.last() != '\\',
        rest.len() > 0 ==> rest[0] != '\u{feff}',
    ensures
        npmrc_entries(line + seq!['\n'] + rest, env) == (match entry_on(line, env) {
            Some(e) => seq![e],
            None => Seq::empty(),
        }) + npmrc_entries(rest, env),
        npmrc_entries(line, env) == (match entry_on(line, env) {
            Some(e) => seq![e],
            None => Seq::empty(),
        }),
        npmrc_entries(seq!['\u{feff}'] + line + seq!['\n'] + rest, env) == npmrc_entries(
            line + seq!['\n'] + rest,
            env,
        ),
{
    let none = Seq::<char>::empty();
    let s = line + seq!['\n'] + rest;
    text::lines_end_at_line_feeds(line, rest);
    let ls = text::lines_from(rest, 0);
    let all = seq![line] + ls;
    assert(all.skip(1) =~= ls);
    assert(all[0] == line);
    assert(none + line =~= line);
    assert(logical_lines(all, none) == seq![line] + logical_lines(ls, none));
    lemma_entries_front(line, logical_lines(ls, none), env);
    let one = seq![line];
    assert(one.skip(1) =~= Seq::empty());
    assert(one[0] == line);
    assert(logical_lines(Seq::<Seq<char>>::empty(), none) =~= Seq::empty());
    assert(logical_lines(one, none) =~= seq![line]);
    lemma_entries_front(line, Seq::empty(), env);
    assert(seq![line] + Seq::<Seq<char>>::empty() =~= seq![line]);
    assert(entries_on(Seq::<Seq<char>>::empty(), env) =~= Seq::empty());
    assert(npmrc_entries(line, env) =~= (match entry_on(line, env) {
        Some(e) => seq![e],
        None => Seq::empty(),
    }));
    let marked = seq!['\u{feff}'] + line + seq!['\n'] + rest;
    assert(marked.skip(1) =~= s);
}

/// A line that ends in a backslash goes on in the next one, as if both were one line.
pub proof fn backslashes_continue_lines(
    line: Seq<char>,
    next: Seq<char>,
    rest: Seq<char>,
    env: Environment,
)
    requires
        !line.contains('\n') && !next.contains('\n'),
        line.len() > 0,
        line[0] != '\u{feff}',
        next.len() > 0,
        next.last() != '\r',
    ensures
        npmrc_entries(line + seq!['\\', '\n'] + next + seq!['\n'] + rest, env) == npmrc_entries(
            line + next + seq!['\n'] + rest,
            env,
        ),
{
    let none = Seq::<char>::empty();
    let first = line + seq!['\\'];
    let tail = next + seq!['\n'] + rest;
    let s = line + seq!['\\', '\n'] + next + seq!['\n'] + rest;
    assert(s =~= first + seq!['\n'] + tail);
    assert forall|i: int| 0 <= i < first.len() implies #[trigger] first[i] != '\n' by {
        if i < line.len() {
            assert(line.contains(line[i]));
        }
    }
    text::lines_end_at_line_feeds(first, tail);
    text::lines_end_at_line_feeds(next, rest);
    let both = line + next;
    let t = line + next + seq!['\n'] + rest;
    assert forall|i: int| 0 <= i < both.len() implies #[trigger] both[i] != '\n' by {
        if i < line.len() {
            assert(line.contains(line[i]));
        } else {
            assert(next.contains(next[i - line.len()]));
        }
    }
    assert(t =~= both + seq!['\n'] + rest);
    text::lines_end_at_line_feeds(both, rest);
    let ls = text::lines_from(rest, 0);
    let a = seq![first] + (seq![next] + ls);
    let b = seq![both] + ls;
    assert(both.last() == next.last());
    assert(a.skip(1) =~= seq![next] + ls);
    assert((seq![next] + ls).skip(1) =~= ls);
    assert(b.skip(1) =~= ls);
    assert(first.drop_last() =~= line);
    assert(none + line =~= line);
    assert(none + both =~= both);
    assert(a[0] == first && (seq![next] + ls)[0] == next && b[0] == both);
    assert(none + both.drop_last() =~= line + next.drop_last());
    assert(logical_lines(seq![next] + ls, line) == logical_lines(b, none));
    assert(logical_lines(a, none) == logical_lines(seq![next] + ls, line));
}

/// A file that ends in the middle of a continued line ends with what there is of the line, as
/// far as there is something.
pub proof fn a_continued_line_may_end_the_file(line: Seq<char>, acc: Seq<char>)
    ensures
        logical_lines(Seq::empty(), Seq::empty()) == Seq::<Seq<char>>::empty(),
        (acc + line).len() > 0 ==> logical_lines(seq![line.push('\\')], acc) == seq![acc + line],
        (acc + line).len() == 0 ==> logical_lines(seq![line.push('\\')], acc)
            == Seq::<Seq<char>>::empty(),
{
    let one = seq![line.push('\\')];
    assert(one[0].last() == '\\');
    assert(one[0].drop_last() == line);
    assert(one.skip(1) == Seq::<Seq<char>>::empty());
    assert(logical_lines(one, acc) == logical_lines(one.skip(1), acc + line));
}

} // verus!
