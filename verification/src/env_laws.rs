//! What setting, removing and reading values of the environment file promise
//! together.
use vstd::prelude::*;
use crate::text::{
    is_whitespace, lemma_lines_no_newline, lemma_lines_of_join, lemma_trim_empty,
    lemma_trim_strip_cr, lemma_trim_unchanged, lines, no_newline, relined, starts_with, strip_cr,
    trim, trim_end, trim_start,
};
use crate::envfile::{
    drop_prefixed, entries_map, env_value, env_vars, escape, export_word, find_char, line_entry,
    needs_escape, shell_dq_unescape, export_line, export_prefix, has_line_break, is_key_char,
    is_valid_env_key, key_check, lemma_escape_no_line_break, lemma_unescape_escape, lookup,
    parse_value, quoted_by, inner, remove_result, replace_or_append, set_result,
    strip_prefix_repeatedly, EnvError,
};

verus! {

/// Every line of `content` that, trimmed, starts with `export KEY=` also
/// starts with it as it stands (no such line is indented).
pub open spec fn assignments_unindented(content: Seq<char>, key: Seq<char>) -> bool {
    unindented(lines(content), key)
}

// ---------------------------------------------------------------------------
// Helper facts
// ---------------------------------------------------------------------------

proof fn lemma_lookup_cons(x: Seq<char>, rest: Seq<Seq<char>>, key: Seq<char>)
    ensures
        lookup(seq![x] + rest, key) == (if starts_with(trim(x), export_prefix(key)) {
            Some(parse_value(strip_prefix_repeatedly(trim(x), export_prefix(key))))
        } else {
            lookup(rest, key)
        }),
{
    let s = seq![x] + rest;
    assert(s[0] == x);
    assert(s.drop_first() =~= rest);
}

/// `lookup` only sees lines through `trim`, so the line ends that `relined`
/// changes do not matter to it.
proof fn lemma_lookup_relined(ls: Seq<Seq<char>>, key: Seq<char>)
    ensures
        lookup(relined(ls), key) == lookup(ls, key),
    decreases ls.len(),
{
    if ls.len() == 0 {
    } else if ls.len() == 1 {
        if ls[0].len() == 0 {
            lemma_trim_empty(ls[0]);
            assert(ls.drop_first() =~= Seq::<Seq<char>>::empty());
        } else {
            assert(seq![ls[0]] =~= ls);
        }
    } else {
        assert(ls =~= seq![ls[0]] + ls.drop_first());
        lemma_lookup_cons(ls[0], ls.drop_first(), key);
        lemma_lookup_relined(ls.drop_first(), key);
        lemma_trim_strip_cr(ls[0]);
        lemma_lookup_cons(strip_cr(ls[0]), relined(ls.drop_first()), key);
    }
}

/// A text that starts with `p`, where `p` neither starts nor ends with
/// whitespace, still starts with `p` once trimmed.
proof fn lemma_trim_keeps_prefix(s: Seq<char>, p: Seq<char>)
    requires
        p.len() > 0,
        starts_with(s, p),
        !is_whitespace(p[0]),
        !is_whitespace(p.last()),
    ensures
        starts_with(trim(s), p),
{
    assert(s[0] == p[0]);
    assert(trim_start(s) == s);
    lemma_trim_end_keeps(s, p.len() - 1);
    let t = trim_end(s);
    assert(t.len() >= p.len());
    assert forall|i: int| 0 <= i < p.len() implies t[i] == s[i] by {
        assert(s.take(t.len() as int)[i] == s[i]);
    }
    assert(t.take(p.len() as int) =~= s.take(p.len() as int));
}

proof fn lemma_trim_end_keeps(s: Seq<char>, i: int)
    requires
        0 <= i < s.len(),
        !is_whitespace(s[i]),
    ensures
        trim_end(s).len() > i,
        trim_end(s).len() <= s.len(),
        trim_end(s) == s.take(trim_end(s).len() as int),
    decreases s.len(),
{
    if is_whitespace(s.last()) {
        assert(s.drop_last()[i] == s[i]);
        lemma_trim_end_keeps(s.drop_last(), i);
        let t = trim_end(s.drop_last());
        assert(s.drop_last().take(t.len() as int) =~= s.take(t.len() as int));
    } else {
        assert(s.take(s.len() as int) =~= s);
    }
}

/// No text starts with the assignment prefixes of two different keys.
proof fn lemma_prefixes_exclusive(t: Seq<char>, k1: Seq<char>, k2: Seq<char>)
    requires
        is_valid_env_key(k1),
        is_valid_env_key(k2),
        k1 != k2,
    ensures
        !(starts_with(t, export_prefix(k1)) && starts_with(t, export_prefix(k2))),
{
    let a = export_prefix(k1);
    let b = export_prefix(k2);
    if starts_with(t, a) && starts_with(t, b) {
        assert forall|i: int| 0 <= i < a.len() implies t[i] == a[i] by {
            assert(t.take(a.len() as int)[i] == t[i]);
        }
        assert forall|i: int| 0 <= i < b.len() implies t[i] == b[i] by {
            assert(t.take(b.len() as int)[i] == t[i]);
        }
        if k1.len() == k2.len() {
            assert(k1 =~= k2) by {
                assert forall|i: int| 0 <= i < k1.len() implies k1[i] == k2[i] by {
                    assert(a[7 + i] == k1[i]);
                    assert(b[7 + i] == k2[i]);
                }
            }
        } else if k1.len() < k2.len() {
            let i: int = 7 + k1.len() as int;
            assert(a[i] == '=');
            assert(b[i] == k2[k1.len() as int]);
            assert(is_key_char(k2[k1.len() as int]));
        } else {
            let i: int = 7 + k2.len() as int;
            assert(b[i] == '=');
            assert(a[i] == k1[k2.len() as int]);
            assert(is_key_char(k1[k2.len() as int]));
        }
    }
}

/// The assignment line for `key` is found by `lookup` and gives `value`.
proof fn lemma_export_line_read(key: Seq<char>, value: Seq<char>)
    requires
        is_valid_env_key(key),
    ensures
        trim(export_line(key, value)) == export_line(key, value),
        starts_with(export_line(key, value), export_prefix(key)),
        parse_value(strip_prefix_repeatedly(export_line(key, value), export_prefix(key)))
            == value,
{
    let p = export_prefix(key);
    let e = escape(value);
    let nl = export_line(key, value);
    let q = seq!['"'] + e + seq!['"'];
    assert(nl[0] == 'e');
    assert(nl.last() == '"');
    lemma_trim_unchanged(nl);
    assert(nl.take(p.len() as int) =~= p);
    assert(nl.skip(p.len() as int) =~= q);
    assert(q[0] == '"');
    assert(!starts_with(q, p)) by {
        if starts_with(q, p) {
            assert(q.take(p.len() as int)[0] == q[0]);
        }
    }
    assert(strip_prefix_repeatedly(q, p) == q);
    assert(strip_prefix_repeatedly(nl, p) == q);
    assert(q.last() == '"');
    lemma_trim_unchanged(q);
    assert(quoted_by(q, '"'));
    assert(inner(q) =~= e);
    lemma_unescape_escape(value);
}

/// The assignment line holds no line feed.
proof fn lemma_export_line_no_newline(key: Seq<char>, value: Seq<char>)
    requires
        is_valid_env_key(key),
        !has_line_break(value),
    ensures
        no_newline(export_line(key, value)),
{
    let nl = export_line(key, value);
    let e = escape(value);
    lemma_escape_no_line_break(value);
    assert forall|i: int| 0 <= i < nl.len() implies nl[i] != '\n' by {
        if 7 <= i < 7 + key.len() {
            assert(nl[i] == key[i - 7]);
            if i > 7 {
                assert(is_key_char(key[i - 7]));
            }
        } else if 8 + key.len() + 1 <= i < 9 + key.len() + e.len() {
            assert(nl[i] == e[i - 9 - key.len()]);
        }
    }
}

proof fn lemma_replace_no_newline(ls: Seq<Seq<char>>, p: Seq<char>, nl: Seq<char>)
    requires
        forall|i: int| 0 <= i < ls.len() ==> no_newline(#[trigger] ls[i]),
        no_newline(nl),
    ensures
        forall|i: int|
            0 <= i < replace_or_append(ls, p, nl).len() ==> no_newline(
                #[trigger] replace_or_append(ls, p, nl)[i],
            ),
    decreases ls.len(),
{
    let r = replace_or_append(ls, p, nl);
    if ls.len() > 0 {
        let rest = ls.drop_first();
        assert forall|i: int| 0 <= i < rest.len() implies no_newline(#[trigger] rest[i]) by {
            assert(rest[i] == ls[i + 1]);
        }
        lemma_replace_no_newline(rest, p, nl);
        assert forall|i: int| 0 <= i < r.len() implies no_newline(#[trigger] r[i]) by {
            if i > 0 {
                if starts_with(ls[0], p) {
                    assert(r[i] == rest[i - 1]);
                } else {
                    assert(r[i] == replace_or_append(rest, p, nl)[i - 1]);
                }
            }
        }
    } else {
        assert(r[0] == nl);
    }
}

proof fn lemma_drop_no_newline(ls: Seq<Seq<char>>, p: Seq<char>)
    requires
        forall|i: int| 0 <= i < ls.len() ==> no_newline(#[trigger] ls[i]),
    ensures
        forall|i: int|
            0 <= i < drop_prefixed(ls, p).len() ==> no_newline(#[trigger] drop_prefixed(ls, p)[i]),
    decreases ls.len(),
{
    let r = drop_prefixed(ls, p);
    if ls.len() > 0 {
        let rest = ls.drop_first();
        assert forall|i: int| 0 <= i < rest.len() implies no_newline(#[trigger] rest[i]) by {
            assert(rest[i] == ls[i + 1]);
        }
        lemma_drop_no_newline(rest, p);
        assert forall|i: int| 0 <= i < r.len() implies no_newline(#[trigger] r[i]) by {
            if !starts_with(ls[0], p) && i > 0 {
                assert(r[i] == drop_prefixed(rest, p)[i - 1]);
            }
        }
    }
}

/// No line is indented before its assignment prefix.
pub open spec fn unindented(ls: Seq<Seq<char>>, key: Seq<char>) -> bool {
    forall|i: int|
        0 <= i < ls.len() && starts_with(trim(#[trigger] ls[i]), export_prefix(key)) ==> starts_with(
            ls[i],
            export_prefix(key),
        )
}

proof fn lemma_unindented_rest(ls: Seq<Seq<char>>, key: Seq<char>)
    requires
        ls.len() > 0,
        unindented(ls, key),
    ensures
        unindented(ls.drop_first(), key),
{
    assert forall|i: int|
        0 <= i < ls.drop_first().len() && starts_with(
            trim(#[trigger] ls.drop_first()[i]),
            export_prefix(key),
        ) implies starts_with(ls.drop_first()[i], export_prefix(key)) by {
        assert(ls.drop_first()[i] == ls[i + 1]);
    }
}

proof fn lemma_lookup_replace_same(ls: Seq<Seq<char>>, key: Seq<char>, value: Seq<char>)
    requires
        is_valid_env_key(key),
        unindented(ls, key),
    ensures
        lookup(replace_or_append(ls, export_prefix(key), export_line(key, value)), key) == Some(
            value,
        ),
    decreases ls.len(),
{
    let p = export_prefix(key);
    let nl = export_line(key, value);
    lemma_export_line_read(key, value);
    if ls.len() == 0 {
        lemma_lookup_cons(nl, Seq::<Seq<char>>::empty(), key);
        assert(seq![nl] + Seq::<Seq<char>>::empty() =~= seq![nl]);
    } else if starts_with(ls[0], p) {
        lemma_lookup_cons(nl, ls.drop_first(), key);
    } else {
        assert(!starts_with(trim(ls[0]), p));
        lemma_unindented_rest(ls, key);
        lemma_lookup_replace_same(ls.drop_first(), key, value);
        lemma_lookup_cons(ls[0], replace_or_append(ls.drop_first(), p, nl), key);
    }
}

proof fn lemma_lookup_drop_same(ls: Seq<Seq<char>>, key: Seq<char>)
    requires
        unindented(ls, key),
    ensures
        lookup(drop_prefixed(ls, export_prefix(key)), key) is None,
    decreases ls.len(),
{
    let p = export_prefix(key);
    if ls.len() > 0 {
        lemma_unindented_rest(ls, key);
        lemma_lookup_drop_same(ls.drop_first(), key);
        if !starts_with(ls[0], p) {
            assert(!starts_with(trim(ls[0]), p));
            lemma_lookup_cons(ls[0], drop_prefixed(ls.drop_first(), p), key);
        }
    }
}

proof fn lemma_prefix_ends(key: Seq<char>)
    ensures
        export_prefix(key).len() > 0,
        !is_whitespace(export_prefix(key)[0]),
        !is_whitespace(export_prefix(key).last()),
{
}

proof fn lemma_lookup_replace_other(
    ls: Seq<Seq<char>>,
    key: Seq<char>,
    other: Seq<char>,
    value: Seq<char>,
)
    requires
        is_valid_env_key(key),
        is_valid_env_key(other),
        key != other,
    ensures
        lookup(replace_or_append(ls, export_prefix(key), export_line(key, value)), other) == lookup(
            ls,
            other,
        ),
    decreases ls.len(),
{
    let p = export_prefix(key);
    let nl = export_line(key, value);
    lemma_export_line_read(key, value);
    lemma_prefixes_exclusive(nl, key, other);
    if ls.len() == 0 {
        lemma_lookup_cons(nl, Seq::<Seq<char>>::empty(), other);
        assert(seq![nl] + Seq::<Seq<char>>::empty() =~= seq![nl]);
    } else if starts_with(ls[0], p) {
        lemma_prefix_ends(key);
        lemma_trim_keeps_prefix(ls[0], p);
        lemma_prefixes_exclusive(trim(ls[0]), key, other);
        lemma_lookup_cons(nl, ls.drop_first(), other);
    } else {
        lemma_lookup_replace_other(ls.drop_first(), key, other, value);
        lemma_lookup_cons(ls[0], replace_or_append(ls.drop_first(), p, nl), other);
    }
}

proof fn lemma_lookup_drop_other(ls: Seq<Seq<char>>, key: Seq<char>, other: Seq<char>)
    requires
        is_valid_env_key(key),
        is_valid_env_key(other),
        key != other,
    ensures
        lookup(drop_prefixed(ls, export_prefix(key)), other) == lookup(ls, other),
    decreases ls.len(),
{
    let p = export_prefix(key);
    if ls.len() > 0 {
        lemma_lookup_drop_other(ls.drop_first(), key, other);
        if starts_with(ls[0], p) {
            lemma_prefix_ends(key);
            lemma_trim_keeps_prefix(ls[0], p);
            lemma_prefixes_exclusive(trim(ls[0]), key, other);
        } else {
            lemma_lookup_cons(ls[0], drop_prefixed(ls.drop_first(), p), other);
        }
    }
}

// ---------------------------------------------------------------------------
// Laws
// ---------------------------------------------------------------------------

/// Setting a valid key to a value without line breaks succeeds, and reading
/// the key from the new text gives the value back exactly, whatever
/// characters it holds; this holds of every file in which no assignment of
/// the key is indented.
pub proof fn law_read_after_set(content: Seq<char>, key: Seq<char>, value: Seq<char>)
    requires
        is_valid_env_key(key),
        !has_line_break(value),
        assignments_unindented(content, key),
    ensures
        set_result(content, key, value) matches Ok(new_content) && env_value(new_content, key)
            == Some(value),
{
    let p = export_prefix(key);
    let nl = export_line(key, value);
    let ls = lines(content);
    let r = replace_or_append(ls, p, nl);
    assert(key_check(key) == Ok::<(), EnvError>(()));
    lemma_lines_no_newline(content);
    lemma_export_line_no_newline(key, value);
    lemma_replace_no_newline(ls, p, nl);
    lemma_lines_of_join(r);
    lemma_lookup_relined(r, key);
    lemma_lookup_replace_same(ls, key, value);
}

/// After removing a valid key, reading it gives nothing; this holds of every
/// file in which no assignment of the key is indented.
pub proof fn law_read_after_remove(content: Seq<char>, key: Seq<char>)
    requires
        is_valid_env_key(key),
        assignments_unindented(content, key),
    ensures
        remove_result(content, key) matches Ok(new_content) && env_value(new_content, key) is None,
{
    let p = export_prefix(key);
    let ls = lines(content);
    let r = drop_prefixed(ls, p);
    lemma_lines_no_newline(content);
    lemma_drop_no_newline(ls, p);
    lemma_lines_of_join(r);
    lemma_lookup_relined(r, key);
    lemma_lookup_drop_same(ls, key);
}

/// Setting one key leaves what is read for every other valid key unchanged.
pub proof fn law_set_keeps_other_keys(
    content: Seq<char>,
    key: Seq<char>,
    value: Seq<char>,
    other: Seq<char>,
)
    requires
        is_valid_env_key(key),
        !has_line_break(value),
        is_valid_env_key(other),
        key != other,
    ensures
        set_result(content, key, value) matches Ok(new_content) && env_value(new_content, other)
            == env_value(content, other),
{
    let p = export_prefix(key);
    let nl = export_line(key, value);
    let ls = lines(content);
    let r = replace_or_append(ls, p, nl);
    lemma_lines_no_newline(content);
    lemma_export_line_no_newline(key, value);
    lemma_replace_no_newline(ls, p, nl);
    lemma_lines_of_join(r);
    lemma_lookup_relined(r, other);
    lemma_lookup_replace_other(ls, key, other, value);
}

/// Removing one key leaves what is read for every other valid key unchanged.
pub proof fn law_remove_keeps_other_keys(content: Seq<char>, key: Seq<char>, other: Seq<char>)
    requires
        is_valid_env_key(key),
        is_valid_env_key(other),
        key != other,
    ensures
        remove_result(content, key) matches Ok(new_content) && env_value(new_content, other)
            == env_value(content, other),
{
    let p = export_prefix(key);
    let ls = lines(content);
    let r = drop_prefixed(ls, p);
    lemma_lines_no_newline(content);
    lemma_drop_no_newline(ls, p);
    lemma_lines_of_join(r);
    lemma_lookup_relined(r, other);
    lemma_lookup_drop_other(ls, key, other);
}

// ---------------------------------------------------------------------------
// What a shell reads from an assignment line
// ---------------------------------------------------------------------------

/// How a POSIX shell reads the inside of a double-quoted word, starting just
/// after the opening quote: the text it stands for, when the closing quote is
/// the last character of `s` and nothing inside would be expanded
/// (conservatively, any unescaped `$` or `` ` `` counts as an expansion).
/// Inside double quotes a backslash only escapes `$`, `` ` ``, `"`, `\` and
/// a line feed (which it removes); before anything else it stays.
pub open spec fn shell_double_quoted(s: Seq<char>) -> Option<Seq<char>>
    decreases s.len(),
{
    if s.len() == 0 {
        None
    } else if s[0] == '"' {
        if s.len() == 1 {
            Some(seq![])
        } else {
            None
        }
    } else if s[0] == '$' || s[0] == '`' {
        None
    } else if s[0] == '\\' && s.len() >= 2 && (s[1] == '$' || s[1] == '`' || s[1] == '"' || s[1]
        == '\\' || s[1] == '\n') {
        let head = if s[1] == '\n' {
            Seq::<char>::empty()
        } else {
            seq![s[1]]
        };
        match shell_double_quoted(s.skip(2)) {
            Some(t) => Some(head + t),
            None => None,
        }
    } else {
        match shell_double_quoted(s.drop_first()) {
            Some(t) => Some(seq![s[0]] + t),
            None => None,
        }
    }
}

/// A value written by `set_env_value` is read back by a shell that sources
/// the file as exactly that value: the escaped text ends at its closing
/// quote and expands nothing.
pub proof fn law_escape_is_shell_safe(value: Seq<char>)
    requires
        !has_line_break(value),
    ensures
        shell_double_quoted(escape(value) + seq!['"']) == Some(value),
    decreases value.len(),
{
    if value.len() == 0 {
        assert(escape(value) + seq!['"'] =~= seq!['"']);
    } else {
        let c = value[0];
        let rest = value.drop_first();
        assert(!has_line_break(rest)) by {
            if has_line_break(rest) {
                let i = choose|i: int| 0 <= i < rest.len() && (rest[i] == '\n' || rest[i] == '\r');
                assert(value[i + 1] == rest[i]);
            }
        }
        assert(c != '\n' && c != '\r');
        law_escape_is_shell_safe(rest);
        let tail = escape(rest) + seq!['"'];
        if needs_escape(c) {
            let s = seq!['\\', c] + tail;
            assert(escape(value) + seq!['"'] =~= s);
            assert(s[0] == '\\' && s[1] == c);
            assert(s.skip(2) =~= tail);
        } else {
            let s = seq![c] + tail;
            assert(escape(value) + seq!['"'] =~= s);
            assert(s[0] == c);
            assert(s.drop_first() =~= tail);
        }
        assert(seq![c] + rest =~= value);
    }
}

// ---------------------------------------------------------------------------
// What loading every variable sees of a new assignment
// ---------------------------------------------------------------------------

/// No line of `content` assigns `key`, as `load_openclaw_env_vars` reads
/// lines.
pub open spec fn never_assigned(content: Seq<char>, key: Seq<char>) -> bool {
    forall|i: int|
        0 <= i < lines(content).len() ==> !(#[trigger] line_entry(lines(content)[i]) matches Some(
            kv,
        ) && kv.0 == key)
}

proof fn lemma_line_entry_strip_cr(x: Seq<char>)
    ensures
        line_entry(strip_cr(x)) == line_entry(x),
{
    lemma_trim_strip_cr(x);
}

proof fn lemma_relined_push(ls: Seq<Seq<char>>, x: Seq<char>)
    requires
        x.len() > 0,
    ensures
        relined(ls.push(x)) == ls.map_values(|l: Seq<char>| strip_cr(l)).push(x),
    decreases ls.len(),
{
    let f = |l: Seq<char>| strip_cr(l);
    if ls.len() == 0 {
        assert(ls.push(x) =~= seq![x]);
        assert(ls.map_values(f).push(x) =~= seq![x]);
    } else {
        assert(ls.push(x)[0] == ls[0]);
        assert(ls.push(x).drop_first() =~= ls.drop_first().push(x));
        lemma_relined_push(ls.drop_first(), x);
        assert(ls.map_values(f).push(x) =~= seq![strip_cr(ls[0])] + ls.drop_first().map_values(
            f,
        ).push(x));
    }
}

proof fn lemma_entries_map_strip_cr(ls: Seq<Seq<char>>)
    ensures
        entries_map(ls.map_values(|l: Seq<char>| strip_cr(l))) == entries_map(ls),
    decreases ls.len(),
{
    let f = |l: Seq<char>| strip_cr(l);
    if ls.len() > 0 {
        let m = ls.map_values(f);
        assert(m.drop_last() =~= ls.drop_last().map_values(f));
        lemma_entries_map_strip_cr(ls.drop_last());
        lemma_line_entry_strip_cr(ls.last());
        assert(m.last() == strip_cr(ls.last()));
    }
}

proof fn lemma_find_char_after(a: Seq<char>, c: char, b: Seq<char>)
    requires
        forall|i: int| 0 <= i < a.len() ==> a[i] != c,
    ensures
        find_char(a + seq![c] + b, c) == a.len(),
    decreases a.len(),
{
    let s = a + seq![c] + b;
    if a.len() == 0 {
        assert(s[0] == c);
    } else {
        assert(s[0] == a[0]);
        assert(s.drop_first() =~= a.drop_first() + seq![c] + b);
        assert forall|i: int| 0 <= i < a.drop_first().len() implies a.drop_first()[i] != c by {
            assert(a.drop_first()[i] == a[i + 1]);
        }
        lemma_find_char_after(a.drop_first(), c, b);
    }
}

/// A shell reading an escaped text inside double quotes gets the text back.
pub proof fn lemma_shell_dq_unescape_escape(value: Seq<char>)
    ensures
        shell_dq_unescape(escape(value)) == value,
    decreases value.len(),
{
    if value.len() > 0 {
        let c = value[0];
        let rest = escape(value.drop_first());
        lemma_shell_dq_unescape_escape(value.drop_first());
        if needs_escape(c) {
            let e = seq!['\\', c] + rest;
            assert(e[0] == '\\' && e[1] == c);
            assert(e.skip(2) =~= rest);
        } else {
            let e = seq![c] + rest;
            assert(e[0] == c);
            assert(e.drop_first() =~= rest);
        }
        assert(seq![c] + value.drop_first() =~= value);
    }
}

/// A key is a shell name, so it holds no `=`, and it is its own trim.
proof fn lemma_key_shape(key: Seq<char>)
    requires
        is_valid_env_key(key),
    ensures
        forall|i: int| 0 <= i < key.len() ==> key[i] != '=',
        trim(key) == key,
{
    assert forall|i: int| 0 <= i < key.len() implies key[i] != '=' by {
        if i > 0 {
            assert(is_key_char(key[i]));
        }
    }
    if key.len() > 1 {
        assert(is_key_char(key[key.len() - 1]));
    }
    lemma_trim_unchanged(key);
}

/// A line that starts with `export KEY=` assigns `key` when it is loaded.
proof fn lemma_prefixed_line_assigns(l: Seq<char>, key: Seq<char>)
    requires
        is_valid_env_key(key),
        starts_with(l, export_prefix(key)),
    ensures
        line_entry(l) matches Some(kv) && kv.0 == key,
{
    let p = export_prefix(key);
    lemma_prefix_ends(key);
    lemma_trim_keeps_prefix(l, p);
    let t = trim(l);
    assert(t[0] == p[0]);
    assert(t.take(7) =~= export_word()) by {
        assert forall|i: int| 0 <= i < 7 implies t.take(7)[i] == export_word()[i] by {
            assert(t.take(p.len() as int)[i] == p[i]);
        }
    }
    let u = t.skip(7);
    lemma_key_shape(key);
    assert(u =~= key + seq!['='] + u.skip(key.len() as int + 1)) by {
        assert forall|i: int| 0 <= i < key.len() + 1 implies u[i] == (key + seq!['='])[i] by {
            assert(t.take(p.len() as int)[i + 7] == p[i + 7]);
        }
    }
    lemma_find_char_after(key, '=', u.skip(key.len() as int + 1));
    assert(u.take(key.len() as int) =~= key);
}

proof fn lemma_export_line_entry(key: Seq<char>, value: Seq<char>)
    requires
        is_valid_env_key(key),
    ensures
        line_entry(export_line(key, value)) == Some((key, value)),
{
    let nl = export_line(key, value);
    let e = escape(value);
    lemma_export_line_read(key, value);
    lemma_prefixed_line_assigns(nl, key);
    lemma_key_shape(key);
    let u = nl.skip(7);
    let q = seq!['"'] + e + seq!['"'];
    assert(nl.take(7) =~= export_word());
    assert(nl[0] == 'e');
    assert(u =~= key + seq!['='] + q);
    assert(u.take(key.len() as int) =~= key);
    lemma_find_char_after(key, '=', q);
    assert(u.skip(key.len() as int + 1) =~= q);
    assert(q[0] == '"' && q.last() == '"');
    lemma_trim_unchanged(q);
    assert(quoted_by(q, '"'));
    assert(inner(q) =~= e);
    lemma_shell_dq_unescape_escape(value);
}

proof fn lemma_append_when_unassigned(ls: Seq<Seq<char>>, key: Seq<char>, nl: Seq<char>)
    requires
        is_valid_env_key(key),
        forall|i: int|
            0 <= i < ls.len() ==> !(#[trigger] line_entry(ls[i]) matches Some(kv) && kv.0 == key),
    ensures
        replace_or_append(ls, export_prefix(key), nl) == ls.push(nl),
    decreases ls.len(),
{
    if ls.len() == 0 {
        assert(ls.push(nl) =~= seq![nl]);
    } else {
        if starts_with(ls[0], export_prefix(key)) {
            lemma_prefixed_line_assigns(ls[0], key);
            assert(line_entry(ls[0]) matches Some(kv) && kv.0 == key);
        }
        let rest = ls.drop_first();
        assert forall|i: int| 0 <= i < rest.len() implies !(#[trigger] line_entry(rest[i]) matches Some(
            kv,
        ) && kv.0 == key) by {
            assert(rest[i] == ls[i + 1]);
            assert(line_entry(ls[i + 1]) == line_entry(rest[i]));
        }
        lemma_append_when_unassigned(rest, key, nl);
        assert(seq![ls[0]] + rest.push(nl) =~= ls.push(nl));
    }
}

/// Setting a key that no line of the file assigns adds exactly that variable,
/// with exactly the value set, to what loading the file gives, and changes no
/// other variable.
pub proof fn law_load_after_set_new_key(content: Seq<char>, key: Seq<char>, value: Seq<char>)
    requires
        is_valid_env_key(key),
        !has_line_break(value),
        never_assigned(content, key),
    ensures
        set_result(content, key, value) matches Ok(new_content) && env_vars(new_content)
            == env_vars(content).insert(key, value),
{
    let p = export_prefix(key);
    let nl = export_line(key, value);
    let ls = lines(content);
    assert forall|i: int| 0 <= i < ls.len() implies !(#[trigger] line_entry(ls[i]) matches Some(
        kv,
    ) && kv.0 == key) by {
        assert(line_entry(lines(content)[i]) == line_entry(ls[i]));
    }
    lemma_append_when_unassigned(ls, key, nl);
    let r = ls.push(nl);
    lemma_lines_no_newline(content);
    lemma_export_line_no_newline(key, value);
    assert forall|i: int| 0 <= i < r.len() implies no_newline(#[trigger] r[i]) by {
        if i < ls.len() {
            assert(r[i] == ls[i]);
        }
    }
    lemma_lines_of_join(r);
    lemma_export_line_read(key, value);
    lemma_relined_push(ls, nl);
    let m = ls.map_values(|l: Seq<char>| strip_cr(l));
    lemma_entries_map_strip_cr(ls);
    lemma_export_line_entry(key, value);
    assert(m.push(nl).drop_last() =~= m);
    assert(m.push(nl).last() == nl);
}

// ---------------------------------------------------------------------------
// Which keys are accepted
// ---------------------------------------------------------------------------

/// A shell variable name spelled out by character ranges: a first character
/// in `a`..=`z`, `A`..=`Z` or `_`, then characters in `a`..=`z`, `A`..=`Z`,
/// `0`..=`9` or `_`.
pub open spec fn shell_variable_name(key: Seq<char>) -> bool {
    &&& key.len() > 0
    &&& ('a' <= key[0] && key[0] <= 'z') || ('A' <= key[0] && key[0] <= 'Z') || key[0] == '_'
    &&& forall|i: int|
        1 <= i < key.len() ==> ('a' <= #[trigger] key[i] && key[i] <= 'z') || ('A' <= key[i]
            && key[i] <= 'Z') || ('0' <= key[i] && key[i] <= '9') || key[i] == '_'
}

/// A key is accepted exactly when it is a shell variable name, lower case
/// letters included; an empty key is refused as empty, any other refused key
/// as invalid.
pub proof fn law_key_accepted_exactly(key: Seq<char>)
    ensures
        key_check(key) == Ok::<(), EnvError>(()) <==> shell_variable_name(key),
        key_check(key) == Err::<(), EnvError>(EnvError::EmptyKey) <==> key.len() == 0,
        key.len() > 0 && !shell_variable_name(key) ==> key_check(key) == Err::<(), EnvError>(
            EnvError::InvalidKey,
        ),
{
    if key.len() > 0 {
        if is_valid_env_key(key) {
            assert forall|i: int| 1 <= i < key.len() implies ('a' <= #[trigger] key[i] && key[i]
                <= 'z') || ('A' <= key[i] && key[i] <= 'Z') || ('0' <= key[i] && key[i] <= '9')
                || key[i] == '_' by {
                assert(is_key_char(key[i]));
            }
        }
        if shell_variable_name(key) {
            assert forall|i: int| 1 <= i < key.len() implies #[trigger] is_key_char(key[i]) by {
                assert(('a' <= key[i] && key[i] <= 'z') || ('A' <= key[i] && key[i] <= 'Z') || (
                '0' <= key[i] && key[i] <= '9') || key[i] == '_');
            }
        }
    }
}

/// Setting a value succeeds exactly when the key is a shell variable name
/// and the value holds no line break (`\n` or `\r`); with a good key and a
/// value that breaks a line, it fails for the value.
pub proof fn law_set_accepts_exactly(content: Seq<char>, key: Seq<char>, value: Seq<char>)
    ensures
        set_result(content, key, value) is Ok <==> shell_variable_name(key) && forall|i: int|
            0 <= i < value.len() ==> #[trigger] value[i] != '\n' && value[i] != '\r',
        shell_variable_name(key) && (exists|i: int|
            0 <= i < value.len() && (#[trigger] value[i] == '\n' || value[i] == '\r'))
            ==> set_result(content, key, value) == Err::<Seq<char>, EnvError>(
            EnvError::MultilineValue,
        ),
{
    law_key_accepted_exactly(key);
}

} // verus!
