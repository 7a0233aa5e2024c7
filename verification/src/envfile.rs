//! The shell environment file: lines of the form `export KEY="VALUE"`.
//!
//! The functions here work on the file's text; reading and writing the file
//! itself is left to the caller.
use vstd::prelude::*;
use crate::text::{
    chars_of, concat2, copy_range, extend_chars, join_lines, join_with_newlines, lines, split_lines, starts_with, starts_with_at, string_of,
    trim, trim_chars, views,
};

verus! {

// ---------------------------------------------------------------------------
// Keys
// ---------------------------------------------------------------------------

/// Why a key or a value cannot be written to the environment file.
#[derive(Debug, Clone, Copy, PartialEq, Eq, Structural)]
pub enum EnvError {
    /// The key is empty.
    EmptyKey,
    /// The key is not a shell variable name.
    InvalidKey,
    /// The value holds a line break.
    MultilineValue,
}

impl EnvError {
    /// The message for this error when it concerns `key`.
    pub fn message(&self, key: &str) -> (res: String)
        ensures
            res@ == match self {
                EnvError::EmptyKey => "环境变量名不能为空"@,
                EnvError::InvalidKey => "非法环境变量名: "@ + key@,
                EnvError::MultilineValue => "环境变量值不能包含换行符"@,
            },
    {
        match self {
            EnvError::EmptyKey => "环境变量名不能为空".to_owned(),
            EnvError::InvalidKey => concat2("非法环境变量名: ", key),
            EnvError::MultilineValue => "环境变量值不能包含换行符".to_owned(),
        }
    }
}

pub open spec fn is_ascii_alphabetic(c: char) -> bool {
    ('a' <= c && c <= 'z') || ('A' <= c && c <= 'Z')
}

pub open spec fn is_ascii_alphanumeric(c: char) -> bool {
    is_ascii_alphabetic(c) || ('0' <= c && c <= '9')
}

/// A character that may follow the first one in a variable name.
pub open spec fn is_key_char(c: char) -> bool {
    is_ascii_alphanumeric(c) || c == '_'
}

/// A shell variable name: a letter or `_`, then letters, digits or `_`.
pub open spec fn is_valid_env_key(key: Seq<char>) -> bool {
    &&& key.len() > 0
    &&& is_ascii_alphabetic(key[0]) || key[0] == '_'
    &&& forall|i: int| 1 <= i < key.len() ==> #[trigger] is_key_char(key[i])
}

/// The outcome of checking a key.
pub open spec fn key_check(key: Seq<char>) -> Result<(), EnvError> {
    if key.len() == 0 {
        Err(EnvError::EmptyKey)
    } else if !is_valid_env_key(key) {
        Err(EnvError::InvalidKey)
    } else {
        Ok(())
    }
}

fn is_ascii_alphabetic_exec(c: char) -> (res: bool)
    ensures
        res == is_ascii_alphabetic(c),
{
    ('a' <= c && c <= 'z') || ('A' <= c && c <= 'Z')
}

fn is_key_char_exec(c: char) -> (res: bool)
    ensures
        res == is_key_char(c),
{
    is_ascii_alphabetic_exec(c) || ('0' <= c && c <= '9') || c == '_'
}

fn check_key_chars(key: &Vec<char>) -> (res: Result<(), EnvError>)
    ensures
        res == key_check(key@),
{
    if key.len() == 0 {
        return Err(EnvError::EmptyKey);
    }
    if !(is_ascii_alphabetic_exec(key[0]) || key[0] == '_') {
        return Err(EnvError::InvalidKey);
    }
    let mut i: usize = 1;
    while i < key.len()
        invariant
            1 <= i <= key.len(),
            forall|j: int| 1 <= j < i ==> #[trigger] is_key_char(key@[j]),
        decreases key.len() - i,
    {
        if !is_key_char_exec(key[i]) {
            assert(!is_key_char(key@[i as int]));
            return Err(EnvError::InvalidKey);
        }
        i = i + 1;
    }
    Ok(())
}

/// Checks that `key` is a shell variable name.
pub fn validate_env_key(key: &str) -> (res: Result<(), EnvError>)
    ensures
        res == key_check(key@),
{
    let kc = chars_of(key);
    check_key_chars(&kc)
}

// ---------------------------------------------------------------------------
// Escaping values
// ---------------------------------------------------------------------------

/// Characters that keep their shell meaning inside double quotes.
pub open spec fn needs_escape(c: char) -> bool {
    c == '\\' || c == '"' || c == '$' || c == '`'
}

pub open spec fn escape_char(c: char) -> Seq<char> {
    if needs_escape(c) {
        seq!['\\', c]
    } else {
        seq![c]
    }
}

/// `s` with a backslash before each `\`, `"`, `$` and `` ` ``.
pub open spec fn escape(s: Seq<char>) -> Seq<char>
    decreases s.len(),
{
    if s.len() == 0 {
        seq![]
    } else {
        escape_char(s[0]) + escape(s.drop_first())
    }
}

/// `s` holds a line feed or a carriage return.
pub open spec fn has_line_break(s: Seq<char>) -> bool {
    exists|i: int| 0 <= i < s.len() && (s[i] == '\n' || s[i] == '\r')
}

/// Each backslash is dropped and the character after it kept as it is; a
/// backslash at the very end is dropped.
pub open spec fn unescape(s: Seq<char>) -> Seq<char>
    decreases s.len(),
{
    if s.len() == 0 {
        seq![]
    } else if s[0] == '\\' {
        if s.len() >= 2 {
            seq![s[1]] + unescape(s.skip(2))
        } else {
            seq![]
        }
    } else {
        seq![s[0]] + unescape(s.drop_first())
    }
}

fn escape_chars(s: &Vec<char>) -> (res: Vec<char>)
    ensures
        res@ == escape(s@),
{
    let mut out: Vec<char> = Vec::new();
    let mut i: usize = 0;
    assert(s@.skip(0) =~= s@);
    while i < s.len()
        invariant
            i <= s.len(),
            escape(s@) == out@ + escape(s@.skip(i as int)),
        decreases s.len() - i,
    {
        let c = s[i];
        assert(s@.skip(i as int)[0] == c);
        assert(s@.skip(i as int).drop_first() =~= s@.skip(i + 1));
        let ghost before = out@;
        if c == '\\' || c == '"' || c == '$' || c == '`' {
            out.push('\\');
        }
        out.push(c);
        assert(out@ =~= before + escape_char(c));
        assert(escape(s@) == before + (escape_char(c) + escape(s@.skip(i + 1))));
        assert(before + (escape_char(c) + escape(s@.skip(i + 1))) =~= out@ + escape(s@.skip(i + 1)));
        i = i + 1;
    }
    assert(s@.skip(s.len() as int) =~= Seq::<char>::empty());
    assert(out@ + escape(Seq::<char>::empty()) =~= out@);
    out
}

/// Escapes `value` for a double-quoted shell string; a value with a line
/// break is refused.
pub fn escape_env_value(value: &str) -> (res: Result<String, EnvError>)
    ensures
        has_line_break(value@) ==> res == Err::<String, EnvError>(EnvError::MultilineValue),
        !has_line_break(value@) ==> (res matches Ok(s) && s@ == escape(value@)),
{
    let vc = chars_of(value);
    let mut i: usize = 0;
    while i < vc.len()
        invariant
            i <= vc.len(),
            vc@ == value@,
            forall|j: int| 0 <= j < i ==> vc@[j] != '\n' && vc@[j] != '\r',
        decreases vc.len() - i,
    {
        if vc[i] == '\n' || vc[i] == '\r' {
            return Err(EnvError::MultilineValue);
        }
        i = i + 1;
    }
    let e = escape_chars(&vc);
    Ok(string_of(&e))
}

fn unescape_chars(s: &Vec<char>) -> (res: Vec<char>)
    ensures
        res@ == unescape(s@),
{
    let mut out: Vec<char> = Vec::new();
    let mut i: usize = 0;
    assert(s@.skip(0) =~= s@);
    while i < s.len()
        invariant
            i <= s.len(),
            unescape(s@) == out@ + unescape(s@.skip(i as int)),
        decreases s.len() - i,
    {
        let c = s[i];
        let ghost rest = s@.skip(i as int);
        assert(rest[0] == c);
        let ghost before = out@;
        if c == '\\' {
            if i + 1 < s.len() {
                assert(rest[1] == s@[i + 1]);
                assert(rest.skip(2) =~= s@.skip(i + 2));
                out.push(s[i + 1]);
                assert(before + (seq![s@[i + 1]] + unescape(s@.skip(i + 2))) =~= out@ + unescape(
                    s@.skip(i + 2),
                ));
                i = i + 2;
            } else {
                assert(s@.skip(i + 1) =~= Seq::<char>::empty());
                assert(before + Seq::<char>::empty() =~= out@ + unescape(s@.skip(i + 1)));
                i = i + 1;
            }
        } else {
            assert(rest.drop_first() =~= s@.skip(i + 1));
            out.push(c);
            assert(before + (seq![c] + unescape(s@.skip(i + 1))) =~= out@ + unescape(
                s@.skip(i + 1),
            ));
            i = i + 1;
        }
    }
    assert(s@.skip(s.len() as int) =~= Seq::<char>::empty());
    assert(out@ + unescape(Seq::<char>::empty()) =~= out@);
    out
}

/// Undoes the escaping of a double-quoted value.
pub fn unescape_env_value(value: &str) -> (res: String)
    ensures
        res@ == unescape(value@),
{
    let vc = chars_of(value);
    let u = unescape_chars(&vc);
    string_of(&u)
}

/// Unescaping an escaped text gives the text back.
pub proof fn lemma_unescape_escape(s: Seq<char>)
    ensures
        unescape(escape(s)) == s,
    decreases s.len(),
{
    if s.len() > 0 {
        let c = s[0];
        let rest = escape(s.drop_first());
        lemma_unescape_escape(s.drop_first());
        if needs_escape(c) {
            let e = seq!['\\', c] + rest;
            assert(e[0] == '\\' && e[1] == c);
            assert(e.skip(2) =~= rest);
        } else {
            let e = seq![c] + rest;
            assert(e[0] == c);
            assert(e.drop_first() =~= rest);
        }
        assert(seq![c] + s.drop_first() =~= s);
    }
}

/// An escaped text has a line break exactly where the text has one.
pub proof fn lemma_escape_no_line_break(s: Seq<char>)
    requires
        !has_line_break(s),
    ensures
        !has_line_break(escape(s)),
    decreases s.len(),
{
    if s.len() > 0 {
        assert(!has_line_break(s.drop_first())) by {
            if has_line_break(s.drop_first()) {
                let i = choose|i: int|
                    0 <= i < s.drop_first().len() && (s.drop_first()[i] == '\n'
                        || s.drop_first()[i] == '\r');
                assert(s[i + 1] == s.drop_first()[i]);
            }
        }
        lemma_escape_no_line_break(s.drop_first());
        let a = escape_char(s[0]);
        let b = escape(s.drop_first());
        assert(s[0] != '\n' && s[0] != '\r');
        if has_line_break(a + b) {
            let i = choose|i: int| 0 <= i < (a + b).len() && ((a + b)[i] == '\n' || (a + b)[i] == '\r');
            if i >= a.len() {
                assert((a + b)[i] == b[i - a.len()]);
            }
        }
    }
}

// ---------------------------------------------------------------------------
// Reading a value
// ---------------------------------------------------------------------------

/// `export KEY=`, the start of the line that sets `key`.
pub open spec fn export_prefix(key: Seq<char>) -> Seq<char> {
    seq!['e', 'x', 'p', 'o', 'r', 't', ' '] + key + seq!['=']
}

fn export_prefix_chars(key: &Vec<char>) -> (res: Vec<char>)
    ensures
        res@ == export_prefix(key@),
{
    let mut p: Vec<char> = Vec::new();
    p.push('e');
    p.push('x');
    p.push('p');
    p.push('o');
    p.push('r');
    p.push('t');
    p.push(' ');
    extend_chars(&mut p, key);
    p.push('=');
    assert(p@ =~= export_prefix(key@));
    p
}

/// `s` with `p` removed from its front as many times as it occurs there
/// (`str::trim_start_matches` with a text pattern).
pub open spec fn strip_prefix_repeatedly(s: Seq<char>, p: Seq<char>) -> Seq<char>
    decreases s.len(),
{
    if p.len() > 0 && starts_with(s, p) {
        strip_prefix_repeatedly(s.skip(p.len() as int), p)
    } else {
        s
    }
}

fn strip_prefix_repeatedly_chars(s: &Vec<char>, p: &Vec<char>) -> (res: Vec<char>)
    ensures
        res@ == strip_prefix_repeatedly(s@, p@),
{
    let mut i: usize = 0;
    assert(s@.skip(0) =~= s@);
    if p.len() == 0 {
        return copy_range(s, 0, s.len());
    }
    while starts_with_at(s, i, p)
        invariant
            i <= s.len(),
            p.len() > 0,
            strip_prefix_repeatedly(s@.skip(i as int), p@) == strip_prefix_repeatedly(s@, p@),
        decreases s.len() - i,
    {
        assert(s@.skip(i as int).skip(p.len() as int) =~= s@.skip(i + p.len()));
        i = i + p.len();
    }
    copy_range(s, i, s.len())
}

/// Whether the trimmed text `t` is wrapped in the quote `q` (at least two
/// characters, `q` first and last).
pub open spec fn quoted_by(t: Seq<char>, q: char) -> bool {
    t.len() >= 2 && t[0] == q && t.last() == q
}

/// `t` without its first and last characters.
pub open spec fn inner(t: Seq<char>) -> Seq<char> {
    t.subrange(1, t.len() - 1)
}

/// The value that a raw right-hand side stands for: trimmed; inside double
/// quotes unescaped, inside single quotes taken as it is.
pub open spec fn parse_value(raw: Seq<char>) -> Seq<char> {
    let t = trim(raw);
    if quoted_by(t, '"') {
        unescape(inner(t))
    } else if quoted_by(t, '\'') {
        inner(t)
    } else {
        t
    }
}

fn parse_value_chars(raw: &Vec<char>) -> (res: Vec<char>)
    ensures
        res@ == parse_value(raw@),
{
    let t = trim_chars(raw);
    let n = t.len();
    if n >= 2 && t[0] == '"' && t[n - 1] == '"' {
        let inner = copy_range(&t, 1, n - 1);
        unescape_chars(&inner)
    } else if n >= 2 && t[0] == '\'' && t[n - 1] == '\'' {
        copy_range(&t, 1, n - 1)
    } else {
        t
    }
}

/// The value that a raw right-hand side stands for.
pub fn parse_env_value(raw: &str) -> (res: String)
    ensures
        res@ == parse_value(raw@),
{
    let rc = chars_of(raw);
    let v = parse_value_chars(&rc);
    string_of(&v)
}

/// The value set for `key` by the first of `ls` that, trimmed, starts with
/// `export KEY=`.
pub open spec fn lookup(ls: Seq<Seq<char>>, key: Seq<char>) -> Option<Seq<char>>
    decreases ls.len(),
{
    if ls.len() == 0 {
        None
    } else if starts_with(trim(ls[0]), export_prefix(key)) {
        Some(
            parse_value(strip_prefix_repeatedly(trim(ls[0]), export_prefix(key))),
        )
    } else {
        lookup(ls.drop_first(), key)
    }
}

/// The value that the environment file `content` sets for `key`.
pub open spec fn env_value(content: Seq<char>, key: Seq<char>) -> Option<Seq<char>> {
    lookup(lines(content), key)
}

/// Reads the value of `key` from the text of an environment file.
pub fn read_env_value(content: &str, key: &str) -> (res: Option<String>)
    ensures
        match res {
            Some(v) => env_value(content@, key@) == Some(v@),
            None => env_value(content@, key@) is None,
        },
{
    let cs = chars_of(content);
    let ls = split_lines(&cs);
    let kc = chars_of(key);
    let p = export_prefix_chars(&kc);
    let ghost all = views(ls@);
    let mut i: usize = 0;
    assert(all.skip(0) =~= all);
    while i < ls.len()
        invariant
            i <= ls.len(),
            all == views(ls@),
            all == lines(content@),
            p@ == export_prefix(key@),
            lookup(all.skip(i as int), key@) == lookup(all, key@),
        decreases ls.len() - i,
    {
        assert(all.skip(i as int)[0] == ls@[i as int]@);
        assert(all.skip(i as int).drop_first() =~= all.skip(i + 1));
        let t = trim_chars(&ls[i]);
        assert(t@.skip(0) =~= t@);
        if starts_with_at(&t, 0, &p) {
            let stripped = strip_prefix_repeatedly_chars(&t, &p);
            let v = parse_value_chars(&stripped);
            return Some(string_of(&v));
        }
        i = i + 1;
    }
    None
}

// ---------------------------------------------------------------------------
// Setting and removing a value
// ---------------------------------------------------------------------------

/// The line that sets `key` to `value`: `export KEY="ESCAPED"`.
pub open spec fn export_line(key: Seq<char>, value: Seq<char>) -> Seq<char> {
    export_prefix(key) + seq!['"'] + escape(value) + seq!['"']
}

/// `ls` with the first line that starts with `p` replaced by `nl`, or with
/// `nl` added at the end when no line starts with `p`.
pub open spec fn replace_or_append(ls: Seq<Seq<char>>, p: Seq<char>, nl: Seq<char>) -> Seq<
    Seq<char>,
>
    decreases ls.len(),
{
    if ls.len() == 0 {
        seq![nl]
    } else if starts_with(ls[0], p) {
        seq![nl] + ls.drop_first()
    } else {
        seq![ls[0]] + replace_or_append(ls.drop_first(), p, nl)
    }
}

/// `ls` without the lines that start with `p`.
pub open spec fn drop_prefixed(ls: Seq<Seq<char>>, p: Seq<char>) -> Seq<Seq<char>>
    decreases ls.len(),
{
    if ls.len() == 0 {
        seq![]
    } else if starts_with(ls[0], p) {
        drop_prefixed(ls.drop_first(), p)
    } else {
        seq![ls[0]] + drop_prefixed(ls.drop_first(), p)
    }
}

/// The new text of the environment file after setting `key` to `value`.
pub open spec fn set_result(content: Seq<char>, key: Seq<char>, value: Seq<char>) -> Result<
    Seq<char>,
    EnvError,
> {
    match key_check(key) {
        Err(e) => Err(e),
        Ok(_) => if has_line_break(value) {
            Err(EnvError::MultilineValue)
        } else {
            Ok(
                join_lines(
                    replace_or_append(lines(content), export_prefix(key), export_line(key, value)),
                ),
            )
        },
    }
}

/// The new text of the environment file after removing `key`.
pub open spec fn remove_result(content: Seq<char>, key: Seq<char>) -> Result<Seq<char>, EnvError> {
    match key_check(key) {
        Err(e) => Err(e),
        Ok(_) => Ok(join_lines(drop_prefixed(lines(content), export_prefix(key)))),
    }
}

/// Sets `key` to `value` in the text of an environment file and gives the new
/// text: the first line that starts with `export KEY=` is replaced, or the
/// line is added at the end. Lines are joined by line feeds.
pub fn set_env_value(content: &str, key: &str, value: &str) -> (res: Result<String, EnvError>)
    ensures
        match res {
            Ok(s) => set_result(content@, key@, value@) == Ok::<Seq<char>, EnvError>(s@),
            Err(e) => set_result(content@, key@, value@) == Err::<Seq<char>, EnvError>(e),
        },
{
    let kc = chars_of(key);
    match check_key_chars(&kc) {
        Err(e) => return Err(e),
        Ok(()) => {},
    }
    let vc = chars_of(value);
    let mut j: usize = 0;
    while j < vc.len()
        invariant
            j <= vc.len(),
            vc@ == value@,
            key_check(key@) == Ok::<(), EnvError>(()),
            forall|k: int| 0 <= k < j ==> vc@[k] != '\n' && vc@[k] != '\r',
        decreases vc.len() - j,
    {
        if vc[j] == '\n' || vc[j] == '\r' {
            assert(value@[j as int] == '\n' || value@[j as int] == '\r');
            return Err(EnvError::MultilineValue);
        }
        j = j + 1;
    }
    assert(!has_line_break(value@));
    let escaped = escape_chars(&vc);
    let p = export_prefix_chars(&kc);
    let mut nl = copy_range(&p, 0, p.len());
    nl.push('"');
    extend_chars(&mut nl, &escaped);
    nl.push('"');
    assert(nl@ =~= export_line(key@, value@));
    let cs = chars_of(content);
    let mut ls = split_lines(&cs);
    let ghost all = views(ls@);
    let mut i: usize = 0;
    assert(all.take(0) + all.skip(0) =~= all);
    while i < ls.len()
        invariant
            i <= ls.len(),
            all == views(ls@),
            all == lines(content@),
            p@ == export_prefix(key@),
            nl@ == export_line(key@, value@),
            !has_line_break(value@),
            key_check(key@) == Ok::<(), EnvError>(()),
            replace_or_append(all, p@, nl@) == all.take(i as int) + replace_or_append(
                all.skip(i as int),
                p@,
                nl@,
            ),
        decreases ls.len() - i,
    {
        assert(all.skip(i as int)[0] == ls@[i as int]@);
        assert(all.skip(i as int).drop_first() =~= all.skip(i + 1));
        if starts_with_at(&ls[i], 0, &p) {
            proof {
                assert(ls@[i as int]@.skip(0) =~= ls@[i as int]@);
            }
            assert(replace_or_append(all.skip(i as int), p@, nl@) == seq![nl@] + all.skip(i + 1));
            ls.set(i, nl);
            assert(views(ls@) =~= all.take(i as int) + (seq![nl@] + all.skip(i + 1)));
            let joined = join_with_newlines(&ls);
            return Ok(string_of(&joined));
        }
        proof {
            assert(ls@[i as int]@.skip(0) =~= ls@[i as int]@);
            assert(all.take(i as int) + (seq![all[i as int]] + replace_or_append(
                all.skip(i + 1),
                p@,
                nl@,
            )) =~= all.take(i + 1) + replace_or_append(all.skip(i + 1), p@, nl@));
        }
        i = i + 1;
    }
    assert(all.take(i as int) =~= all);
    ls.push(nl);
    assert(views(ls@) =~= all + seq![nl@]);
    let joined = join_with_newlines(&ls);
    Ok(string_of(&joined))
}

/// Removes every line that starts with `export KEY=` from the text of an
/// environment file and gives the new text.
pub fn remove_env_value(content: &str, key: &str) -> (res: Result<String, EnvError>)
    ensures
        match res {
            Ok(s) => remove_result(content@, key@) == Ok::<Seq<char>, EnvError>(s@),
            Err(e) => remove_result(content@, key@) == Err::<Seq<char>, EnvError>(e),
        },
{
    let kc = chars_of(key);
    match check_key_chars(&kc) {
        Err(e) => return Err(e),
        Ok(()) => {},
    }
    let p = export_prefix_chars(&kc);
    let cs = chars_of(content);
    let ls = split_lines(&cs);
    let ghost all = views(ls@);
    let mut out: Vec<Vec<char>> = Vec::new();
    let mut i: usize = 0;
    assert(all.skip(0) =~= all);
    while i < ls.len()
        invariant
            i <= ls.len(),
            all == views(ls@),
            p@ == export_prefix(key@),
            drop_prefixed(all, p@) == views(out@) + drop_prefixed(all.skip(i as int), p@),
        decreases ls.len() - i,
    {
        assert(all.skip(i as int)[0] == ls@[i as int]@);
        assert(all.skip(i as int).drop_first() =~= all.skip(i + 1));
        assert(ls@[i as int]@.skip(0) =~= ls@[i as int]@);
        if !starts_with_at(&ls[i], 0, &p) {
            let ghost before = views(out@);
            let line = copy_range(&ls[i], 0, ls[i].len());
            assert(line@ =~= ls@[i as int]@);
            out.push(line);
            assert(views(out@) =~= before.push(all[i as int]));
            assert(before + (seq![all[i as int]] + drop_prefixed(all.skip(i + 1), p@))
                =~= views(out@) + drop_prefixed(all.skip(i + 1), p@));
        }
        i = i + 1;
    }
    assert(all.skip(i as int) =~= Seq::<Seq<char>>::empty());
    assert(views(out@) + Seq::<Seq<char>>::empty() =~= views(out@));
    let joined = join_with_newlines(&out);
    Ok(string_of(&joined))
}

// ---------------------------------------------------------------------------
// Loading every variable
// ---------------------------------------------------------------------------

/// `export ` with its space.
pub open spec fn export_word() -> Seq<char> {
    seq!['e', 'x', 'p', 'o', 'r', 't', ' ']
}

/// The index of the first `c` in `s`, or the length of `s` when there is none.
pub open spec fn find_char(s: Seq<char>, c: char) -> int
    decreases s.len(),
{
    if s.len() == 0 {
        0
    } else if s[0] == c {
        0
    } else {
        1 + find_char(s.drop_first(), c)
    }
}

/// How a shell reads the inside of double quotes: a backslash before `$`,
/// `` ` ``, `"` or `\` is dropped and the character after it kept; any other
/// backslash stays.
pub open spec fn shell_dq_unescape(s: Seq<char>) -> Seq<char>
    decreases s.len(),
{
    if s.len() == 0 {
        seq![]
    } else if s[0] == '\\' && s.len() >= 2 && needs_escape(s[1]) {
        seq![s[1]] + shell_dq_unescape(s.skip(2))
    } else {
        seq![s[0]] + shell_dq_unescape(s.drop_first())
    }
}

/// The value that a right-hand side stands for when the file is sourced by a
/// shell: trimmed; inside double quotes with the backslash escapes resolved
/// as a shell resolves them there; inside single quotes unchanged; otherwise
/// with each backslash escaping the character after it.
pub open spec fn sourced_value(raw: Seq<char>) -> Seq<char> {
    let t = trim(raw);
    if quoted_by(t, '"') {
        shell_dq_unescape(inner(t))
    } else if quoted_by(t, '\'') {
        inner(t)
    } else {
        unescape(t)
    }
}

/// The variable that one line of the file assigns, if any, as sourcing the
/// file assigns it: comments and empty lines assign nothing; `export ` is
/// optional; the key is the trimmed text before the first `=`; the value is
/// what the text after it stands for (`sourced_value`).
pub open spec fn line_entry(l: Seq<char>) -> Option<(Seq<char>, Seq<char>)> {
    let t = trim(l);
    if t.len() == 0 || t[0] == '#' {
        None
    } else {
        let u = if starts_with(t, export_word()) {
            t.skip(7)
        } else {
            t
        };
        let i = find_char(u, '=');
        if i >= u.len() {
            None
        } else {
            Some(
                (
                    trim(u.take(i)),
                    sourced_value(u.skip(i + 1)),
                ),
            )
        }
    }
}

/// The variables that the lines `ls` assign; a later line wins.
pub open spec fn entries_map(ls: Seq<Seq<char>>) -> Map<Seq<char>, Seq<char>>
    decreases ls.len(),
{
    if ls.len() == 0 {
        Map::empty()
    } else {
        let m = entries_map(ls.drop_last());
        match line_entry(ls.last()) {
            Some(kv) => m.insert(kv.0, kv.1),
            None => m,
        }
    }
}

/// The variables that the environment file `content` assigns.
pub open spec fn env_vars(content: Seq<char>) -> Map<Seq<char>, Seq<char>> {
    entries_map(lines(content))
}

fn find_char_exec(s: &Vec<char>, c: char) -> (res: usize)
    ensures
        res as int == find_char(s@, c),
        res <= s.len(),
{
    let mut i: usize = 0;
    assert(s@.skip(0) =~= s@);
    while i < s.len() && s[i] != c
        invariant
            i <= s.len(),
            find_char(s@, c) == i + find_char(s@.skip(i as int), c),
        decreases s.len() - i,
    {
        assert(s@.skip(i as int)[0] == s@[i as int]);
        assert(s@.skip(i as int).drop_first() =~= s@.skip(i + 1));
        i = i + 1;
    }
    if i < s.len() {
        assert(s@.skip(i as int)[0] == s@[i as int]);
    }
    i
}

fn shell_dq_unescape_chars(s: &Vec<char>) -> (res: Vec<char>)
    ensures
        res@ == shell_dq_unescape(s@),
{
    let mut out: Vec<char> = Vec::new();
    let mut i: usize = 0;
    assert(s@.skip(0) =~= s@);
    while i < s.len()
        invariant
            i <= s.len(),
            shell_dq_unescape(s@) == out@ + shell_dq_unescape(s@.skip(i as int)),
        decreases s.len() - i,
    {
        let c = s[i];
        let ghost rest = s@.skip(i as int);
        assert(rest[0] == c);
        let ghost before = out@;
        if c == '\\' && i + 1 < s.len() && (s[i + 1] == '\\' || s[i + 1] == '"' || s[i + 1] == '$'
            || s[i + 1] == '`') {
            assert(rest[1] == s@[i + 1]);
            assert(rest.skip(2) =~= s@.skip(i + 2));
            out.push(s[i + 1]);
            assert(before + (seq![s@[i + 1]] + shell_dq_unescape(s@.skip(i + 2))) =~= out@
                + shell_dq_unescape(s@.skip(i + 2)));
            i = i + 2;
        } else {
            if i + 1 < s.len() {
                assert(rest[1] == s@[i + 1]);
            }
            assert(rest.drop_first() =~= s@.skip(i + 1));
            out.push(c);
            assert(before + (seq![c] + shell_dq_unescape(s@.skip(i + 1))) =~= out@
                + shell_dq_unescape(s@.skip(i + 1)));
            i = i + 1;
        }
    }
    assert(s@.skip(s.len() as int) =~= Seq::<char>::empty());
    assert(out@ + shell_dq_unescape(Seq::<char>::empty()) =~= out@);
    out
}

fn sourced_value_chars(raw: &Vec<char>) -> (res: Vec<char>)
    ensures
        res@ == sourced_value(raw@),
{
    let t = trim_chars(raw);
    let n = t.len();
    if n >= 2 && t[0] == '"' && t[n - 1] == '"' {
        let inner = copy_range(&t, 1, n - 1);
        shell_dq_unescape_chars(&inner)
    } else if n >= 2 && t[0] == '\'' && t[n - 1] == '\'' {
        copy_range(&t, 1, n - 1)
    } else {
        unescape_chars(&t)
    }
}

fn line_entry_exec(l: &Vec<char>) -> (res: Option<(Vec<char>, Vec<char>)>)
    ensures
        match res {
            Some(kv) => line_entry(l@) == Some((kv.0@, kv.1@)),
            None => line_entry(l@) is None,
        },
{
    let t = trim_chars(l);
    if t.len() == 0 || t[0] == '#' {
        return None;
    }
    let mut w: Vec<char> = Vec::new();
    w.push('e');
    w.push('x');
    w.push('p');
    w.push('o');
    w.push('r');
    w.push('t');
    w.push(' ');
    assert(w@ =~= export_word());
    assert(t@.skip(0) =~= t@);
    let u = if starts_with_at(&t, 0, &w) {
        copy_range(&t, 7, t.len())
    } else {
        t
    };
    let i = find_char_exec(&u, '=');
    if i >= u.len() {
        return None;
    }
    let key_part = copy_range(&u, 0, i);
    let key = trim_chars(&key_part);
    let raw = copy_range(&u, i + 1, u.len());
    let value = sourced_value_chars(&raw);
    assert(key_part@ =~= u@.take(i as int));
    assert(raw@ =~= u@.skip(i + 1));
    Some((key, value))
}

fn chars_eq(a: &Vec<char>, b: &Vec<char>) -> (res: bool)
    ensures
        res == (a@ == b@),
{
    if a.len() != b.len() {
        return false;
    }
    let mut i: usize = 0;
    while i < a.len()
        invariant
            a.len() == b.len(),
            i <= a.len(),
            forall|j: int| 0 <= j < i ==> a@[j] == b@[j],
        decreases a.len() - i,
    {
        if a[i] != b[i] {
            return false;
        }
        i = i + 1;
    }
    assert(a@ =~= b@);
    true
}

/// The keys of `v`, each at most once.
pub open spec fn distinct_keys(v: Seq<(Seq<char>, Seq<char>)>) -> bool {
    forall|i: int, j: int| 0 <= i < j < v.len() ==> v[i].0 != v[j].0
}

/// `v` holds exactly the entries of `m`, each key once.
pub open spec fn lists_map(v: Seq<(Seq<char>, Seq<char>)>, m: Map<Seq<char>, Seq<char>>) -> bool {
    &&& distinct_keys(v)
    &&& forall|i: int|
        0 <= i < v.len() ==> m.contains_key(#[trigger] v[i].0) && m[v[i].0] == v[i].1
    &&& forall|k: Seq<char>| m.contains_key(k) ==> exists|i: int| 0 <= i < v.len() && #[trigger] v[i].0 == k
}

/// The views of a list of string pairs.
pub open spec fn pair_views(v: Seq<(String, String)>) -> Seq<(Seq<char>, Seq<char>)> {
    v.map_values(|kv: (String, String)| (kv.0@, kv.1@))
}

spec fn char_pair_views(v: Seq<(Vec<char>, Vec<char>)>) -> Seq<(Seq<char>, Seq<char>)> {
    v.map_values(|kv: (Vec<char>, Vec<char>)| (kv.0@, kv.1@))
}

/// Reads every variable that the environment file `content` assigns, the
/// way a shell that sources it would see them: each key once, with the value
/// of the last line that assigns it.
pub fn load_openclaw_env_vars(content: &str) -> (res: Vec<(String, String)>)
    ensures
        lists_map(pair_views(res@), env_vars(content@)),
{
    let cs = chars_of(content);
    let ls = split_lines(&cs);
    let ghost all = views(ls@);
    let mut out: Vec<(Vec<char>, Vec<char>)> = Vec::new();
    let ghost mut m: Map<Seq<char>, Seq<char>> = Map::empty();
    let mut i: usize = 0;
    assert(all.take(0) =~= Seq::<Seq<char>>::empty());
    while i < ls.len()
        invariant
            i <= ls.len(),
            all == views(ls@),
            all == lines(content@),
            m == entries_map(all.take(i as int)),
            lists_map(char_pair_views(out@), m),
        decreases ls.len() - i,
    {
        assert(all.take(i + 1).drop_last() =~= all.take(i as int));
        assert(all.take(i + 1).last() == ls@[i as int]@);
        match line_entry_exec(&ls[i]) {
            None => {},
            Some((k, v)) => {
                let ghost old_out = char_pair_views(out@);
                let mut j: usize = 0;
                while j < out.len() && !chars_eq(&out[j].0, &k)
                    invariant
                        j <= out.len(),
                        old_out == char_pair_views(out@),
                        forall|q: int| 0 <= q < j ==> out@[q].0@ != k@,
                    decreases out.len() - j,
                {
                    j = j + 1;
                }
                let found = j < out.len();
                let ghost old_m = m;
                proof {
                    m = m.insert(k@, v@);
                }
                if found {
                    let kk = copy_range(&k, 0, k.len());
                    let ghost before_set = out@;
                    out.set(j, (kk, v));
                    assert forall|q: int| 0 <= q < out@.len() && q != j implies out@[q] == before_set[q] by {}
                    let ghost nv = char_pair_views(out@);
                    assert(nv.len() == old_out.len());
                    assert(nv[j as int] == (k@, v@));
                    assert(m[k@] == v@);
                    assert(nv =~= old_out.update(j as int, (k@, m[k@])));
                    assert(old_out[j as int].0 == k@);
                    assert forall|a: int, b: int| 0 <= a < b < nv.len() implies nv[a].0 != nv[b].0 by {
                        assert(nv[a].0 == old_out[a].0);
                        assert(nv[b].0 == old_out[b].0);
                    }
                    assert forall|q: int| 0 <= q < nv.len() implies m.contains_key(#[trigger] nv[q].0)
                        && m[nv[q].0] == nv[q].1 by {
                        if q != j {
                            assert(old_m.contains_key(old_out[q].0));
                            if q < j {
                                assert(old_out[q].0 != old_out[j as int].0);
                            } else {
                                assert(old_out[j as int].0 != old_out[q].0);
                            }
                        }
                    }
                    assert forall|k2: Seq<char>| m.contains_key(k2) implies exists|q: int|
                        0 <= q < nv.len() && #[trigger] nv[q].0 == k2 by {
                        if k2 != k@ {
                            let q = choose|q: int| 0 <= q < old_out.len() && #[trigger] old_out[q].0 == k2;
                            assert(nv[q].0 == k2);
                        } else {
                            assert(nv[j as int].0 == k2);
                        }
                    }
                } else {
                    out.push((k, v));
                    let ghost nv = char_pair_views(out@);
                    assert(nv =~= old_out.push((k@, m[k@])));
                    assert forall|a: int, b: int| 0 <= a < b < nv.len() implies nv[a].0 != nv[b].0 by {
                        if b == old_out.len() {
                            assert(nv[a].0 == out@[a].0@);
                        }
                    }
                    assert forall|q: int| 0 <= q < nv.len() implies m.contains_key(#[trigger] nv[q].0)
                        && m[nv[q].0] == nv[q].1 by {
                        if q < old_out.len() {
                            assert(old_m.contains_key(old_out[q].0));
                            assert(nv[q].0 == out@[q].0@);
                        }
                    }
                    assert forall|k2: Seq<char>| m.contains_key(k2) implies exists|q: int|
                        0 <= q < nv.len() && #[trigger] nv[q].0 == k2 by {
                        if k2 != k@ {
                            let q = choose|q: int| 0 <= q < old_out.len() && #[trigger] old_out[q].0 == k2;
                            assert(nv[q].0 == k2);
                        } else {
                            assert(nv[old_out.len() as int].0 == k2);
                        }
                    }
                }
            },
        }
        i = i + 1;
    }
    assert(all.take(ls.len() as int) =~= all);
    let mut res: Vec<(String, String)> = Vec::new();
    let mut n: usize = 0;
    while n < out.len()
        invariant
            n <= out.len(),
            pair_views(res@) == char_pair_views(out@).take(n as int),
        decreases out.len() - n,
    {
        let ks = string_of(&out[n].0);
        let vs = string_of(&out[n].1);
        let ghost before = pair_views(res@);
        res.push((ks, vs));
        assert(pair_views(res@) =~= before.push(char_pair_views(out@)[n as int]));
        assert(char_pair_views(out@).take(n + 1) =~= char_pair_views(out@).take(n as int).push(
            char_pair_views(out@)[n as int],
        ));
        n = n + 1;
    }
    assert(char_pair_views(out@).take(out.len() as int) =~= char_pair_views(out@));
    res
}

} // verus!
