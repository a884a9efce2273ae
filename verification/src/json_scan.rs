//! A small, lenient scanner for the JSON shapes that `cargo metadata` and the
//! suggestion database use: quoted strings, bracketed groups, string arrays
//! and arrays of objects, found by key.
//!
//! The scanner does not validate JSON. A key is found by the first textual
//! occurrence of its quoted name, and a value is the first group of the
//! wanted kind that follows.
use vstd::prelude::*;

use crate::text::{
    chars_of, find_char_exec, find_char_from, find_from, find_from_exec, lemma_find_char_from,
    lemma_find_from, skip_ws, skip_ws_exec, string_of_all, sub_chars, views,
};

verus! {

/// The character that an escape `\c` stands for.
pub open spec fn unescape(c: char) -> char {
    if c == 'n' {
        '\n'
    } else if c == 't' {
        '\t'
    } else if c == 'r' {
        '\r'
    } else {
        c
    }
}

/// Decodes a string body starting at `i` (just after the opening quote):
/// the decoded text and the position after the closing quote.
pub open spec fn string_body(s: Seq<char>, i: int, acc: Seq<char>, escaped: bool) -> Option<
    (Seq<char>, int),
>
    decreases s.len() - i,
{
    if i < 0 || i >= s.len() {
        None
    } else if escaped {
        string_body(s, i + 1, acc.push(unescape(s[i])), false)
    } else if s[i] == '\\' {
        string_body(s, i + 1, acc, true)
    } else if s[i] == '"' {
        Some((acc, i + 1))
    } else {
        string_body(s, i + 1, acc.push(s[i]), false)
    }
}

/// The first quoted string at or after `i`: its decoded text and the position
/// after its closing quote.
pub open spec fn json_string_at(s: Seq<char>, i: int) -> Option<(Seq<char>, int)> {
    match find_char_from(s, '"', i) {
        None => None,
        Some(q) => string_body(s, q + 1, Seq::empty(), false),
    }
}

/// Scans a bracketed group: the position just after the bracket that closes
/// the group, skipping brackets inside quoted strings.
pub open spec fn group_end(
    s: Seq<char>,
    i: int,
    open: char,
    close: char,
    depth: nat,
    in_string: bool,
    escaped: bool,
) -> Option<int>
    decreases s.len() - i,
{
    if i < 0 || i >= s.len() {
        None
    } else if in_string {
        if escaped {
            group_end(s, i + 1, open, close, depth, true, false)
        } else if s[i] == '\\' {
            group_end(s, i + 1, open, close, depth, true, true)
        } else if s[i] == '"' {
            group_end(s, i + 1, open, close, depth, false, false)
        } else {
            group_end(s, i + 1, open, close, depth, true, false)
        }
    } else if s[i] == '"' {
        group_end(s, i + 1, open, close, depth, true, escaped)
    } else if s[i] == open {
        group_end(s, i + 1, open, close, depth + 1, false, escaped)
    } else if s[i] == close {
        let d: nat = if depth == 0 {
            0
        } else {
            (depth - 1) as nat
        };
        if d == 0 {
            Some(i + 1)
        } else {
            group_end(s, i + 1, open, close, d, false, escaped)
        }
    } else {
        group_end(s, i + 1, open, close, depth, false, escaped)
    }
}

/// The first group opened by `open` at or after `i`, with its brackets, and
/// the position after it.
pub open spec fn bracketed_at(s: Seq<char>, i: int, open: char, close: char) -> Option<
    (Seq<char>, int),
> {
    match find_char_from(s, open, i) {
        None => None,
        Some(st) => match group_end(s, st, open, close, 0, false, false) {
            None => None,
            Some(e) => Some((s.subrange(st, e), e)),
        },
    }
}

/// All quoted strings from position `i` on, decoded, in order.
pub open spec fn string_items(s: Seq<char>, i: int) -> Seq<Seq<char>>
    decreases s.len() - i,
{
    match json_string_at(s, i) {
        None => Seq::empty(),
        Some((v, e)) => if i < e <= s.len() {
            seq![v] + string_items(s, e)
        } else {
            Seq::empty()
        },
    }
}

/// All `{...}` groups from position `i` on, in order.
pub open spec fn object_items(s: Seq<char>, i: int) -> Seq<Seq<char>>
    decreases s.len() - i,
{
    match bracketed_at(s, i, '{', '}') {
        None => Seq::empty(),
        Some((v, e)) => if i < e <= s.len() {
            seq![v] + object_items(s, e)
        } else {
            Seq::empty()
        },
    }
}

pub proof fn lemma_string_body_end(s: Seq<char>, i: int, acc: Seq<char>, escaped: bool)
    ensures
        string_body(s, i, acc, escaped) matches Some((_, e)) ==> i < e <= s.len(),
    decreases s.len() - i,
{
    if 0 <= i < s.len() {
        if escaped {
            lemma_string_body_end(s, i + 1, acc.push(unescape(s[i])), false);
        } else if s[i] == '\\' {
            lemma_string_body_end(s, i + 1, acc, true);
        } else if s[i] == '"' {
        } else {
            lemma_string_body_end(s, i + 1, acc.push(s[i]), false);
        }
    }
}

pub proof fn lemma_json_string_end(s: Seq<char>, i: int)
    requires
        0 <= i,
    ensures
        json_string_at(s, i) matches Some((_, e)) ==> i < e <= s.len(),
{
    lemma_find_char_from(s, '"', i);
    if let Some(q) = find_char_from(s, '"', i) {
        lemma_string_body_end(s, q + 1, Seq::empty(), false);
    }
}

pub proof fn lemma_group_end(
    s: Seq<char>,
    i: int,
    open: char,
    close: char,
    depth: nat,
    in_string: bool,
    escaped: bool,
)
    ensures
        group_end(s, i, open, close, depth, in_string, escaped) matches Some(e) ==> i < e <= s.len(),
    decreases s.len() - i,
{
    if 0 <= i < s.len() {
        let d: nat = if depth == 0 {
            0
        } else {
            (depth - 1) as nat
        };
        lemma_group_end(s, i + 1, open, close, depth, true, false);
        lemma_group_end(s, i + 1, open, close, depth, true, true);
        lemma_group_end(s, i + 1, open, close, depth, false, false);
        lemma_group_end(s, i + 1, open, close, depth, true, escaped);
        lemma_group_end(s, i + 1, open, close, depth + 1, false, escaped);
        lemma_group_end(s, i + 1, open, close, d, false, escaped);
        lemma_group_end(s, i + 1, open, close, depth, false, escaped);
    }
}

pub proof fn lemma_bracketed_end(s: Seq<char>, i: int, open: char, close: char)
    requires
        0 <= i,
    ensures
        bracketed_at(s, i, open, close) matches Some((v, e)) ==> i < e <= s.len() && exists|
            st: int,
        | i <= st < e && v == s.subrange(st, e),
{
    lemma_find_char_from(s, open, i);
    if let Some(st) = find_char_from(s, open, i) {
        lemma_group_end(s, st, open, close, 0, false, false);
        if let Some(e) = group_end(s, st, open, close, 0, false, false) {
            assert(i <= st < e && s.subrange(st, e) == s.subrange(st, e));
        }
    }
}

/// The views of a vector of character vectors.
pub open spec fn char_views(v: Seq<Vec<char>>) -> Seq<Seq<char>> {
    v.map_values(|x: Vec<char>| x@)
}

/// Decodes the string body that starts at `i`.
pub fn string_body_exec(s: &Vec<char>, i: usize) -> (r: Option<(Vec<char>, usize)>)
    ensures
        r matches Some((v, e)) ==> string_body(s@, i as int, Seq::empty(), false) == Some(
            (v@, e as int),
        ),
        r is None ==> string_body(s@, i as int, Seq::empty(), false) is None,
{
    let mut acc: Vec<char> = Vec::new();
    let mut escaped = false;
    let mut j = i;
    while j < s.len()
        invariant
            i <= j,
            string_body(s@, j as int, acc@, escaped) == string_body(
                s@,
                i as int,
                Seq::empty(),
                false,
            ),
        decreases s.len() - j,
    {
        let c = s[j];
        if escaped {
            let u = if c == 'n' {
                '\n'
            } else if c == 't' {
                '\t'
            } else if c == 'r' {
                '\r'
            } else {
                c
            };
            acc.push(u);
            escaped = false;
        } else if c == '\\' {
            escaped = true;
        } else if c == '"' {
            return Some((acc, j + 1));
        } else {
            acc.push(c);
        }
        j = j + 1;
    }
    None
}

/// `parse_json_string` on the text from `i`: the first quoted string.
pub fn json_string_exec(s: &Vec<char>, i: usize) -> (r: Option<(Vec<char>, usize)>)
    ensures
        r matches Some((v, e)) ==> json_string_at(s@, i as int) == Some((v@, e as int)),
        r is None ==> json_string_at(s@, i as int) is None,
{
    match find_char_exec(s, '"', i) {
        None => None,
        Some(q) => string_body_exec(s, q + 1),
    }
}

/// The end of the group whose opening bracket stands at `st`.
fn group_end_exec(s: &Vec<char>, st: usize, open: char, close: char) -> (r: Option<usize>)
    ensures
        r matches Some(e) ==> group_end(s@, st as int, open, close, 0, false, false) == Some(
            e as int,
        ),
        r is None ==> group_end(s@, st as int, open, close, 0, false, false) is None,
{
    let mut depth: usize = 0;
    let mut in_string = false;
    let mut escaped = false;
    let mut j = st;
    while j < s.len()
        invariant
            st <= j,
            depth <= j - st,
            group_end(s@, j as int, open, close, depth as nat, in_string, escaped) == group_end(
                s@,
                st as int,
                open,
                close,
                0,
                false,
                false,
            ),
        decreases s.len() - j,
    {
        let c = s[j];
        if in_string {
            if escaped {
                escaped = false;
            } else if c == '\\' {
                escaped = true;
            } else if c == '"' {
                in_string = false;
            }
        } else if c == '"' {
            in_string = true;
        } else if c == open {
            depth = depth + 1;
        } else if c == close {
            depth = if depth == 0 {
                0
            } else {
                depth - 1
            };
            if depth == 0 {
                return Some(j + 1);
            }
        }
        j = j + 1;
    }
    None
}

/// The first group opened by `open` at or after `i`.
pub fn bracketed_exec(s: &Vec<char>, i: usize, open: char, close: char) -> (r: Option<
    (Vec<char>, usize),
>)
    ensures
        r matches Some((v, e)) ==> bracketed_at(s@, i as int, open, close) == Some(
            (v@, e as int),
        ),
        r is None ==> bracketed_at(s@, i as int, open, close) is None,
{
    match find_char_exec(s, open, i) {
        None => None,
        Some(st) => match group_end_exec(s, st, open, close) {
            None => None,
            Some(e) => {
                proof {
                    lemma_group_end(s@, st as int, open, close, 0, false, false);
                }
                Some((sub_chars(s, st, e), e))
            },
        },
    }
}

/// All quoted strings from `i` on, decoded.
pub fn string_items_exec(s: &Vec<char>, i: usize) -> (r: Vec<String>)
    ensures
        views(r@) == string_items(s@, i as int),
{
    let mut out: Vec<String> = Vec::new();
    let mut p = i;
    loop
        invariant
            views(out@) + string_items(s@, p as int) == string_items(s@, i as int),
        decreases s.len() + 1 - p,
    {
        proof {
            lemma_json_string_end(s@, p as int);
        }
        match json_string_exec(s, p) {
            None => {
                assert(views(out@) =~= views(out@) + string_items(s@, p as int));
                return out;
            },
            Some((v, e)) => {
                let item = string_of_all(&v);
                let ghost before = views(out@);
                proof {
                    assert(string_items(s@, p as int) == seq![v@] + string_items(s@, e as int));
                }
                out.push(item);
                proof {
                    assert(views(out@) =~= before.push(v@));
                    assert(before.push(v@) + string_items(s@, e as int) =~= before + (seq![v@]
                        + string_items(s@, e as int)));
                }
                p = e;
            },
        }
    }
}

/// All `{...}` groups from `i` on.
pub fn object_items_exec(s: &Vec<char>, i: usize) -> (r: Vec<Vec<char>>)
    ensures
        char_views(r@) == object_items(s@, i as int),
{
    let mut out: Vec<Vec<char>> = Vec::new();
    let mut p = i;
    loop
        invariant
            char_views(out@) + object_items(s@, p as int) == object_items(s@, i as int),
        decreases s.len() + 1 - p,
    {
        proof {
            lemma_bracketed_end(s@, p as int, '{', '}');
        }
        match bracketed_exec(s, p, '{', '}') {
            None => {
                assert(char_views(out@) =~= char_views(out@) + object_items(s@, p as int));
                return out;
            },
            Some((v, e)) => {
                let ghost before = char_views(out@);
                proof {
                    assert(object_items(s@, p as int) == seq![v@] + object_items(s@, e as int));
                }
                out.push(v);
                proof {
                    assert(char_views(out@) =~= before.push(out@.last()@));
                    assert(before.push(out@.last()@) + object_items(s@, e as int) =~= before + (
                    seq![out@.last()@] + object_items(s@, e as int)));
                }
                p = e;
            },
        }
    }
}

/// `"key"`: the key in quotes.
pub open spec fn quoted(key: Seq<char>) -> Seq<char> {
    seq!['"'] + key + seq!['"']
}

/// The position after `"key"`, any white space and a colon.
pub open spec fn value_after_key(s: Seq<char>, key: Seq<char>) -> Option<int> {
    match find_from(s, quoted(key), 0) {
        None => None,
        Some(i) => {
            let j = skip_ws(s, i + quoted(key).len());
            if 0 <= j < s.len() && s[j] == ':' {
                Some(j + 1)
            } else {
                None
            }
        },
    }
}

/// The string value of `key`.
pub open spec fn field(s: Seq<char>, key: Seq<char>) -> Option<Seq<char>> {
    match value_after_key(s, key) {
        None => None,
        Some(p) => match json_string_at(s, p) {
            None => None,
            Some((v, _)) => Some(v),
        },
    }
}

/// The `[...]` group after `key`, with its brackets.
pub open spec fn raw_array_field(s: Seq<char>, key: Seq<char>) -> Option<Seq<char>> {
    match value_after_key(s, key) {
        None => None,
        Some(p) => match bracketed_at(s, p, '[', ']') {
            None => None,
            Some((v, _)) => Some(v),
        },
    }
}

/// The strings of the array after `key`.
pub open spec fn array_field(s: Seq<char>, key: Seq<char>) -> Option<Seq<Seq<char>>> {
    match raw_array_field(s, key) {
        None => None,
        Some(a) => Some(string_items(a, 0)),
    }
}

/// The `{...}` group after `key`, with its braces.
pub open spec fn object_field(s: Seq<char>, key: Seq<char>) -> Option<Seq<char>> {
    match value_after_key(s, key) {
        None => None,
        Some(p) => match bracketed_at(s, p, '{', '}') {
            None => None,
            Some((v, _)) => Some(v),
        },
    }
}

/// The objects of the array after `key`.
pub open spec fn array_objects(s: Seq<char>, key: Seq<char>) -> Seq<Seq<char>> {
    match raw_array_field(s, key) {
        None => Seq::empty(),
        Some(a) => object_items(a, 0),
    }
}

/// `"key"` as characters.
fn quoted_exec(key: &str) -> (r: Vec<char>)
    ensures
        r@ == quoted(key@),
{
    let k = chars_of(key);
    let mut r: Vec<char> = Vec::new();
    r.push('"');
    let mut i: usize = 0;
    while i < k.len()
        invariant
            i <= k.len(),
            r@ == seq!['"'] + k@.take(i as int),
        decreases k.len() - i,
    {
        r.push(k[i]);
        i = i + 1;
        assert(r@ =~= seq!['"'] + k@.take(i as int));
    }
    r.push('"');
    assert(k@.take(k.len() as int) =~= k@);
    assert(r@ =~= quoted(key@));
    r
}

/// The position after `"key"`, white space and a colon.
pub fn value_after_key_exec(s: &Vec<char>, key: &str) -> (r: Option<usize>)
    ensures
        r matches Some(p) ==> value_after_key(s@, key@) == Some(p as int) && p <= s.len(),
        r is None ==> value_after_key(s@, key@) is None,
{
    let pat = quoted_exec(key);
    match find_from_exec(s, &pat, 0) {
        None => None,
        Some(i) => {
            proof {
                lemma_find_from(s@, pat@, 0);
            }
            let j = skip_ws_exec(s, i + pat.len());
            if j < s.len() && s[j] == ':' {
                Some(j + 1)
            } else {
                None
            }
        },
    }
}

/// The string value of `key`.
pub fn field_exec(s: &Vec<char>, key: &str) -> (r: Option<String>)
    ensures
        r matches Some(v) ==> field(s@, key@) == Some(v@),
        r is None ==> field(s@, key@) is None,
{
    let p = value_after_key_exec(s, key)?;
    let (v, _) = json_string_exec(s, p)?;
    Some(string_of_all(&v))
}

/// The `[...]` group after `key`.
pub fn raw_array_field_exec(s: &Vec<char>, key: &str) -> (r: Option<Vec<char>>)
    ensures
        r matches Some(v) ==> raw_array_field(s@, key@) == Some(v@),
        r is None ==> raw_array_field(s@, key@) is None,
{
    let p = value_after_key_exec(s, key)?;
    let (v, _) = bracketed_exec(s, p, '[', ']')?;
    Some(v)
}

/// The strings of the array after `key`.
pub fn array_field_exec(s: &Vec<char>, key: &str) -> (r: Option<Vec<String>>)
    ensures
        r matches Some(v) ==> array_field(s@, key@) == Some(views(v@)),
        r is None ==> array_field(s@, key@) is None,
{
    let a = raw_array_field_exec(s, key)?;
    Some(string_items_exec(&a, 0))
}

/// The `{...}` group after `key`.
pub fn object_field_exec(s: &Vec<char>, key: &str) -> (r: Option<Vec<char>>)
    ensures
        r matches Some(v) ==> object_field(s@, key@) == Some(v@),
        r is None ==> object_field(s@, key@) is None,
{
    let p = value_after_key_exec(s, key)?;
    let (v, _) = bracketed_exec(s, p, '{', '}')?;
    Some(v)
}

/// The objects of the array after `key`.
pub fn array_objects_exec(s: &Vec<char>, key: &str) -> (r: Vec<Vec<char>>)
    ensures
        char_views(r@) == array_objects(s@, key@),
{
    match raw_array_field_exec(s, key) {
        None => {
            assert(char_views(Seq::<Vec<char>>::empty()) =~= Seq::<Seq<char>>::empty());
            Vec::new()
        },
        Some(a) => object_items_exec(&a, 0),
    }
}

} // verus!
