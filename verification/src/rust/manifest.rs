//! Reading Cargo manifests and `cargo metadata` output as text.
use vstd::prelude::*;

use crate::text::{
    chars_eq_str, chars_of, chars_start_with, has_prefix, skip_ws_forward, string_of, sub_chars,
    trim, trim_start, trimmed,
};

verus! {

/// Reading `s` left to right: the pieces completed at each `sep` and the
/// piece after the last `sep`.
pub open spec fn split_scan(s: Seq<char>, sep: char) -> (Seq<Seq<char>>, Seq<char>)
    decreases s.len(),
{
    if s.len() == 0 {
        (seq![], seq![])
    } else {
        let (done, cur) = split_scan(s.drop_last(), sep);
        if s.last() == sep {
            (done.push(cur), seq![])
        } else {
            (done, cur.push(s.last()))
        }
    }
}

/// The pieces of `s` between occurrences of `sep` (one more than there are
/// separators).
pub open spec fn split_char(s: Seq<char>, sep: char) -> Seq<Seq<char>> {
    split_scan(s, sep).0.push(split_scan(s, sep).1)
}

/// The lines of a text: the pieces between newlines. A carriage return
/// before a newline stays in its line; every use trims it away as
/// whitespace.
pub open spec fn text_lines(s: Seq<char>) -> Seq<Seq<char>> {
    split_char(s, '\n')
}

/// Whether some line of a manifest, trimmed, is `[workspace]`.
pub open spec fn is_workspace_text(contents: Seq<char>) -> bool {
    exists|i: int|
        0 <= i < text_lines(contents).len() && trim(#[trigger] text_lines(contents)[i])
            == "[workspace]"@
}

/// The index of the first `c` in `s`.
pub open spec fn first_index_of(s: Seq<char>, c: char) -> Option<int>
    decreases s.len(),
{
    if s.len() == 0 {
        None
    } else if s[0] == c {
        Some(0)
    } else {
        match first_index_of(s.drop_first(), c) {
            Some(i) => Some(i + 1),
            None => None,
        }
    }
}

/// `s` without leading `c`s.
pub open spec fn trim_char_start(s: Seq<char>, c: char) -> Seq<char>
    decreases s.len(),
{
    if s.len() > 0 && s[0] == c {
        trim_char_start(s.drop_first(), c)
    } else {
        s
    }
}

/// `s` without trailing `c`s.
pub open spec fn trim_char_end(s: Seq<char>, c: char) -> Seq<char>
    decreases s.len(),
{
    if s.len() > 0 && s.last() == c {
        trim_char_end(s.drop_last(), c)
    } else {
        s
    }
}

/// `s` without leading and trailing `c`s, as `trim_matches(c)`.
pub open spec fn trim_char(s: Seq<char>, c: char) -> Seq<char> {
    trim_char_end(trim_char_start(s, c), c)
}

/// Whether a trimmed manifest line is a section header `[...]`.
pub open spec fn is_section_header(line: Seq<char>) -> bool {
    line.len() > 0 && line[0] == '[' && line.last() == ']'
}

/// The value of `rest` in a line `name<rest>`: after the first `=`, trimmed
/// of whitespace and of quotes, when that is not empty.
pub open spec fn name_value(rest: Seq<char>) -> Option<Seq<char>> {
    match first_index_of(rest, '=') {
        None => None,
        Some(k) => {
            let v = trim_char(trim(rest.subrange(k + 1, rest.len() as int)), '"');
            if v.len() > 0 {
                Some(v)
            } else {
                None
            }
        },
    }
}

/// The package name found in lines `i..` of a manifest, `in_package` telling
/// whether the last section header seen was `[package]`.
pub open spec fn package_name_from(lines: Seq<Seq<char>>, i: int, in_package: bool) -> Option<
    Seq<char>,
>
    decreases lines.len() - i,
{
    if i < 0 || i >= lines.len() {
        None
    } else {
        let line = trim(lines[i]);
        if is_section_header(line) {
            package_name_from(lines, i + 1, line == "[package]"@)
        } else if in_package && has_prefix(line, "name"@) && name_value(
            line.subrange(4, line.len() as int),
        ) is Some {
            name_value(line.subrange(4, line.len() as int))
        } else {
            package_name_from(lines, i + 1, in_package)
        }
    }
}

/// The package name of a manifest: the first non-empty value of a line
/// starting with `name` and holding `=`, inside the `[package]` section.
pub open spec fn package_name_spec(contents: Seq<char>) -> Option<Seq<char>> {
    package_name_from(text_lines(contents), 0, false)
}

/// The first index from `i` on where `m` occurs in `s`.
pub open spec fn find_from(s: Seq<char>, m: Seq<char>, i: int) -> Option<int>
    decreases s.len() + 1 - i,
{
    if i < 0 || i + m.len() > s.len() {
        None
    } else if s.subrange(i, i + m.len()) == m {
        Some(i)
    } else {
        find_from(s, m, i + 1)
    }
}

/// The character a JSON escape `\e` stands for (`\u` is not handled).
pub open spec fn unescape(e: char) -> char {
    if e == 'b' {
        '\u{8}'
    } else if e == 'f' {
        '\u{c}'
    } else if e == 'n' {
        '\n'
    } else if e == 'r' {
        '\r'
    } else if e == 't' {
        '\t'
    } else {
        e
    }
}

/// The JSON string body `raw[i..]` decoded up to its closing quote, after
/// `acc`; `None` when the quote is missing or a `\u` escape occurs.
pub open spec fn decode_json(raw: Seq<char>, i: int, acc: Seq<char>) -> Option<Seq<char>>
    decreases raw.len() - i,
{
    if i < 0 || i >= raw.len() {
        None
    } else if raw[i] == '"' {
        Some(acc)
    } else if raw[i] == '\\' {
        if i + 1 >= raw.len() || raw[i + 1] == 'u' {
            None
        } else {
            decode_json(raw, i + 2, acc.push(unescape(raw[i + 1])))
        }
    } else {
        decode_json(raw, i + 1, acc.push(raw[i]))
    }
}

/// The string value of the first `"key"` in a JSON text: after the key,
/// optional whitespace, a colon, optional whitespace and an opening quote.
pub open spec fn extract_json_string_spec(input: Seq<char>, key: Seq<char>) -> Option<Seq<char>> {
    let marker = seq!['"'] + key + seq!['"'];
    match find_from(input, marker, 0) {
        None => None,
        Some(idx) => {
            let after_key = trim_start(input.subrange(idx + marker.len(), input.len() as int));
            if after_key.len() > 0 && after_key[0] == ':' {
                let after_colon = trim_start(after_key.drop_first());
                if after_colon.len() > 0 && after_colon[0] == '"' {
                    decode_json(after_colon.drop_first(), 0, seq![])
                } else {
                    None
                }
            } else {
                None
            }
        },
    }
}

/// The view of an optional string.
pub open spec fn opt_string_view(o: Option<String>) -> Option<Seq<char>> {
    match o {
        Some(s) => Some(s@),
        None => None,
    }
}

/// The views of a list of character vectors.
pub open spec fn char_vec_views(v: Seq<Vec<char>>) -> Seq<Seq<char>> {
    v.map_values(|x: Vec<char>| x@)
}

/// The pieces of `v` between occurrences of `sep`.
pub fn split_on(v: &[char], sep: char) -> (r: Vec<Vec<char>>)
    ensures
        char_vec_views(r@) == split_char(v@, sep),
{
    let mut done: Vec<Vec<char>> = Vec::new();
    let mut cur: Vec<char> = Vec::new();
    let mut i: usize = 0;
    assert(char_vec_views(done@) =~= Seq::<Seq<char>>::empty());
    assert(v@.subrange(0, 0) =~= Seq::<char>::empty());
    while i < v.len()
        invariant
            i <= v@.len(),
            split_scan(v@.subrange(0, i as int), sep) == (char_vec_views(done@), cur@),
        decreases v@.len() - i,
    {
        let c = v[i];
        proof {
            let t = v@.subrange(0, i + 1);
            assert(t.drop_last() == v@.subrange(0, i as int));
            assert(t.last() == c);
        }
        if c == sep {
            let ghost before = done@;
            let piece = cur;
            done.push(piece);
            assert(char_vec_views(done@) == char_vec_views(before).push(piece@));
            cur = Vec::new();
        } else {
            cur.push(c);
        }
        i = i + 1;
    }
    assert(v@.subrange(0, v@.len() as int) == v@);
    let ghost before = done@;
    let last = cur;
    done.push(last);
    assert(char_vec_views(done@) == char_vec_views(before).push(last@));
    done
}

/// Whether the manifest text declares a workspace: some line, trimmed, is
/// `[workspace]`.
pub fn is_workspace_manifest(contents: &str) -> (r: bool)
    ensures
        r == is_workspace_text(contents@),
{
    let v = chars_of(contents);
    let lines = split_on(v.as_slice(), '\n');
    let ghost ls = text_lines(contents@);
    let mut i: usize = 0;
    while i < lines.len()
        invariant
            ls == text_lines(contents@),
            ls == char_vec_views(lines@),
            i <= lines@.len(),
            forall|j: int| 0 <= j < i ==> trim(#[trigger] ls[j]) != "[workspace]"@,
        decreases lines@.len() - i,
    {
        let line = trimmed(lines[i].as_slice());
        assert(ls[i as int] == lines@[i as int]@);
        if chars_eq_str(line.as_slice(), "[workspace]") {
            return true;
        }
        i = i + 1;
    }
    false
}

/// The first index of `c` in `v`.
fn find_char(v: &[char], c: char) -> (r: Option<usize>)
    ensures
        match r {
            Some(k) => first_index_of(v@, c) == Some(k as int) && k < v@.len(),
            None => first_index_of(v@, c) is None,
        },
{
    let mut i: usize = 0;
    assert(v@.subrange(0, v@.len() as int) == v@);
    while i < v.len()
        invariant
            i <= v@.len(),
            forall|j: int| 0 <= j < i ==> v@[j] != c,
            first_index_of(v@, c) == match first_index_of(
                v@.subrange(i as int, v@.len() as int),
                c,
            ) {
                Some(k) => Some(k + i),
                None => None,
            },
        decreases v@.len() - i,
    {
        proof {
            let t = v@.subrange(i as int, v@.len() as int);
            assert(t.drop_first() == v@.subrange(i + 1, v@.len() as int));
        }
        if v[i] == c {
            return Some(i);
        }
        i = i + 1;
    }
    None
}

/// `v` without leading and trailing `c`s.
fn trimmed_char(v: &[char], c: char) -> (r: Vec<char>)
    ensures
        r@ == trim_char(v@, c),
{
    let n = v.len();
    let mut lo: usize = 0;
    assert(v@.subrange(0, n as int) == v@);
    while lo < n && v[lo] == c
        invariant
            lo <= n == v@.len(),
            trim_char_start(v@, c) == trim_char_start(v@.subrange(lo as int, n as int), c),
        decreases n - lo,
    {
        proof {
            let t = v@.subrange(lo as int, n as int);
            assert(t.drop_first() == v@.subrange(lo + 1, n as int));
        }
        lo = lo + 1;
    }
    let mut hi: usize = n;
    assert(trim_char_start(v@, c) == v@.subrange(lo as int, n as int));
    while hi > lo && v[hi - 1] == c
        invariant
            lo <= hi <= n == v@.len(),
            trim_char(v@, c) == trim_char_end(v@.subrange(lo as int, hi as int), c),
        decreases hi - lo,
    {
        proof {
            let t = v@.subrange(lo as int, hi as int);
            assert(t.drop_last() == v@.subrange(lo as int, hi - 1));
        }
        hi = hi - 1;
    }
    sub_chars(v, lo, hi)
}

/// The package name declared in a manifest's `[package]` section, as
/// `package_name_spec` describes it.
pub fn package_name(contents: &str) -> (r: Option<String>)
    ensures
        opt_string_view(r) == package_name_spec(contents@),
{
    let v = chars_of(contents);
    let lines = split_on(v.as_slice(), '\n');
    let ghost ls = text_lines(contents@);
    let name = chars_of("name");
    let mut in_package = false;
    let mut i: usize = 0;
    while i < lines.len()
        invariant
            ls == text_lines(contents@),
            ls == char_vec_views(lines@),
            i <= lines@.len(),
            name@ == "name"@,
            package_name_spec(contents@) == package_name_from(ls, i as int, in_package),
        decreases lines@.len() - i,
    {
        let line = trimmed(lines[i].as_slice());
        assert(ls[i as int] == lines@[i as int]@);
        let n = line.len();
        if n > 0 && line[0] == '[' && line[n - 1] == ']' {
            in_package = chars_eq_str(line.as_slice(), "[package]");
            i = i + 1;
        } else {
            if in_package && chars_start_with(line.as_slice(), name.as_slice()) {
                proof {
                    reveal_strlit("name");
                }
                let rest = sub_chars(line.as_slice(), 4, n);
                if let Some(k) = find_char(rest.as_slice(), '=') {
                    let after = sub_chars(rest.as_slice(), k + 1, rest.len());
                    let t = trimmed(after.as_slice());
                    let q = trimmed_char(t.as_slice(), '"');
                    if q.len() > 0 {
                        return Some(string_of(q.as_slice()));
                    }
                }
            }
            i = i + 1;
        }
    }
    None
}

/// Whether `m` occurs in `s` at index `i`.
fn occurs_at(s: &[char], m: &[char], i: usize) -> (r: bool)
    requires
        i + m@.len() <= s@.len(),
    ensures
        r == (s@.subrange(i as int, i + m@.len()) == m@),
{
    let mut j: usize = 0;
    let n = s.len();
    let k = m.len();
    while j < k
        invariant
            n == s@.len(),
            k == m@.len(),
            i + m@.len() <= s@.len(),
            j <= m@.len(),
            forall|k: int| 0 <= k < j ==> s@[i + k] == m@[k],
        decreases m@.len() - j,
    {
        assert(i + j < n);
        if s[i + j] != m[j] {
            assert(s@.subrange(i as int, i + m@.len())[j as int] != m@[j as int]);
            return false;
        }
        j = j + 1;
    }
    assert(s@.subrange(i as int, i + m@.len()) == m@);
    true
}

/// The first index of `m` in `s`.
fn find_seq(s: &[char], m: &[char]) -> (r: Option<usize>)
    ensures
        match r {
            Some(k) => find_from(s@, m@, 0) == Some(k as int) && k + m@.len() <= s@.len(),
            None => find_from(s@, m@, 0) is None,
        },
{
    if m.len() > s.len() {
        return None;
    }
    if m.len() == 0 {
        assert(s@.subrange(0, 0) == m@);
        return Some(0);
    }
    let mut i: usize = 0;
    while i <= s.len() - m.len()
        invariant
            m@.len() <= s@.len(),
            m@.len() >= 1,
            i <= s@.len() - m@.len() + 1,
            find_from(s@, m@, 0) == find_from(s@, m@, i as int),
        decreases s@.len() + 1 - i,
    {
        if occurs_at(s, m, i) {
            return Some(i);
        }
        i = i + 1;
    }
    None
}

/// The JSON string body `raw` decoded up to its closing quote.
fn decode(raw: &[char]) -> (r: Option<Vec<char>>)
    ensures
        match r {
            Some(v) => decode_json(raw@, 0, seq![]) == Some(v@),
            None => decode_json(raw@, 0, seq![]) is None,
        },
{
    let mut acc: Vec<char> = Vec::new();
    let mut i: usize = 0;
    while i < raw.len()
        invariant
            i <= raw@.len(),
            decode_json(raw@, 0, seq![]) == decode_json(raw@, i as int, acc@),
        decreases raw@.len() - i,
    {
        let ch = raw[i];
        if ch == '"' {
            return Some(acc);
        } else if ch == '\\' {
            if i + 1 >= raw.len() {
                return None;
            }
            let e = raw[i + 1];
            if e == 'u' {
                return None;
            }
            let u = if e == 'b' {
                '\u{8}'
            } else if e == 'f' {
                '\u{c}'
            } else if e == 'n' {
                '\n'
            } else if e == 'r' {
                '\r'
            } else if e == 't' {
                '\t'
            } else {
                e
            };
            acc.push(u);
            i = i + 2;
        } else {
            acc.push(ch);
            i = i + 1;
        }
    }
    None
}

/// The string value of the first `"key"` in a JSON text, as
/// `extract_json_string_spec` describes it.
pub fn extract_json_string(input: &str, key: &str) -> (r: Option<String>)
    ensures
        opt_string_view(r) == extract_json_string_spec(input@, key@),
{
    let s = chars_of(input);
    let n = s.len();
    let mut marker: Vec<char> = Vec::new();
    marker.push('"');
    let k = chars_of(key);
    let mut j: usize = 0;
    while j < k.len()
        invariant
            j <= k@.len(),
            marker@ == seq!['"'] + k@.subrange(0, j as int),
        decreases k@.len() - j,
    {
        marker.push(k[j]);
        j = j + 1;
        assert(k@.subrange(0, j as int) == k@.subrange(0, j - 1).push(k@[j - 1]));
    }
    marker.push('"');
    assert(k@.subrange(0, k@.len() as int) == k@);
    assert(marker@ == seq!['"'] + key@ + seq!['"']);
    let idx = match find_seq(s.as_slice(), marker.as_slice()) {
        Some(idx) => idx,
        None => return None,
    };
    let start = idx + marker.len();
    let a = skip_ws_forward(s.as_slice(), start, n);
    proof {
        crate::text::lemma_trim_start_range(s@, start as int, a as int, n as int);
    }
    if a >= n || s[a] != ':' {
        return None;
    }
    let b = skip_ws_forward(s.as_slice(), a + 1, n);
    proof {
        let after_key = s@.subrange(a as int, n as int);
        assert(after_key.drop_first() == s@.subrange(a + 1, n as int));
        crate::text::lemma_trim_start_range(s@, a + 1, b as int, n as int);
    }
    if b >= n || s[b] != '"' {
        return None;
    }
    let raw = sub_chars(s.as_slice(), b + 1, n);
    proof {
        assert(s@.subrange(b as int, n as int).drop_first() == s@.subrange(b + 1, n as int));
    }
    match decode(raw.as_slice()) {
        Some(v) => Some(string_of(v.as_slice())),
        None => None,
    }
}

} // verus!
