use vstd::prelude::*;

verus! {

/// Unicode `White_Space` characters, the set that `char::is_whitespace`
/// and the `trim` family of `str` recognise.
pub open spec fn is_whitespace(c: char) -> bool {
    ||| c == ' '
    ||| ('\t' <= c && c <= '\r')
    ||| c == '\u{85}'
    ||| c == '\u{a0}'
    ||| c == '\u{1680}'
    ||| ('\u{2000}' <= c && c <= '\u{200a}')
    ||| c == '\u{2028}'
    ||| c == '\u{2029}'
    ||| c == '\u{202f}'
    ||| c == '\u{205f}'
    ||| c == '\u{3000}'
}

/// `s` without its leading whitespace.
pub open spec fn trim_start(s: Seq<char>) -> Seq<char>
    decreases s.len(),
{
    if s.len() > 0 && is_whitespace(s[0]) {
        trim_start(s.drop_first())
    } else {
        s
    }
}

/// `s` without its trailing whitespace.
pub open spec fn trim_end(s: Seq<char>) -> Seq<char>
    decreases s.len(),
{
    if s.len() > 0 && is_whitespace(s.last()) {
        trim_end(s.drop_last())
    } else {
        s
    }
}

/// `s` without leading and trailing whitespace.
pub open spec fn trim(s: Seq<char>) -> Seq<char> {
    trim_end(trim_start(s))
}

/// `n` spaces.
pub open spec fn spaces(n: nat) -> Seq<char> {
    Seq::new(n, |i: int| ' ')
}

/// `s` right-aligned in a field of `width` characters.
pub open spec fn pad_left(s: Seq<char>, width: nat) -> Seq<char> {
    if s.len() < width {
        spaces((width - s.len()) as nat) + s
    } else {
        s
    }
}

/// `s` left-aligned in a field of `width` characters.
pub open spec fn pad_right(s: Seq<char>, width: nat) -> Seq<char> {
    if s.len() < width {
        s + spaces((width - s.len()) as nat)
    } else {
        s
    }
}

/// The character of the decimal digit `d`.
pub open spec fn digit_char(d: nat) -> char {
    if d == 0 { '0' }
    else if d == 1 { '1' }
    else if d == 2 { '2' }
    else if d == 3 { '3' }
    else if d == 4 { '4' }
    else if d == 5 { '5' }
    else if d == 6 { '6' }
    else if d == 7 { '7' }
    else if d == 8 { '8' }
    else { '9' }
}

/// The decimal representation of `n`, without leading zeros.
pub open spec fn decimal(n: nat) -> Seq<char>
    decreases n,
{
    if n < 10 {
        seq![digit_char(n)]
    } else {
        decimal(n / 10).push(digit_char(n % 10))
    }
}

/// Whether `p` is a prefix of `s`.
pub open spec fn has_prefix(s: Seq<char>, p: Seq<char>) -> bool {
    p.len() <= s.len() && s.subrange(0, p.len() as int) == p
}

/// Whether `s` contains the character `c`.
pub open spec fn has_char(s: Seq<char>, c: char) -> bool {
    exists|i: int| 0 <= i < s.len() && s[i] == c
}

/// Appends one character to a string.
#[verifier::external_body]
pub(crate) fn push_char(s: &mut String, c: char)
    ensures
        final(s)@ == old(s)@.push(c),
{
    s.push(c);
}

/// Appends a string slice to a string.
pub fn push_str(s: &mut String, t: &str)
    ensures
        final(s)@ == old(s)@ + t@,
{
    s.append(t);
}

/// Appends a sequence of characters to a string.
pub fn push_chars(s: &mut String, v: &[char])
    ensures
        final(s)@ == old(s)@ + v@,
{
    let ghost start = s@;
    let mut i: usize = 0;
    while i < v.len()
        invariant
            i <= v@.len(),
            s@ == start + v@.subrange(0, i as int),
        decreases v@.len() - i,
    {
        push_char(s, v[i]);
        i = i + 1;
        assert(v@.subrange(0, i as int) == v@.subrange(0, i - 1).push(v@[i - 1]));
    }
    assert(v@.subrange(0, v@.len() as int) == v@);
}

/// The characters of a string slice, in order.
pub fn chars_of(s: &str) -> (v: Vec<char>)
    ensures
        v@ == s@,
{
    let mut v: Vec<char> = Vec::new();
    for c in it: s.chars()
        invariant
            v@ == it.seq().take(it.index() as int),
    {
        v.push(c);
    }
    v
}

/// A string made of the given characters.
pub fn string_of(v: &[char]) -> (s: String)
    ensures
        s@ == v@,
{
    let mut s = String::new();
    push_chars(&mut s, v);
    s
}

/// A copy of a string slice as an owned string.
pub fn owned(t: &str) -> (s: String)
    ensures
        s@ == t@,
{
    let mut s = String::new();
    push_str(&mut s, t);
    s
}

/// The characters `v[lo..hi]`.
pub fn sub_chars(v: &[char], lo: usize, hi: usize) -> (r: Vec<char>)
    requires
        lo <= hi <= v@.len(),
    ensures
        r@ == v@.subrange(lo as int, hi as int),
{
    let mut r: Vec<char> = Vec::new();
    let mut i = lo;
    while i < hi
        invariant
            lo <= i <= hi <= v@.len(),
            r@ == v@.subrange(lo as int, i as int),
        decreases hi - i,
    {
        r.push(v[i]);
        i = i + 1;
        assert(v@.subrange(lo as int, i as int) == v@.subrange(lo as int, i - 1).push(v@[i - 1]));
    }
    r
}

/// Whether two character sequences are equal.
pub fn chars_eq(a: &[char], b: &[char]) -> (r: bool)
    ensures
        r == (a@ == b@),
{
    if a.len() != b.len() {
        return false;
    }
    let mut i: usize = 0;
    while i < a.len()
        invariant
            a@.len() == b@.len(),
            i <= a@.len(),
            forall|j: int| 0 <= j < i ==> a@[j] == b@[j],
        decreases a@.len() - i,
    {
        if a[i] != b[i] {
            return false;
        }
        i = i + 1;
    }
    assert(a@ == b@);
    true
}

/// Whether the characters `v` spell the string slice `t`.
pub fn chars_eq_str(v: &[char], t: &str) -> (r: bool)
    ensures
        r == (v@ == t@),
{
    let w = chars_of(t);
    chars_eq(v, w.as_slice())
}

/// Whether two string slices are equal.
pub fn str_eq(a: &str, b: &str) -> (r: bool)
    ensures
        r == (a@ == b@),
{
    let v = chars_of(a);
    chars_eq_str(v.as_slice(), b)
}

/// Whether `v` starts with the characters of `p`.
pub fn chars_start_with(v: &[char], p: &[char]) -> (r: bool)
    ensures
        r == has_prefix(v@, p@),
{
    if p.len() > v.len() {
        return false;
    }
    let mut i: usize = 0;
    while i < p.len()
        invariant
            p@.len() <= v@.len(),
            i <= p@.len(),
            forall|j: int| 0 <= j < i ==> v@[j] == p@[j],
        decreases p@.len() - i,
    {
        if v[i] != p[i] {
            assert(v@.subrange(0, p@.len() as int)[i as int] != p@[i as int]);
            return false;
        }
        i = i + 1;
    }
    assert(v@.subrange(0, p@.len() as int) == p@);
    true
}

/// Whether `c` is a whitespace character.
pub fn is_ws(c: char) -> (r: bool)
    ensures
        r == is_whitespace(c),
{
    c == ' ' || ('\t' <= c && c <= '\r') || c == '\u{85}' || c == '\u{a0}' || c == '\u{1680}'
        || ('\u{2000}' <= c && c <= '\u{200a}') || c == '\u{2028}' || c == '\u{2029}'
        || c == '\u{202f}' || c == '\u{205f}' || c == '\u{3000}'
}

/// Leading whitespace of `s` can be skipped one character at a time.
pub proof fn lemma_trim_start_skip(s: Seq<char>, i: int)
    requires
        0 <= i <= s.len(),
        forall|j: int| 0 <= j < i ==> is_whitespace(#[trigger] s[j]),
    ensures
        trim_start(s) == trim_start(s.subrange(i, s.len() as int)),
    decreases i,
{
    if i > 0 {
        lemma_trim_start_skip(s.drop_first(), i - 1);
        assert(s.drop_first().subrange(i - 1, s.drop_first().len() as int) == s.subrange(
            i,
            s.len() as int,
        ));
    } else {
        assert(s.subrange(0, s.len() as int) == s);
    }
}

/// Trailing whitespace of `s` can be dropped one character at a time.
pub proof fn lemma_trim_end_skip(s: Seq<char>, k: int)
    requires
        0 <= k <= s.len(),
        forall|j: int| k <= j < s.len() ==> is_whitespace(#[trigger] s[j]),
    ensures
        trim_end(s) == trim_end(s.subrange(0, k)),
    decreases s.len() - k,
{
    if k < s.len() {
        lemma_trim_end_skip(s.drop_last(), k);
        assert(s.drop_last().subrange(0, k) == s.subrange(0, k));
    } else {
        assert(s.subrange(0, k) == s);
    }
}

/// The index of the first non-whitespace character of `v[lo..hi]`, or `hi`.
pub fn skip_ws_forward(v: &[char], lo: usize, hi: usize) -> (i: usize)
    requires
        lo <= hi <= v@.len(),
    ensures
        lo <= i <= hi,
        forall|j: int| lo <= j < i ==> is_whitespace(#[trigger] v@[j]),
        i < hi ==> !is_whitespace(v@[i as int]),
{
    let mut i = lo;
    while i < hi && is_ws(v[i])
        invariant
            lo <= i <= hi <= v@.len(),
            forall|j: int| lo <= j < i ==> is_whitespace(#[trigger] v@[j]),
        decreases hi - i,
    {
        i = i + 1;
    }
    i
}

/// The end of `v[lo..hi]` once its trailing whitespace is dropped.
pub fn skip_ws_backward(v: &[char], lo: usize, hi: usize) -> (k: usize)
    requires
        lo <= hi <= v@.len(),
    ensures
        lo <= k <= hi,
        forall|j: int| k <= j < hi ==> is_whitespace(#[trigger] v@[j]),
        k > lo ==> !is_whitespace(v@[k - 1]),
{
    let mut k = hi;
    while k > lo && is_ws(v[k - 1])
        invariant
            lo <= k <= hi <= v@.len(),
            forall|j: int| k <= j < hi ==> is_whitespace(#[trigger] v@[j]),
        decreases k - lo,
    {
        k = k - 1;
    }
    k
}

/// `trim_start` of `v[lo..hi]` is `v[i..hi]` where `i` skips the whitespace.
pub proof fn lemma_trim_start_range(s: Seq<char>, lo: int, i: int, hi: int)
    requires
        0 <= lo <= i <= hi <= s.len(),
        forall|j: int| lo <= j < i ==> is_whitespace(#[trigger] s[j]),
        i < hi ==> !is_whitespace(s[i]),
    ensures
        trim_start(s.subrange(lo, hi)) == s.subrange(i, hi),
{
    let t = s.subrange(lo, hi);
    assert forall|j: int| 0 <= j < i - lo implies is_whitespace(#[trigger] t[j]) by {
        assert(t[j] == s[lo + j]);
    }
    lemma_trim_start_skip(t, i - lo);
    assert(t.subrange(i - lo, t.len() as int) == s.subrange(i, hi));
}

/// `trim_end` of `v[lo..hi]` is `v[lo..k]` where `k` drops the whitespace.
pub proof fn lemma_trim_end_range(s: Seq<char>, lo: int, k: int, hi: int)
    requires
        0 <= lo <= k <= hi <= s.len(),
        forall|j: int| k <= j < hi ==> is_whitespace(#[trigger] s[j]),
        k > lo ==> !is_whitespace(s[k - 1]),
    ensures
        trim_end(s.subrange(lo, hi)) == s.subrange(lo, k),
{
    let t = s.subrange(lo, hi);
    assert forall|j: int| k - lo <= j < t.len() implies is_whitespace(#[trigger] t[j]) by {
        assert(t[j] == s[lo + j]);
    }
    lemma_trim_end_skip(t, k - lo);
    assert(t.subrange(0, k - lo) == s.subrange(lo, k));
}

/// `v` without leading and trailing whitespace.
pub fn trimmed(v: &[char]) -> (r: Vec<char>)
    ensures
        r@ == trim(v@),
{
    let n = v.len();
    let i = skip_ws_forward(v, 0, n);
    let k = skip_ws_backward(v, i, n);
    proof {
        assert(v@.subrange(0, n as int) == v@);
        lemma_trim_start_range(v@, 0, i as int, n as int);
        lemma_trim_end_range(v@, i as int, k as int, n as int);
    }
    sub_chars(v, i, k)
}

/// The character of the decimal digit `d`.
pub fn digit(d: u8) -> (c: char)
    requires
        d < 10,
    ensures
        c == digit_char(d as nat),
{
    if d == 0 { '0' }
    else if d == 1 { '1' }
    else if d == 2 { '2' }
    else if d == 3 { '3' }
    else if d == 4 { '4' }
    else if d == 5 { '5' }
    else if d == 6 { '6' }
    else if d == 7 { '7' }
    else if d == 8 { '8' }
    else { '9' }
}

/// Appends the decimal representation of `n`.
pub fn push_decimal(s: &mut String, n: u128)
    ensures
        final(s)@ == old(s)@ + decimal(n as nat),
    decreases n,
{
    if n >= 10 {
        push_decimal(s, n / 10);
    }
    let d = (n % 10) as u8;
    push_char(s, digit(d));
    proof {
        if n >= 10 {
            assert(decimal(n as nat) == decimal((n / 10) as nat).push(digit_char((n % 10) as nat)));
        }
    }
}

/// The decimal representation of `n`.
pub fn decimal_string(n: u128) -> (s: String)
    ensures
        s@ == decimal(n as nat),
{
    let mut s = String::new();
    push_decimal(&mut s, n);
    s
}

/// Appends `n` spaces.
pub fn push_spaces(s: &mut String, n: usize)
    ensures
        final(s)@ == old(s)@ + spaces(n as nat),
{
    let ghost start = s@;
    let mut i: usize = 0;
    while i < n
        invariant
            i <= n,
            s@ == start + spaces(i as nat),
        decreases n - i,
    {
        push_char(s, ' ');
        i = i + 1;
        assert(spaces(i as nat) == spaces((i - 1) as nat).push(' '));
    }
}

/// Appends `t` right-aligned in a field of `width` characters.
pub fn push_padded_left(s: &mut String, t: &[char], width: usize)
    ensures
        final(s)@ == old(s)@ + pad_left(t@, width as nat),
{
    if t.len() < width {
        push_spaces(s, width - t.len());
    }
    push_chars(s, t);
    proof {
        if t@.len() >= width {
            assert(pad_left(t@, width as nat) == t@);
        }
    }
}

/// Appends `t` left-aligned in a field of `width` characters.
pub fn push_padded_right(s: &mut String, t: &[char], width: usize)
    ensures
        final(s)@ == old(s)@ + pad_right(t@, width as nat),
{
    push_chars(s, t);
    if t.len() < width {
        push_spaces(s, width - t.len());
    }
}


/// The parts joined with `sep` between consecutive parts.
pub open spec fn join_with(parts: Seq<Seq<char>>, sep: Seq<char>) -> Seq<char>
    decreases parts.len(),
{
    if parts.len() == 0 {
        seq![]
    } else if parts.len() == 1 {
        parts[0]
    } else {
        join_with(parts.drop_last(), sep) + sep + parts.last()
    }
}

/// The views of a sequence of strings.
pub open spec fn views(v: Seq<String>) -> Seq<Seq<char>> {
    v.map_values(|s: String| s@)
}

/// The strings of `parts` joined with `sep`, as `[String]::join` does.
pub fn join_strings(parts: &[String], sep: &str) -> (r: String)
    ensures
        r@ == join_with(views(parts@), sep@),
{
    let mut r = String::new();
    let mut i: usize = 0;
    while i < parts.len()
        invariant
            i <= parts@.len(),
            r@ == join_with(views(parts@.subrange(0, i as int)), sep@),
        decreases parts@.len() - i,
    {
        proof {
            let pre = views(parts@.subrange(0, i as int));
            let next = views(parts@.subrange(0, i + 1));
            assert(next.drop_last() == pre);
            assert(next.last() == parts@[i as int]@);
        }
        if i > 0 {
            push_str(&mut r, sep);
        }
        push_str(&mut r, parts[i].as_str());
        i = i + 1;
    }
    assert(parts@.subrange(0, parts@.len() as int) == parts@);
    r
}

} // verus!
