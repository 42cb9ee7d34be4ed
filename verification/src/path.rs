//! Unix paths held as strings, and the parts of `std::path` the tool uses:
//! components, joining, equality, prefixes, final names, ordering and
//! parents.
use vstd::prelude::*;

use crate::text::{chars_of, push_char, push_chars};

verus! {

/// The text of the root component.
pub open spec fn root_text() -> Seq<char> {
    seq!['/']
}

/// The text of the current-directory component.
pub open spec fn cur_text() -> Seq<char> {
    seq!['.']
}

/// The text of the parent-directory component.
pub open spec fn parent_text() -> Seq<char> {
    seq!['.', '.']
}

/// Whether a separated piece of a path stands for no component.
pub open spec fn is_skipped_piece(piece: Seq<char>) -> bool {
    piece.len() == 0 || piece == cur_text()
}

/// `done`, with `piece` appended when it names a component.
pub open spec fn keep_piece(done: Seq<Seq<char>>, piece: Seq<char>) -> Seq<Seq<char>> {
    if is_skipped_piece(piece) {
        done
    } else {
        done.push(piece)
    }
}

/// Reading `s` left to right: the components completed so far and the piece
/// after the last separator.
pub open spec fn scan_pieces(s: Seq<char>) -> (Seq<Seq<char>>, Seq<char>)
    decreases s.len(),
{
    if s.len() == 0 {
        (seq![], seq![])
    } else {
        let (done, cur) = scan_pieces(s.drop_last());
        if s.last() == '/' {
            (keep_piece(done, cur), seq![])
        } else {
            (done, cur.push(s.last()))
        }
    }
}

/// The components of a path body: the pieces between separators, without
/// empty pieces and `.`.
pub open spec fn body_components(s: Seq<char>) -> Seq<Seq<char>> {
    keep_piece(scan_pieces(s).0, scan_pieces(s).1)
}

/// Whether a relative path begins with a current-directory component.
pub open spec fn starts_with_cur_dir(s: Seq<char>) -> bool {
    s == cur_text() || (s.len() >= 2 && s[0] == '.' && s[1] == '/')
}

/// The components of a Unix path, each written as its text: `/` for the
/// root, `.` for a leading current directory, `..` for a parent directory,
/// and the name otherwise. Repeated separators, a trailing separator and
/// `.` after the start are ignored, as `Path::components` documents.
pub open spec fn path_components(s: Seq<char>) -> Seq<Seq<char>> {
    if s.len() > 0 && s[0] == '/' {
        seq![root_text()] + body_components(s.drop_first())
    } else if starts_with_cur_dir(s) {
        seq![cur_text()] + body_components(s.drop_first())
    } else {
        body_components(s)
    }
}

/// Whether a component is a name (neither root, `.` nor `..`).
pub open spec fn is_normal(c: Seq<char>) -> bool {
    c != root_text() && c != cur_text() && c != parent_text()
}

/// Path equality: the same components.
pub open spec fn path_eq(a: Seq<char>, b: Seq<char>) -> bool {
    path_components(a) == path_components(b)
}

/// Whether `base`'s components are a prefix of `p`'s.
pub open spec fn path_starts_with(p: Seq<char>, base: Seq<char>) -> bool {
    let pc = path_components(p);
    let bc = path_components(base);
    bc.len() <= pc.len() && pc.subrange(0, bc.len() as int) == bc
}

/// The final component of `p`, when it is a name.
pub open spec fn path_file_name(p: Seq<char>) -> Option<Seq<char>> {
    let c = path_components(p);
    if c.len() > 0 && is_normal(c.last()) {
        Some(c.last())
    } else {
        None
    }
}

/// `base` joined with `rest`: `rest` alone when it is absolute, otherwise
/// `rest` after `base` with a separator between them when `base` is not empty
/// and does not already end in one.
pub open spec fn path_join(base: Seq<char>, rest: Seq<char>) -> Seq<char> {
    if rest.len() > 0 && rest[0] == '/' {
        rest
    } else if base.len() > 0 && base.last() != '/' {
        base.push('/') + rest
    } else {
        base + rest
    }
}

/// Code-point order on character sequences, the order of `str`.
pub open spec fn chars_lt(a: Seq<char>, b: Seq<char>) -> bool
    decreases a.len(),
{
    if a.len() == 0 {
        b.len() > 0
    } else if b.len() == 0 {
        false
    } else if a[0] != b[0] {
        a[0] < b[0]
    } else {
        chars_lt(a.drop_first(), b.drop_first())
    }
}

/// The rank of a component kind: root, then `.`, then `..`, then names.
pub open spec fn component_rank(c: Seq<char>) -> int {
    if c == root_text() {
        0
    } else if c == cur_text() {
        1
    } else if c == parent_text() {
        2
    } else {
        3
    }
}

/// Component order: by kind, then names by code points.
pub open spec fn component_lt(a: Seq<char>, b: Seq<char>) -> bool {
    component_rank(a) < component_rank(b) || (component_rank(a) == 3 && component_rank(b) == 3
        && chars_lt(a, b))
}

/// Lexicographic order on component sequences.
pub open spec fn components_lt(a: Seq<Seq<char>>, b: Seq<Seq<char>>) -> bool
    decreases a.len(),
{
    if a.len() == 0 {
        b.len() > 0
    } else if b.len() == 0 {
        false
    } else if a[0] != b[0] {
        component_lt(a[0], b[0])
    } else {
        components_lt(a.drop_first(), b.drop_first())
    }
}

/// Path order: by components.
pub open spec fn path_lt(a: Seq<char>, b: Seq<char>) -> bool {
    components_lt(path_components(a), path_components(b))
}

/// What `Path::parent` returns for the path `p`: the path without its final
/// component, as a slice of `p`.
pub uninterp spec fn parent_text_of(p: Seq<char>) -> Seq<char>;

/// Whether `p` has a parent: its final component exists and is not the root.
pub open spec fn has_parent(p: Seq<char>) -> bool {
    let c = path_components(p);
    c.len() > 0 && c.last() != root_text()
}

// ---------------------------------------------------------------------------
// Properties of the orders.

pub proof fn lemma_chars_lt_irreflexive(a: Seq<char>)
    ensures
        !chars_lt(a, a),
    decreases a.len(),
{
    if a.len() > 0 {
        lemma_chars_lt_irreflexive(a.drop_first());
    }
}

pub proof fn lemma_chars_lt_trans(a: Seq<char>, b: Seq<char>, c: Seq<char>)
    requires
        chars_lt(a, b),
        chars_lt(b, c),
    ensures
        chars_lt(a, c),
    decreases a.len(),
{
    if a.len() > 0 && b.len() > 0 && c.len() > 0 {
        if a[0] == b[0] && b[0] == c[0] {
            lemma_chars_lt_trans(a.drop_first(), b.drop_first(), c.drop_first());
        }
    }
}

pub proof fn lemma_chars_lt_total(a: Seq<char>, b: Seq<char>)
    ensures
        a == b || chars_lt(a, b) || chars_lt(b, a),
    decreases a.len(),
{
    if a.len() > 0 && b.len() > 0 && a[0] == b[0] {
        lemma_chars_lt_total(a.drop_first(), b.drop_first());
        if a.drop_first() == b.drop_first() {
            assert(a == seq![a[0]] + a.drop_first());
            assert(b == seq![b[0]] + b.drop_first());
        }
    } else if a.len() == 0 && b.len() == 0 {
        assert(a == b);
    }
}

pub proof fn lemma_chars_lt_asym(a: Seq<char>, b: Seq<char>)
    requires
        chars_lt(a, b),
    ensures
        !chars_lt(b, a),
{
    if chars_lt(b, a) {
        lemma_chars_lt_trans(a, b, a);
        lemma_chars_lt_irreflexive(a);
    }
}

pub proof fn lemma_component_lt_irreflexive(a: Seq<char>)
    ensures
        !component_lt(a, a),
{
    lemma_chars_lt_irreflexive(a);
}

pub proof fn lemma_component_lt_trans(a: Seq<char>, b: Seq<char>, c: Seq<char>)
    requires
        component_lt(a, b),
        component_lt(b, c),
    ensures
        component_lt(a, c),
{
    if component_rank(a) == 3 && component_rank(b) == 3 && component_rank(c) == 3 {
        lemma_chars_lt_trans(a, b, c);
    }
}

pub proof fn lemma_component_lt_total(a: Seq<char>, b: Seq<char>)
    ensures
        a == b || component_lt(a, b) || component_lt(b, a),
{
    lemma_chars_lt_total(a, b);
}

pub proof fn lemma_components_lt_irreflexive(a: Seq<Seq<char>>)
    ensures
        !components_lt(a, a),
    decreases a.len(),
{
    if a.len() > 0 {
        lemma_components_lt_irreflexive(a.drop_first());
    }
}

pub proof fn lemma_components_lt_trans(a: Seq<Seq<char>>, b: Seq<Seq<char>>, c: Seq<Seq<char>>)
    requires
        components_lt(a, b),
        components_lt(b, c),
    ensures
        components_lt(a, c),
    decreases a.len(),
{
    if a.len() > 0 && b.len() > 0 && c.len() > 0 {
        if a[0] == b[0] && b[0] == c[0] {
            lemma_components_lt_trans(a.drop_first(), b.drop_first(), c.drop_first());
        } else if a[0] != b[0] && b[0] != c[0] && a[0] != c[0] {
            lemma_component_lt_trans(a[0], b[0], c[0]);
        } else if a[0] != b[0] && b[0] != c[0] {
            lemma_component_lt_trans(a[0], b[0], c[0]);
            lemma_component_lt_irreflexive(a[0]);
        }
    }
}

pub proof fn lemma_components_lt_total(a: Seq<Seq<char>>, b: Seq<Seq<char>>)
    ensures
        a == b || components_lt(a, b) || components_lt(b, a),
    decreases a.len(),
{
    if a.len() > 0 && b.len() > 0 && a[0] == b[0] {
        lemma_components_lt_total(a.drop_first(), b.drop_first());
        if a.drop_first() == b.drop_first() {
            assert(a == seq![a[0]] + a.drop_first());
            assert(b == seq![b[0]] + b.drop_first());
        }
    } else if a.len() > 0 && b.len() > 0 {
        lemma_component_lt_total(a[0], b[0]);
    } else if a.len() == 0 && b.len() == 0 {
        assert(a == b);
    }
}

/// Path order is a strict order on paths up to path equality.
pub proof fn lemma_path_lt_order(a: Seq<char>, b: Seq<char>, c: Seq<char>)
    ensures
        !path_lt(a, a),
        path_lt(a, b) && path_lt(b, c) ==> path_lt(a, c),
        path_eq(a, b) || path_lt(a, b) || path_lt(b, a),
        path_lt(a, b) ==> !path_lt(b, a),
{
    lemma_components_lt_irreflexive(path_components(a));
    if path_lt(a, b) && path_lt(b, c) {
        lemma_components_lt_trans(path_components(a), path_components(b), path_components(c));
    }
    lemma_components_lt_total(path_components(a), path_components(b));
    if path_lt(a, b) && path_lt(b, a) {
        lemma_components_lt_trans(path_components(a), path_components(b), path_components(a));
    }
}

pub proof fn lemma_chars_lt_order(a: Seq<char>, b: Seq<char>, c: Seq<char>)
    ensures
        !chars_lt(a, a),
        chars_lt(a, b) && chars_lt(b, c) ==> chars_lt(a, c),
        a == b || chars_lt(a, b) || chars_lt(b, a),
        chars_lt(a, b) ==> !chars_lt(b, a),
{
    lemma_chars_lt_irreflexive(a);
    if chars_lt(a, b) && chars_lt(b, c) {
        lemma_chars_lt_trans(a, b, c);
    }
    lemma_chars_lt_total(a, b);
    if chars_lt(a, b) {
        lemma_chars_lt_asym(a, b);
    }
}

// ---------------------------------------------------------------------------
// The final component of a joined path.

/// Whether `w` is a single name: not empty, free of separators, and neither
/// `.` nor `..`.
pub open spec fn is_plain_name(w: Seq<char>) -> bool {
    w.len() > 0 && !crate::text::has_char(w, '/') && w != cur_text() && w != parent_text()
}

proof fn lemma_scan_ends_with_name(x: Seq<char>, w: Seq<char>)
    requires
        x.len() == 0 || x.last() == '/',
        !crate::text::has_char(w, '/'),
    ensures
        scan_pieces(x + w).1 == w,
    decreases w.len(),
{
    if w.len() == 0 {
        assert(x + w == x);
    } else {
        let wd = w.drop_last();
        assert(!crate::text::has_char(wd, '/')) by {
            if crate::text::has_char(wd, '/') {
                let i = choose|i: int| 0 <= i < wd.len() && wd[i] == '/';
                assert(w[i] == '/');
            }
        }
        lemma_scan_ends_with_name(x, wd);
        assert((x + w).drop_last() == x + wd);
        assert((x + w).last() == w.last());
        assert(w.last() != '/') by {
            assert(w[w.len() - 1] == w.last());
        }
        assert(wd.push(w.last()) == w);
    }
}

proof fn lemma_body_ends_with_name(x: Seq<char>, w: Seq<char>)
    requires
        x.len() == 0 || x.last() == '/',
        is_plain_name(w),
    ensures
        body_components(x + w).len() > 0,
        body_components(x + w).last() == w,
{
    lemma_scan_ends_with_name(x, w);
}

/// Joining a plain name to any path gives a path whose final name is that
/// name: `path_join(base, w)` names `w`.
pub proof fn lemma_join_file_name(base: Seq<char>, w: Seq<char>)
    requires
        is_plain_name(w),
    ensures
        path_file_name(path_join(base, w)) == Some(w),
{
    assert(w[0] != '/') by {
        if w[0] == '/' {
            assert(crate::text::has_char(w, '/'));
        }
    }
    let x = if base.len() > 0 && base.last() != '/' {
        base.push('/')
    } else {
        base
    };
    assert(path_join(base, w) == x + w);
    let s = x + w;
    if s[0] == '/' {
        assert(x.len() > 0);
        assert(s.drop_first() == x.drop_first() + w);
        lemma_body_ends_with_name(x.drop_first(), w);
        let c = path_components(s);
        assert(c == seq![root_text()] + body_components(s.drop_first()));
        assert(c.last() == w);
    } else if starts_with_cur_dir(s) {
        if x.len() == 0 {
            assert(s == w);
            if w == cur_text() {
            } else {
                assert(w[1] == '/');
                assert(crate::text::has_char(w, '/'));
            }
        }
        assert(x.len() > 0);
        assert(s.drop_first() == x.drop_first() + w);
        lemma_body_ends_with_name(x.drop_first(), w);
        let c = path_components(s);
        assert(c == seq![cur_text()] + body_components(s.drop_first()));
        assert(c.last() == w);
    } else {
        lemma_body_ends_with_name(x, w);
    }
    assert(w != root_text()) by {
        if w == root_text() {
            assert(w[0] == '/');
        }
    }
}

// ---------------------------------------------------------------------------
// Executable path operations.

/// `done` with `piece` kept when it names a component.
fn keep(done: &mut Vec<Vec<char>>, piece: Vec<char>)
    ensures
        final(done)@.map_values(|p: Vec<char>| p@) == keep_piece(
            old(done)@.map_values(|p: Vec<char>| p@),
            piece@,
        ),
{
    let skipped = piece.len() == 0 || (piece.len() == 1 && piece[0] == '.');
    proof {
        if piece@ == cur_text() {
            assert(piece@.len() == 1 && piece@[0] == '.');
        }
        if piece@.len() == 1 && piece@[0] == '.' {
            assert(piece@ == cur_text());
        }
    }
    let ghost before = done@;
    if !skipped {
        done.push(piece);
        assert(done@.map_values(|p: Vec<char>| p@) == before.map_values(|p: Vec<char>| p@).push(
            piece@,
        ));
    }
}

/// The components of a path body.
fn body_parts(v: &[char], lo: usize) -> (r: Vec<Vec<char>>)
    requires
        lo <= v@.len(),
    ensures
        r@.map_values(|p: Vec<char>| p@) == body_components(v@.subrange(lo as int, v@.len() as int)),
{
    let mut done: Vec<Vec<char>> = Vec::new();
    let mut cur: Vec<char> = Vec::new();
    let mut i = lo;
    while i < v.len()
        invariant
            lo <= i <= v@.len(),
            scan_pieces(v@.subrange(lo as int, i as int)) == (
                done@.map_values(|p: Vec<char>| p@),
                cur@,
            ),
        decreases v@.len() - i,
    {
        let c = v[i];
        proof {
            let t = v@.subrange(lo as int, i + 1);
            assert(t.drop_last() == v@.subrange(lo as int, i as int));
            assert(t.last() == c);
        }
        if c == '/' {
            let piece = cur;
            keep(&mut done, piece);
            cur = Vec::new();
        } else {
            cur.push(c);
        }
        i = i + 1;
    }
    keep(&mut done, cur);
    done
}

/// The components of a path, each written as its text.
pub fn components(p: &str) -> (r: Vec<Vec<char>>)
    ensures
        r@.map_values(|c: Vec<char>| c@) == path_components(p@),
{
    let v = chars_of(p);
    let n = v.len();
    if n > 0 && v[0] == '/' {
        let body = body_parts(v.as_slice(), 1);
        let mut r: Vec<Vec<char>> = Vec::new();
        let head: Vec<char> = vec!['/'];
        assert(head@ == root_text());
        r.push(head);
        let ghost first = r@.map_values(|c: Vec<char>| c@);
        assert(first =~= seq![root_text()]);
        let mut body = body;
        let ghost bv = body@.map_values(|c: Vec<char>| c@);
        r.append(&mut body);
        assert(r@.map_values(|c: Vec<char>| c@) == first + bv);
        assert(v@.subrange(1, n as int) == v@.drop_first());
        r
    } else if (n == 1 && v[0] == '.') || (n >= 2 && v[0] == '.' && v[1] == '/') {
        let body = body_parts(v.as_slice(), 1);
        let mut r: Vec<Vec<char>> = Vec::new();
        let head: Vec<char> = vec!['.'];
        assert(head@ == cur_text());
        r.push(head);
        let ghost first = r@.map_values(|c: Vec<char>| c@);
        assert(first =~= seq![cur_text()]);
        proof {
            if n == 1 {
                assert(v@ == cur_text());
            }
        }
        let mut body = body;
        let ghost bv = body@.map_values(|c: Vec<char>| c@);
        r.append(&mut body);
        assert(r@.map_values(|c: Vec<char>| c@) == first + bv);
        assert(v@.subrange(1, n as int) == v@.drop_first());
        r
    } else {
        proof {
            if v@ == cur_text() {
                assert(v@.len() == 1 && v@[0] == '.');
            }
        }
        let r = body_parts(v.as_slice(), 0);
        assert(v@.subrange(0, n as int) == v@);
        r
    }
}

/// Whether two component lists are equal.
fn components_eq(a: &Vec<Vec<char>>, b: &Vec<Vec<char>>) -> (r: bool)
    ensures
        r == (a@.map_values(|c: Vec<char>| c@) == b@.map_values(|c: Vec<char>| c@)),
{
    let ghost av = a@.map_values(|c: Vec<char>| c@);
    let ghost bv = b@.map_values(|c: Vec<char>| c@);
    if a.len() != b.len() {
        assert(av.len() != bv.len());
        return false;
    }
    let mut i: usize = 0;
    while i < a.len()
        invariant
            a@.len() == b@.len(),
            av == a@.map_values(|c: Vec<char>| c@),
            bv == b@.map_values(|c: Vec<char>| c@),
            i <= a@.len(),
            forall|j: int| 0 <= j < i ==> av[j] == bv[j],
        decreases a@.len() - i,
    {
        if !crate::text::chars_eq(a[i].as_slice(), b[i].as_slice()) {
            assert(av[i as int] != bv[i as int]);
            return false;
        }
        i = i + 1;
    }
    assert(av == bv);
    true
}

/// Path equality, as `PartialEq for Path` compares components.
pub fn paths_equal(a: &str, b: &str) -> (r: bool)
    ensures
        r == path_eq(a@, b@),
{
    let ca = components(a);
    let cb = components(b);
    components_eq(&ca, &cb)
}

/// Whether `p` lies at or below `base`, comparing whole components.
pub fn starts_with(p: &str, base: &str) -> (r: bool)
    ensures
        r == path_starts_with(p@, base@),
{
    let pc = components(p);
    let bc = components(base);
    let ghost pv = pc@.map_values(|c: Vec<char>| c@);
    let ghost bv = bc@.map_values(|c: Vec<char>| c@);
    assert(pv.len() == pc@.len() && bv.len() == bc@.len());
    if bc.len() > pc.len() {
        return false;
    }
    let mut i: usize = 0;
    while i < bc.len()
        invariant
            bc@.len() <= pc@.len(),
            pv == pc@.map_values(|c: Vec<char>| c@),
            bv == bc@.map_values(|c: Vec<char>| c@),
            pv == path_components(p@),
            bv == path_components(base@),
            i <= bc@.len(),
            forall|j: int| 0 <= j < i ==> pv[j] == bv[j],
        decreases bc@.len() - i,
    {
        assert(pv[i as int] == pc@[i as int]@ && bv[i as int] == bc@[i as int]@);
        if !crate::text::chars_eq(pc[i].as_slice(), bc[i].as_slice()) {
            assert(pv.subrange(0, bv.len() as int)[i as int] != bv[i as int]);
            return false;
        }
        i = i + 1;
    }
    assert(pv.subrange(0, bv.len() as int) == bv);
    true
}

/// The final component of `p`, when it is a name.
pub fn file_name(p: &str) -> (r: Option<Vec<char>>)
    ensures
        r matches Some(n) ==> path_file_name(p@) == Some(n@),
        r is None ==> path_file_name(p@) is None,
{
    let mut c = components(p);
    let ghost cv = c@.map_values(|x: Vec<char>| x@);
    let n = c.len();
    if n == 0 {
        return None;
    }
    let last = c.pop().unwrap();
    assert(last@ == cv.last());
    let is_root = last.len() == 1 && last[0] == '/';
    let is_cur = last.len() == 1 && last[0] == '.';
    let is_parent = last.len() == 2 && last[0] == '.' && last[1] == '.';
    proof {
        if last@ == root_text() {
            assert(is_root);
        }
        if last@ == cur_text() {
            assert(is_cur);
        }
        if last@ == parent_text() {
            assert(is_parent);
        }
        if is_root {
            assert(last@ == root_text());
        }
        if is_cur {
            assert(last@ == cur_text());
        }
        if is_parent {
            assert(last@ == parent_text());
        }
    }
    if is_root || is_cur || is_parent {
        None
    } else {
        Some(last)
    }
}

/// `base` joined with `rest`, as `Path::join` does on Unix.
pub fn join(base: &str, rest: &str) -> (r: String)
    ensures
        r@ == path_join(base@, rest@),
{
    let b = chars_of(base);
    let t = chars_of(rest);
    let mut r = String::new();
    if t.len() > 0 && t[0] == '/' {
        push_chars(&mut r, t.as_slice());
        return r;
    }
    push_chars(&mut r, b.as_slice());
    if b.len() > 0 && b[b.len() - 1] != '/' {
        push_char(&mut r, '/');
    }
    push_chars(&mut r, t.as_slice());
    r
}

/// Code-point comparison of two character sequences.
pub fn chars_less(a: &[char], b: &[char]) -> (r: bool)
    ensures
        r == chars_lt(a@, b@),
{
    let mut i: usize = 0;
    assert(a@.subrange(0, a@.len() as int) == a@);
    assert(b@.subrange(0, b@.len() as int) == b@);
    while i < a.len() && i < b.len() && a[i] == b[i]
        invariant
            i <= a@.len(),
            i <= b@.len(),
            forall|j: int| 0 <= j < i ==> a@[j] == b@[j],
            chars_lt(a@, b@) == chars_lt(
                a@.subrange(i as int, a@.len() as int),
                b@.subrange(i as int, b@.len() as int),
            ),
        decreases a@.len() - i,
    {
        proof {
            let sa = a@.subrange(i as int, a@.len() as int);
            let sb = b@.subrange(i as int, b@.len() as int);
            assert(sa.drop_first() == a@.subrange(i + 1, a@.len() as int));
            assert(sb.drop_first() == b@.subrange(i + 1, b@.len() as int));
        }
        i = i + 1;
    }
    proof {
        assert(a@.subrange(0, a@.len() as int) == a@);
        assert(b@.subrange(0, b@.len() as int) == b@);
    }
    if i == a.len() {
        i < b.len()
    } else if i == b.len() {
        false
    } else {
        a[i] < b[i]
    }
}

/// The rank of a component written as text.
fn rank(c: &[char]) -> (r: u8)
    ensures
        r as int == component_rank(c@),
{
    let is_root = c.len() == 1 && c[0] == '/';
    let is_cur = c.len() == 1 && c[0] == '.';
    let is_parent = c.len() == 2 && c[0] == '.' && c[1] == '.';
    proof {
        if c@ == root_text() {
            assert(is_root);
        }
        if c@ == cur_text() {
            assert(is_cur);
        }
        if c@ == parent_text() {
            assert(is_parent);
        }
        if is_root {
            assert(c@ == root_text());
        }
        if is_cur {
            assert(c@ == cur_text());
        }
        if is_parent {
            assert(c@ == parent_text());
        }
    }
    if is_root {
        0
    } else if is_cur {
        1
    } else if is_parent {
        2
    } else {
        3
    }
}

/// Whether component `a` orders before component `b`.
fn component_less(a: &[char], b: &[char]) -> (r: bool)
    ensures
        r == component_lt(a@, b@),
{
    let ra = rank(a);
    let rb = rank(b);
    ra < rb || (ra == 3 && rb == 3 && chars_less(a, b))
}

/// Whether path `a` orders before path `b`, as `Ord for Path` compares
/// components.
pub fn path_less(a: &str, b: &str) -> (r: bool)
    ensures
        r == path_lt(a@, b@),
{
    let ca = components(a);
    let cb = components(b);
    let ghost av = ca@.map_values(|c: Vec<char>| c@);
    let ghost bv = cb@.map_values(|c: Vec<char>| c@);
    let mut i: usize = 0;
    assert(av.subrange(0, av.len() as int) == av);
    assert(bv.subrange(0, bv.len() as int) == bv);
    while i < ca.len() && i < cb.len() && crate::text::chars_eq(ca[i].as_slice(), cb[i].as_slice())
        invariant
            av == ca@.map_values(|c: Vec<char>| c@),
            bv == cb@.map_values(|c: Vec<char>| c@),
            i <= av.len(),
            i <= bv.len(),
            components_lt(av, bv) == components_lt(
                av.subrange(i as int, av.len() as int),
                bv.subrange(i as int, bv.len() as int),
            ),
        decreases av.len() - i,
    {
        proof {
            let sa = av.subrange(i as int, av.len() as int);
            let sb = bv.subrange(i as int, bv.len() as int);
            assert(sa.drop_first() == av.subrange(i + 1, av.len() as int));
            assert(sb.drop_first() == bv.subrange(i + 1, bv.len() as int));
        }
        i = i + 1;
    }
    proof {
        assert(av.subrange(0, av.len() as int) == av);
        assert(bv.subrange(0, bv.len() as int) == bv);
    }
    if i == ca.len() {
        i < cb.len()
    } else if i == cb.len() {
        false
    } else {
        component_less(ca[i].as_slice(), cb[i].as_slice())
    }
}

/// `Path::parent`: the path without its final component, or `None` when the
/// path ends in the root or is empty. The text returned is named
/// `parent_text_of`; the contract also states, from the documentation of
/// `Path::parent` and `Components::as_path`, that a parent exists exactly
/// when the final component is not the root, and that its components are
/// those of the path less the last.
#[verifier::external_body]
pub(crate) fn parent(p: &str) -> (r: Option<String>)
    ensures
        r is Some <==> has_parent(p@),
        r matches Some(q) ==> q@ == parent_text_of(p@),
        r matches Some(q) ==> path_components(q@) == path_components(p@).drop_last(),
{
    match std::path::Path::new(p).parent() {
        Some(q) => Some(q.to_string_lossy().into_owned()),
        None => None,
    }
}

/// Whether a path is absolute: on Unix, whether it starts at the root.
pub open spec fn path_is_absolute(p: Seq<char>) -> bool {
    p.len() > 0 && p[0] == '/'
}

/// Whether a path is absolute.
pub fn is_absolute(p: &str) -> (r: bool)
    ensures
        r == path_is_absolute(p@),
{
    let v = chars_of(p);
    v.len() > 0 && v[0] == '/'
}

} // verus!
