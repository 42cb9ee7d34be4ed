//! Git working-tree status: reading `git`'s NUL-separated output, merging
//! staged, unstaged and untracked paths, and the status report.
use vstd::prelude::*;

use crate::path::{file_name, path_file_name};
use crate::sort::{sort_strings, sorted_by_chars};
use crate::text::{
    chars_eq_str, chars_of, join_strings, join_with, owned, push_char, push_chars, push_str,
    skip_ws_backward, str_eq, string_of, sub_chars, trim, trim_end, trimmed, views,
};

verus! {

/// A repository with uncommitted changes and its status lines.
#[derive(Debug, Clone, PartialEq, Eq)]
pub struct RepositoryStatus {
    pub name: String,
    pub path: String,
    pub entries: Vec<String>,
}

/// What `String::from_utf8_lossy` makes of a byte string.
pub uninterp spec fn utf8_lossy(bytes: Seq<u8>) -> Seq<char>;

/// `String::from_utf8_lossy`: the text of `bytes`, with each invalid
/// sequence replaced by U+FFFD. The result is named `utf8_lossy`; the
/// contract also states, as the documentation does, that valid UTF-8 is
/// decoded unchanged.
#[verifier::external_body]
fn lossy_string(bytes: &[u8]) -> (r: String)
    ensures
        r@ == utf8_lossy(bytes@),
        vstd::utf8::valid_utf8(bytes@) ==> r@ == vstd::utf8::decode_utf8(bytes@),
{
    String::from_utf8_lossy(bytes).into_owned()
}

/// Reading `s` left to right: the non-empty records completed at each NUL
/// byte and the record in progress.
pub open spec fn nul_scan(s: Seq<u8>) -> (Seq<Seq<u8>>, Seq<u8>)
    decreases s.len(),
{
    if s.len() == 0 {
        (seq![], seq![])
    } else {
        let (done, cur) = nul_scan(s.drop_last());
        if s.last() == 0 {
            if cur.len() > 0 {
                (done.push(cur), seq![])
            } else {
                (done, seq![])
            }
        } else {
            (done, cur.push(s.last()))
        }
    }
}

/// The non-empty NUL-separated records of `s`.
pub open spec fn nul_byte_records(s: Seq<u8>) -> Seq<Seq<u8>> {
    let (done, cur) = nul_scan(s);
    if cur.len() > 0 {
        done.push(cur)
    } else {
        done
    }
}

/// The non-empty NUL-separated records of `s`, as text.
pub open spec fn nul_records_spec(s: Seq<u8>) -> Seq<Seq<char>> {
    nul_byte_records(s).map_values(|r: Seq<u8>| utf8_lossy(r))
}

/// `git diff --name-status -z` records from index `i` on: a status record
/// (whose first character is the status), one more path for renames and
/// copies, then the path; empty status records are skipped, empty paths
/// dropped, and a status without its path ends the list.
pub open spec fn name_status_from(recs: Seq<Seq<char>>, i: int) -> Seq<(char, Seq<char>)>
    decreases recs.len() - i,
{
    if i < 0 || i >= recs.len() {
        seq![]
    } else if recs[i].len() == 0 {
        name_status_from(recs, i + 1)
    } else {
        let status = recs[i][0];
        let j = if status == 'R' || status == 'C' {
            i + 2
        } else {
            i + 1
        };
        if j >= recs.len() {
            seq![]
        } else if recs[j].len() > 0 {
            seq![(status, recs[j])] + name_status_from(recs, j + 1)
        } else {
            name_status_from(recs, j + 1)
        }
    }
}

/// The (status, path) pairs of `git diff --name-status -z` output.
pub open spec fn name_status_spec(output: Seq<u8>) -> Seq<(char, Seq<char>)> {
    name_status_from(nul_records_spec(output), 0)
}

/// The first index of path `p` among the merged entries.
pub open spec fn find_path(m: Seq<(Seq<char>, char, char)>, p: Seq<char>) -> Option<int>
    decreases m.len(),
{
    if m.len() == 0 {
        None
    } else {
        match find_path(m.drop_last(), p) {
            Some(k) => Some(k),
            None => if m.last().0 == p {
                Some(m.len() - 1)
            } else {
                None
            },
        }
    }
}

/// `m` with `status` recorded for `path` in column `col` (0 for the index,
/// 1 for the working tree); a new path starts with two blanks.
pub open spec fn record_status(
    m: Seq<(Seq<char>, char, char)>,
    path: Seq<char>,
    status: char,
    col: int,
) -> Seq<(Seq<char>, char, char)> {
    match find_path(m, path) {
        Some(k) => if col == 0 {
            m.update(k, (path, status, m[k].2))
        } else {
            m.update(k, (path, m[k].1, status))
        },
        None => if col == 0 {
            m.push((path, status, ' '))
        } else {
            m.push((path, ' ', status))
        },
    }
}

/// `m` with all the pairs of `recs` recorded in column `col`, in order.
pub open spec fn record_all(
    m: Seq<(Seq<char>, char, char)>,
    recs: Seq<(char, Seq<char>)>,
    col: int,
) -> Seq<(Seq<char>, char, char)>
    decreases recs.len(),
{
    if recs.len() == 0 {
        m
    } else {
        record_status(record_all(m, recs.drop_last(), col), recs.last().1, recs.last().0, col)
    }
}

/// The status line of a tracked path: the index and working-tree columns,
/// a space and the path.
pub open spec fn tracked_line(e: (Seq<char>, char, char)) -> Seq<char> {
    seq![e.1, e.2, ' '] + e.0
}

/// The status line of an untracked path.
pub open spec fn untracked_line(p: Seq<char>) -> Seq<char> {
    "?? "@ + p
}

/// The status lines of a repository before sorting: one per tracked path
/// changed in the index or the working tree, then one per untracked path.
pub open spec fn status_lines(cached: Seq<u8>, worktree: Seq<u8>, untracked: Seq<u8>) -> Seq<
    Seq<char>,
> {
    let merged = record_all(record_all(seq![], name_status_spec(cached), 0), name_status_spec(worktree), 1);
    merged.map_values(|e: (Seq<char>, char, char)| tracked_line(e)) + nul_records_spec(
        untracked,
    ).map_values(|p: Seq<char>| untracked_line(p))
}

/// The non-empty NUL-separated records of `output`, as text.
pub fn nul_records(output: &[u8]) -> (r: Vec<String>)
    ensures
        views(r@) == nul_records_spec(output@),
{
    let mut done: Vec<Vec<u8>> = Vec::new();
    let mut cur: Vec<u8> = Vec::new();
    let mut i: usize = 0;
    assert(done@.map_values(|b: Vec<u8>| b@) =~= Seq::<Seq<u8>>::empty());
    assert(output@.subrange(0, 0) =~= Seq::<u8>::empty());
    while i < output.len()
        invariant
            i <= output@.len(),
            nul_scan(output@.subrange(0, i as int)) == (done@.map_values(|b: Vec<u8>| b@), cur@),
        decreases output@.len() - i,
    {
        let c = output[i];
        proof {
            let t = output@.subrange(0, i + 1);
            assert(t.drop_last() == output@.subrange(0, i as int));
            assert(t.last() == c);
        }
        if c == 0 {
            if cur.len() > 0 {
                let ghost before = done@;
                let w = cur;
                done.push(w);
                assert(done@.map_values(|b: Vec<u8>| b@) == before.map_values(|b: Vec<u8>| b@).push(
                    w@,
                ));
            }
            cur = Vec::new();
        } else {
            cur.push(c);
        }
        i = i + 1;
    }
    assert(output@.subrange(0, output@.len() as int) == output@);
    if cur.len() > 0 {
        let ghost before = done@;
        let w = cur;
        done.push(w);
        assert(done@.map_values(|b: Vec<u8>| b@) == before.map_values(|b: Vec<u8>| b@).push(w@));
    }
    let ghost recs = done@.map_values(|b: Vec<u8>| b@);
    assert(recs == nul_byte_records(output@));
    let mut r: Vec<String> = Vec::new();
    let mut k: usize = 0;
    while k < done.len()
        invariant
            k <= done@.len(),
            recs == done@.map_values(|b: Vec<u8>| b@),
            views(r@) == recs.subrange(0, k as int).map_values(|b: Seq<u8>| utf8_lossy(b)),
        decreases done@.len() - k,
    {
        let ghost before = r@;
        r.push(lossy_string(done[k].as_slice()));
        assert(recs[k as int] == done@[k as int]@);
        assert(recs.subrange(0, k + 1).map_values(|b: Seq<u8>| utf8_lossy(b)) == recs.subrange(
            0,
            k as int,
        ).map_values(|b: Seq<u8>| utf8_lossy(b)).push(utf8_lossy(recs[k as int])));
        assert(views(r@) == views(before).push(r@[k as int]@));
        k = k + 1;
    }
    assert(recs.subrange(0, recs.len() as int) == recs);
    r
}

/// The views of a list of (status, path) pairs.
pub open spec fn pair_views(v: Seq<(char, String)>) -> Seq<(char, Seq<char>)> {
    v.map_values(|p: (char, String)| (p.0, p.1@))
}

/// The (status, path) pairs of `git diff --name-status -z` output.
pub fn parse_name_status_records(output: &[u8]) -> (r: Vec<(char, String)>)
    ensures
        pair_views(r@) == name_status_spec(output@),
{
    let records = nul_records(output);
    let ghost recs = views(records@);
    let mut entries: Vec<(char, String)> = Vec::new();
    let mut index: usize = 0;
    assert(pair_views(entries@) =~= Seq::<(char, Seq<char>)>::empty());
    while index < records.len()
        invariant
            recs == views(records@),
            recs == nul_records_spec(output@),
            index <= records@.len(),
            name_status_spec(output@) == pair_views(entries@) + name_status_from(recs, index as int),
        decreases records@.len() - index,
    {
        let rec = chars_of(records[index].as_str());
        assert(rec@ == recs[index as int]);
        if rec.len() == 0 {
            index = index + 1;
            continue;
        }
        let status = rec[0];
        index = index + 1;
        if status == 'R' || status == 'C' {
            if index >= records.len() {
                assert(pair_views(entries@) + Seq::<(char, Seq<char>)>::empty() == pair_views(
                    entries@,
                ));
                return entries;
            }
            index = index + 1;
        }
        if index >= records.len() {
            assert(pair_views(entries@) + Seq::<(char, Seq<char>)>::empty() == pair_views(entries@));
            return entries;
        }
        let path = records[index].clone();
        assert(path@ == recs[index as int]);
        index = index + 1;
        if !path.as_str().is_empty() {
            let ghost before = entries@;
            entries.push((status, path));
            assert(pair_views(entries@) == pair_views(before).push((status, recs[index - 1])));
        }
    }
    assert(pair_views(entries@) + Seq::<(char, Seq<char>)>::empty() == pair_views(entries@));
    entries
}

/// The views of the merged entries.
pub open spec fn merged_views(v: Seq<(String, char, char)>) -> Seq<(Seq<char>, char, char)> {
    v.map_values(|e: (String, char, char)| (e.0@, e.1, e.2))
}

/// Records `status` for `path` in column `col`.
fn record(m: &mut Vec<(String, char, char)>, path: &String, status: char, col: u8)
    requires
        col == 0 || col == 1,
    ensures
        merged_views(final(m)@) == record_status(merged_views(old(m)@), path@, status, col as int),
{
    let ghost mv = merged_views(m@);
    let mut k: usize = 0;
    while k < m.len()
        invariant
            col == 0 || col == 1,
            k <= m@.len(),
            mv == merged_views(m@),
            mv == merged_views(old(m)@),
            find_path(mv, path@) == match find_path(mv.subrange(0, k as int), path@) {
                Some(x) => Some(x),
                None => find_path(mv, path@),
            },
            find_path(mv.subrange(0, k as int), path@) is None,
            forall|j: int| 0 <= j < k ==> #[trigger] mv[j].0 != path@,
        decreases m@.len() - k,
    {
        assert(mv[k as int] == (m@[k as int].0@, m@[k as int].1, m@[k as int].2));
        if m[k].0 == *path {
            proof {
                lemma_find_first(mv, path@, k as int);
            }
            let entry = (m[k].0.clone(), if col == 0 { status } else { m[k].1 }, if col == 1 {
                status
            } else {
                m[k].2
            });
            m.set(k, entry);
            assert(merged_views(m@) =~= mv.update(k as int, (path@, entry.1, entry.2)));

            return ;
        }
        proof {
            assert(mv.subrange(0, k + 1).drop_last() == mv.subrange(0, k as int));
        }
        k = k + 1;
    }
    proof {
        assert(mv.subrange(0, mv.len() as int) == mv);
    }
    let ghost before = m@;
    let entry = (path.clone(), if col == 0 { status } else { ' ' }, if col == 1 { status } else { ' ' });
    m.push(entry);
    assert(merged_views(m@) == merged_views(before).push((path@, entry.1, entry.2)));
}

proof fn lemma_find_first(m: Seq<(Seq<char>, char, char)>, p: Seq<char>, k: int)
    requires
        0 <= k < m.len(),
        m[k].0 == p,
        forall|j: int| 0 <= j < k ==> #[trigger] m[j].0 != p,
    ensures
        find_path(m, p) == Some(k),
    decreases m.len(),
{
    if k < m.len() - 1 {
        lemma_find_first(m.drop_last(), p, k);
    } else {
        lemma_find_none(m.drop_last(), p);
    }
}

proof fn lemma_find_none(m: Seq<(Seq<char>, char, char)>, p: Seq<char>)
    requires
        forall|j: int| 0 <= j < m.len() ==> #[trigger] m[j].0 != p,
    ensures
        find_path(m, p) is None,
    decreases m.len(),
{
    if m.len() > 0 {
        lemma_find_none(m.drop_last(), p);
    }
}

/// Records every pair of `recs` in column `col`, in order.
fn record_pairs(m: &mut Vec<(String, char, char)>, recs: &Vec<(char, String)>, col: u8)
    requires
        col == 0 || col == 1,
    ensures
        merged_views(final(m)@) == record_all(merged_views(old(m)@), pair_views(recs@), col as int),
{
    let ghost start = merged_views(m@);
    let mut i: usize = 0;
    assert(pair_views(recs@).subrange(0, 0) =~= Seq::<(char, Seq<char>)>::empty());
    while i < recs.len()
        invariant
            col == 0 || col == 1,
            i <= recs@.len(),
            merged_views(m@) == record_all(start, pair_views(recs@).subrange(0, i as int), col as int),
        decreases recs@.len() - i,
    {
        proof {
            let next = pair_views(recs@).subrange(0, i + 1);
            assert(next.drop_last() == pair_views(recs@).subrange(0, i as int));
            assert(next.last() == (recs@[i as int].0, recs@[i as int].1@));
        }
        record(m, &recs[i].1, recs[i].0, col);
        i = i + 1;
    }
    assert(pair_views(recs@).subrange(0, recs@.len() as int) == pair_views(recs@));
}

/// The status lines of a repository, sorted: `XY path` for each path
/// changed in the index (`X`) or working tree (`Y`), and `?? path` for each
/// untracked path, from the outputs of `git diff --name-status -z --cached`,
/// `git diff --name-status -z` and `git ls-files --others ... -z`.
pub fn status_entries_from(cached: &[u8], worktree: &[u8], untracked: &[u8]) -> (r: Vec<String>)
    ensures
        views(r@).to_multiset() == status_lines(cached@, worktree@, untracked@).to_multiset(),
        sorted_by_chars(r@),
{
    let mut merged: Vec<(String, char, char)> = Vec::new();
    assert(merged_views(merged@) =~= Seq::<(Seq<char>, char, char)>::empty());
    let staged = parse_name_status_records(cached);
    record_pairs(&mut merged, &staged, 0);
    let unstaged = parse_name_status_records(worktree);
    record_pairs(&mut merged, &unstaged, 1);
    let ghost mv = merged_views(merged@);
    let mut lines: Vec<String> = Vec::new();
    let mut i: usize = 0;
    while i < merged.len()
        invariant
            i <= merged@.len(),
            mv == merged_views(merged@),
            views(lines@) == mv.subrange(0, i as int).map_values(
                |e: (Seq<char>, char, char)| tracked_line(e),
            ),
        decreases merged@.len() - i,
    {
        let mut line = String::new();
        push_char(&mut line, merged[i].1);
        push_char(&mut line, merged[i].2);
        push_char(&mut line, ' ');
        push_str(&mut line, merged[i].0.as_str());
        assert(line@ =~= tracked_line(mv[i as int]));
        let ghost before = lines@;
        lines.push(line);
        assert(views(lines@) == views(before).push(tracked_line(mv[i as int])));
        assert(mv.subrange(0, i + 1).map_values(|e: (Seq<char>, char, char)| tracked_line(e))
            == mv.subrange(0, i as int).map_values(|e: (Seq<char>, char, char)| tracked_line(e)).push(
            tracked_line(mv[i as int]),
        ));
        i = i + 1;
    }
    assert(mv.subrange(0, mv.len() as int) == mv);
    let others = nul_records(untracked);
    let ghost ov = views(others@);
    let ghost tracked_count = lines@.len();
    let ghost tracked_part = views(lines@);
    let mut k: usize = 0;
    while k < others.len()
        invariant
            k <= others@.len(),
            ov == views(others@),
            views(lines@) == tracked_part + ov.subrange(0, k as int).map_values(
                |p: Seq<char>| untracked_line(p),
            ),
        decreases others@.len() - k,
    {
        let mut line = owned("?? ");
        push_str(&mut line, others[k].as_str());
        assert(line@ == untracked_line(ov[k as int]));
        let ghost before = lines@;
        lines.push(line);
        assert(views(lines@) == views(before).push(untracked_line(ov[k as int])));
        assert(ov.subrange(0, k + 1).map_values(|p: Seq<char>| untracked_line(p)) == ov.subrange(
            0,
            k as int,
        ).map_values(|p: Seq<char>| untracked_line(p)).push(untracked_line(ov[k as int])));
        k = k + 1;
    }
    assert(ov.subrange(0, ov.len() as int) == ov);
    assert(views(lines@) == status_lines(cached@, worktree@, untracked@));
    sort_strings(&lines)
}

/// The report block of one repository; a blank line separates it from the
/// previous one.
pub open spec fn status_block(r: RepositoryStatus, first: bool) -> Seq<char> {
    (if first {
        seq![]
    } else {
        "\n"@
    }) + "== "@ + r.name@ + " ==\n"@ + join_with(views(r.entries@), "\n"@) + "\n"@
}

/// The report blocks of the repositories, in order.
pub open spec fn status_blocks(rs: Seq<RepositoryStatus>) -> Seq<char>
    decreases rs.len(),
{
    if rs.len() == 0 {
        seq![]
    } else {
        status_blocks(rs.drop_last()) + status_block(rs.last(), rs.len() == 1)
    }
}

/// The status report: each dirty repository with its status lines, without
/// trailing whitespace; a fixed sentence when every repository is clean.
pub open spec fn render_statuses_spec(rs: Seq<RepositoryStatus>) -> Seq<char> {
    if rs.len() == 0 {
        "All repositories are clean."@
    } else {
        trim_end(status_blocks(rs))
    }
}

/// The status report, as `render_statuses_spec` describes it.
pub fn render_statuses(repositories: &[RepositoryStatus]) -> (r: String)
    ensures
        r@ == render_statuses_spec(repositories@),
{
    if repositories.len() == 0 {
        return owned("All repositories are clean.");
    }
    let mut output = String::new();
    let mut i: usize = 0;
    while i < repositories.len()
        invariant
            i <= repositories@.len(),
            output@ == status_blocks(repositories@.subrange(0, i as int)),
        decreases repositories@.len() - i,
    {
        let ghost before = output@;
        let r = &repositories[i];
        if i > 0 {
            push_str(&mut output, "\n");
        }
        push_str(&mut output, "== ");
        push_str(&mut output, r.name.as_str());
        push_str(&mut output, " ==\n");
        let joined = join_strings(r.entries.as_slice(), "\n");
        push_str(&mut output, joined.as_str());
        push_str(&mut output, "\n");
        proof {
            let next = repositories@.subrange(0, i + 1);
            assert(next.drop_last() == repositories@.subrange(0, i as int));
            assert(next.last() == *r);
            assert(output@ =~= before + status_block(*r, i == 0));
        }
        i = i + 1;
    }
    assert(repositories@.subrange(0, repositories@.len() as int) == repositories@);
    let v = chars_of(output.as_str());
    let n = v.len();
    let k = skip_ws_backward(v.as_slice(), 0, n);
    proof {
        crate::text::lemma_trim_end_range(v@, 0, k as int, n as int);
        assert(v@.subrange(0, n as int) == v@);
    }
    let t = sub_chars(v.as_slice(), 0, k);
    string_of(t.as_slice())
}

/// A repository's display name: the final component of its path, or the
/// whole path when it has none.
pub open spec fn repository_name_spec(path: Seq<char>) -> Seq<char> {
    match path_file_name(path) {
        Some(n) => n,
        None => path,
    }
}

/// A repository's display name.
pub fn repository_name(path: &str) -> (r: String)
    ensures
        r@ == repository_name_spec(path@),
{
    match file_name(path) {
        Some(n) => string_of(n.as_slice()),
        None => owned(path),
    }
}

/// A repository's report entry: `None` when it is clean (no status lines).
pub fn repository_status(path: String, entries: Vec<String>) -> (r: Option<RepositoryStatus>)
    ensures
        entries@.len() == 0 <==> r is None,
        r matches Some(s) ==> s.name@ == repository_name_spec(path@) && s.path == path && s.entries
            == entries,
{
    if entries.len() == 0 {
        None
    } else {
        Some(RepositoryStatus { name: repository_name(path.as_str()), path, entries })
    }
}

/// A repository's report entry as text: its name, its path and its status
/// lines.
pub open spec fn status_view(s: RepositoryStatus) -> (Seq<char>, Seq<char>, Seq<Seq<char>>) {
    (s.name@, s.path@, views(s.entries@))
}

/// The report entries as text.
pub open spec fn status_views(rs: Seq<RepositoryStatus>) -> Seq<(Seq<char>, Seq<char>, Seq<Seq<char>>)> {
    rs.map_values(|s: RepositoryStatus| status_view(s))
}

/// The report entries of the repositories (paths with their status lines,
/// in order) that have status lines: each named by its final component.
pub open spec fn dirty_views(reps: Seq<(String, Vec<String>)>) -> Seq<
    (Seq<char>, Seq<char>, Seq<Seq<char>>),
>
    decreases reps.len(),
{
    if reps.len() == 0 {
        seq![]
    } else {
        let rest = dirty_views(reps.drop_first());
        let (p, e) = reps[0];
        if e@.len() == 0 {
            rest
        } else {
            seq![(repository_name_spec(p@), p@, views(e@))] + rest
        }
    }
}

/// The report entries of the repositories, given in order with their status
/// lines: clean repositories are left out, the others keep their order.
pub fn dirty_repositories(repositories: Vec<(String, Vec<String>)>) -> (r: Vec<RepositoryStatus>)
    ensures
        status_views(r@) == dirty_views(repositories@),
{
    let ghost all = repositories@;
    let mut rest = repositories;
    let mut dirty: Vec<RepositoryStatus> = Vec::new();
    assert(status_views(dirty@) =~= Seq::<(Seq<char>, Seq<char>, Seq<Seq<char>>)>::empty());
    while rest.len() > 0
        invariant
            status_views(dirty@) + dirty_views(rest@) == dirty_views(all),
        decreases rest@.len(),
    {
        let ghost before = rest@;
        let ghost done = status_views(dirty@);
        let (path, entries) = rest.remove(0);
        assert(rest@ == before.drop_first());
        match repository_status(path, entries) {
            Some(status) => {
                dirty.push(status);
                assert(status_views(dirty@) == done.push(status_view(status)));
                assert(status_views(dirty@) + dirty_views(rest@) =~= done + dirty_views(before));
            },
            None => {},
        }
    }
    assert(dirty_views(rest@) == Seq::<(Seq<char>, Seq<char>, Seq<Seq<char>>)>::empty());
    assert(status_views(dirty@) + dirty_views(rest@) =~= status_views(dirty@));
    dirty
}

proof fn lemma_dirty_views_empty(reps: Seq<(String, Vec<String>)>)
    ensures
        dirty_views(reps).len() == 0 <==> forall|i: int|
            0 <= i < reps.len() ==> (#[trigger] reps[i]).1@.len() == 0,
    decreases reps.len(),
{
    if reps.len() > 0 {
        lemma_dirty_views_empty(reps.drop_first());
        if forall|i: int| 0 <= i < reps.len() ==> (#[trigger] reps[i]).1@.len() == 0 {
            assert(reps[0].1@.len() == 0);
            assert forall|i: int| 0 <= i < reps.drop_first().len() implies (
            #[trigger] reps.drop_first()[i]).1@.len() == 0 by {
                assert(reps.drop_first()[i] == reps[i + 1]);
            }
        } else if reps[0].1@.len() == 0 {
            let i = choose|i: int| 0 <= i < reps.len() && (#[trigger] reps[i]).1@.len() != 0;
            assert(reps.drop_first()[i - 1] == reps[i]);
        }
    }
}

proof fn lemma_trim_end_keeps_first(s: Seq<char>)
    requires
        s.len() > 0,
        !crate::text::is_whitespace(s[0]),
    ensures
        trim_end(s).len() > 0,
        trim_end(s)[0] == s[0],
    decreases s.len(),
{
    if crate::text::is_whitespace(s.last()) {
        lemma_trim_end_keeps_first(s.drop_last());
    }
}

proof fn lemma_blocks_start(rs: Seq<RepositoryStatus>)
    requires
        rs.len() > 0,
    ensures
        status_blocks(rs).len() > 0,
        status_blocks(rs)[0] == '=',
    decreases rs.len(),
{
    reveal_strlit("== ");
    if rs.len() == 1 {
        assert(status_blocks(rs.drop_last()) == Seq::<char>::empty());
        assert(status_blocks(rs) =~= status_block(rs.last(), true));
    } else {
        lemma_blocks_start(rs.drop_last());
    }
}

/// The status report says that every repository is clean exactly when no
/// repository has a status line; otherwise it lists the repositories that
/// have status lines, in order.
pub proof fn lemma_report_clean_iff(reps: Seq<(String, Vec<String>)>, rs: Seq<RepositoryStatus>)
    requires
        status_views(rs) == dirty_views(reps),
    ensures
        render_statuses_spec(rs) == "All repositories are clean."@ <==> forall|i: int|
            0 <= i < reps.len() ==> (#[trigger] reps[i]).1@.len() == 0,
{
    lemma_dirty_views_empty(reps);
    assert(rs.len() == status_views(rs).len());
    if rs.len() > 0 {
        lemma_blocks_start(rs);
        lemma_trim_end_keeps_first(status_blocks(rs));
        reveal_strlit("All repositories are clean.");
        assert(render_statuses_spec(rs)[0] != "All repositories are clean."@[0]);
    }
}

/// Whether `git rev-parse --is-inside-work-tree` said `true`.
pub fn is_work_tree_output(stdout: &[u8]) -> (r: bool)
    ensures
        r == (trim(utf8_lossy(stdout@)) == "true"@),
{
    let text = lossy_string(stdout);
    let v = chars_of(text.as_str());
    let t = trimmed(v.as_slice());
    chars_eq_str(t.as_slice(), "true")
}

/// `prefix`, `repository`, `middle`, then the trimmed error output.
fn failure_message(prefix: &str, repository: &str, middle: &str, stderr: &[u8]) -> (r: String)
    ensures
        r@ == prefix@ + repository@ + middle@ + trim(utf8_lossy(stderr@)),
{
    let mut m = owned(prefix);
    push_str(&mut m, repository);
    push_str(&mut m, middle);
    let text = lossy_string(stderr);
    let v = chars_of(text.as_str());
    let t = trimmed(v.as_slice());
    push_chars(&mut m, t.as_slice());
    m
}

/// The error for a `git` command that failed in a repository.
pub fn git_failure_message(repository: &str, stderr: &[u8]) -> (r: String)
    ensures
        r@ == "git failed in "@ + repository@ + ": "@ + trim(utf8_lossy(stderr@)),
{
    failure_message("git failed in ", repository, ": ", stderr)
}

/// The error for a `.git` directory that `git rev-parse` cannot inspect.
pub fn inspection_failure_message(repository: &str, stderr: &[u8]) -> (r: String)
    ensures
        r@ == "repository cannot be inspected at "@ + repository@ + ": git rev-parse failed: "@
            + trim(utf8_lossy(stderr@)),
{
    failure_message(
        "repository cannot be inspected at ",
        repository,
        ": git rev-parse failed: ",
        stderr,
    )
}

/// The error for `git` failing to start: a fixed message when the
/// executable is missing, otherwise the error text.
pub fn git_execution_error(not_found: bool, error: &str) -> (r: String)
    ensures
        r@ == if not_found {
            "git executable is unavailable: failed to run `git`"@
        } else {
            "failed to run git: "@ + error@
        },
{
    if not_found {
        return owned("git executable is unavailable: failed to run `git`");
    }
    let mut m = owned("failed to run git: ");
    push_str(&mut m, error);
    m
}

/// Directories the repository walk does not enter: dependency and build
/// outputs, caches, logs and virtual environments.
pub open spec fn is_excluded_name(name: Seq<char>) -> bool {
    name == "node_modules"@ || name == "dist"@ || name == "build"@ || name == "tmp"@ || name
        == "caches"@ || name == "logs"@ || name == "snap"@ || name == ".venv"@ || name == "venv"@
        || name == "env"@ || name == ".env"@
}

/// Whether the repository walk leaves the directory `name` alone.
pub fn is_excluded_dir(name: &str) -> (r: bool)
    ensures
        r == is_excluded_name(name@),
{
    str_eq(name, "node_modules") || str_eq(name, "dist") || str_eq(name, "build") || str_eq(
        name,
        "tmp",
    ) || str_eq(name, "caches") || str_eq(name, "logs") || str_eq(name, "snap") || str_eq(
        name,
        ".venv",
    ) || str_eq(name, "venv") || str_eq(name, "env") || str_eq(name, ".env")
}

/// What the repository walk does with an entry.
#[derive(Debug, Clone, Copy, PartialEq, Eq)]
pub enum RepositoryWalk {
    /// Not a directory, or an excluded one.
    Skip,
    /// A `.git` directory: its parent may be a repository.
    Inspect,
    /// A directory to walk into.
    Descend,
}

/// The repository walk: only directories count; `.git` marks a candidate
/// repository and is not entered; excluded directories are skipped.
pub open spec fn repository_entry_spec(name: Seq<char>, is_dir: bool) -> RepositoryWalk {
    if !is_dir {
        RepositoryWalk::Skip
    } else if name == ".git"@ {
        RepositoryWalk::Inspect
    } else if is_excluded_name(name) {
        RepositoryWalk::Skip
    } else {
        RepositoryWalk::Descend
    }
}

/// What the repository walk does with an entry.
pub fn repository_entry_action(name: &str, is_dir: bool) -> (r: RepositoryWalk)
    ensures
        r == repository_entry_spec(name@, is_dir),
{
    if !is_dir {
        RepositoryWalk::Skip
    } else if str_eq(name, ".git") {
        RepositoryWalk::Inspect
    } else if is_excluded_dir(name) {
        RepositoryWalk::Skip
    } else {
        RepositoryWalk::Descend
    }
}

} // verus!
