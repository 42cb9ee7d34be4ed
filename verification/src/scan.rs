//! The Rust maintenance report: labelled sizes, wrapped descriptions and
//! suggested commands.
use vstd::prelude::*;

use crate::path::{join, path_join};
use crate::rust::{total_target_bytes, without, CargoBuildArtifacts, RustProject, RustupToolchains};
use crate::text::{
    chars_of, decimal, is_whitespace, is_ws, join_strings, join_with, owned, pad_left, pad_right,
    push_chars, push_decimal, push_padded_left, push_padded_right, push_str, spaces, views,
};
use crate::{format_bytes, format_bytes_spec};

verus! {

/// The sizes of the parts of Cargo's registry.
#[derive(Debug, Clone, PartialEq, Eq)]
pub struct CargoRegistryData {
    pub cache_bytes: u64,
    pub src_bytes: u64,
    pub index_bytes: u64,
}

/// A labelled value: the label left-aligned in 22 columns, a space, the
/// value right-aligned in 9 columns.
pub open spec fn metric_line(label: Seq<char>, value: Seq<char>) -> Seq<char> {
    pad_right(label, 22) + " "@ + pad_left(value, 9) + "\n"@
}

/// Reading `s` left to right: the words completed so far and the word in
/// progress.
pub open spec fn word_scan(s: Seq<char>) -> (Seq<Seq<char>>, Seq<char>)
    decreases s.len(),
{
    if s.len() == 0 {
        (seq![], seq![])
    } else {
        let (done, cur) = word_scan(s.drop_last());
        if is_whitespace(s.last()) {
            if cur.len() > 0 {
                (done.push(cur), seq![])
            } else {
                (done, seq![])
            }
        } else {
            (done, cur.push(s.last()))
        }
    }
}

/// The words of `s`: its maximal runs of non-whitespace characters.
pub open spec fn words(s: Seq<char>) -> Seq<Seq<char>> {
    let (done, cur) = word_scan(s);
    if cur.len() > 0 {
        done.push(cur)
    } else {
        done
    }
}

/// The number of bytes of `c` in UTF-8.
pub open spec fn utf8_width(c: char) -> nat {
    if c <= '\u{7f}' {
        1
    } else if c <= '\u{7ff}' {
        2
    } else if c <= '\u{ffff}' {
        3
    } else {
        4
    }
}

/// The number of bytes of `s` in UTF-8.
pub open spec fn byte_len(s: Seq<char>) -> nat
    decreases s.len(),
{
    if s.len() == 0 {
        0
    } else {
        byte_len(s.drop_last()) + utf8_width(s.last())
    }
}

/// An indented description line.
pub open spec fn indented(line: Seq<char>) -> Seq<char> {
    "    "@ + line + "\n"@
}

/// Filling lines with the words `ws` in order: the lines completed so far
/// (as text) and the line in progress. A word joins the current line when
/// the line stays within 72 bytes, and starts a new line otherwise.
pub open spec fn wrap_words(ws: Seq<Seq<char>>) -> (Seq<char>, Seq<char>)
    decreases ws.len(),
{
    if ws.len() == 0 {
        (seq![], seq![])
    } else {
        let (out, line) = wrap_words(ws.drop_last());
        let word = ws.last();
        if line.len() == 0 {
            (out, word)
        } else if byte_len(line) + 1 + byte_len(word) <= 72 {
            (out, line + " "@ + word)
        } else {
            (out + indented(line), word)
        }
    }
}

/// A description wrapped at 72 bytes on word boundaries, each line indented
/// by four spaces.
pub open spec fn wrapped_description(description: Seq<char>) -> Seq<char> {
    let (out, line) = wrap_words(words(description));
    if line.len() > 0 {
        out + indented(line)
    } else {
        out
    }
}

/// Suggested commands, each indented and in backquotes.
pub open spec fn commands_text(commands: Seq<Seq<char>>) -> Seq<char>
    decreases commands.len(),
{
    if commands.len() == 0 {
        seq![]
    } else {
        commands_text(commands.drop_last()) + "    `"@ + commands.last() + "`\n"@
    }
}

/// A labelled value with its description, suggested commands and a blank
/// line.
pub open spec fn described_metric(
    label: Seq<char>,
    value: Seq<char>,
    description: Seq<char>,
    commands: Seq<Seq<char>>,
) -> Seq<char> {
    metric_line(label, value) + wrapped_description(description) + commands_text(commands) + "\n"@
}

/// A described size, or nothing for zero bytes.
pub open spec fn described_metric_if_nonzero(
    label: Seq<char>,
    bytes: u64,
    description: Seq<char>,
    commands: Seq<Seq<char>>,
) -> Seq<char> {
    if bytes > 0 {
        described_metric(label, format_bytes_spec(bytes as nat), description, commands)
    } else {
        seq![]
    }
}

/// The views of a list of string slices.
pub open spec fn str_views(v: Seq<&str>) -> Seq<Seq<char>> {
    v.map_values(|s: &str| s@)
}

/// The number of projects with a non-empty `target/`.
pub open spec fn count_with_target(ps: Seq<RustProject>) -> nat
    decreases ps.len(),
{
    if ps.len() == 0 {
        0
    } else {
        count_with_target(ps.drop_last()) + if ps.last().target_bytes > 0 {
            1nat
        } else {
            0nat
        }
    }
}

/// The size of local targets with the number of repositories they belong to.
pub open spec fn local_targets_value(bytes: nat, repositories: nat) -> Seq<char> {
    format_bytes_spec(bytes) + " ("@ + decimal(repositories) + " "@ + (if repositories == 1 {
        "repository"@
    } else {
        "repositories"@
    }) + ")"@
}

/// The size of the shared target directory, zero when there is none.
pub open spec fn shared_target_bytes(a: CargoBuildArtifacts) -> nat {
    match a.shared_target {
        Some(t) => t.bytes as nat,
        None => 0,
    }
}

/// The shared-target block, when the shared target directory holds
/// something.
pub open spec fn shared_section_text(shared: nat) -> Seq<char> {
    if shared > 0 {
        metric_line("Shared target"@, format_bytes_spec(shared)) + wrapped_description(
            "shared build artifacts"@,
        ) + wrapped_description("safe to remove with"@) + "    `disk-maint clean shared`\n"@
            + "\n"@
    } else {
        seq![]
    }
}

/// The local-targets block, when some project has a non-empty `target/`.
pub open spec fn local_section_text(bytes: nat, count: nat) -> Seq<char> {
    if count > 0 {
        metric_line("Local targets"@, local_targets_value(bytes, count)) + wrapped_description(
            "repository/workspace build artifacts"@,
        ) + wrapped_description("safe to remove with"@) + "    `cargo clean`\n"@
            + "    `disk-maint clean target`\n"@ + "\n"@
    } else {
        seq![]
    }
}

/// The build-artifact section: the shared target directory and the local
/// `target/` directories, each only when it holds something.
pub open spec fn cargo_build_artifacts_text(a: CargoBuildArtifacts) -> Seq<char> {
    "Cargo build artifacts\n\n"@ + shared_section_text(shared_target_bytes(a))
        + local_section_text(total_target_bytes(a.projects@), count_with_target(a.projects@))
}

/// The registry section: crate archives, crate sources and the index, each
/// only when non-empty.
pub open spec fn cargo_registry_text(r: CargoRegistryData) -> Seq<char> {
    described_metric_if_nonzero(
        "Cargo crate archives"@,
        r.cache_bytes,
        "downloaded .crate archives used as Cargo's package cache"@,
        seq![],
    ) + described_metric_if_nonzero(
        "Cargo crate sources"@,
        r.src_bytes,
        "unpacked crate source trees from downloaded registry packages"@,
        seq![],
    ) + described_metric_if_nonzero(
        "Cargo registry index"@,
        r.index_bytes,
        "registry index and package metadata used for dependency resolution"@,
        seq![],
    )
}

/// One uninstall command per removable toolchain.
pub open spec fn uninstall_lines(ts: Seq<Seq<char>>) -> Seq<char>
    decreases ts.len(),
{
    if ts.len() == 0 {
        seq![]
    } else {
        uninstall_lines(ts.drop_last()) + "    "@ + "  rustup toolchain uninstall "@ + ts.last()
            + "\n"@
    }
}

/// The active and default toolchains: one line when they are the same.
pub open spec fn toolchain_roles_text(t: RustupToolchains) -> Seq<char> {
    if t.active@ == t.default@ {
        wrapped_description("active/default: "@ + t.default@)
    } else {
        wrapped_description("active: "@ + t.active@) + wrapped_description("default: "@ + t.default@)
    }
}

/// The toolchains other than the default, when there are any.
pub open spec fn additional_text(t: RustupToolchains) -> Seq<char> {
    let additional = without(views(t.installed@), t.default@, t.default@);
    if additional.len() > 0 {
        wrapped_description("additional: "@ + join_with(additional, ", "@))
    } else {
        seq![]
    }
}

/// The rustup block when toolchain details are known: nothing when no
/// toolchain is removable, otherwise the size, the active and default
/// toolchains, the additional ones and one uninstall command per removable
/// toolchain.
pub open spec fn rustup_details_text(bytes: u64, t: RustupToolchains) -> Seq<char> {
    let removable = without(views(t.installed@), t.active@, t.default@);
    if removable.len() == 0 {
        seq![]
    } else {
        metric_line("Rustup toolchains"@, format_bytes_spec(bytes as nat)) + toolchain_roles_text(t)
            + additional_text(t) + wrapped_description("removable:"@) + uninstall_lines(removable)
            + "\n"@
    }
}

/// The rustup section. Without toolchain details: the size and the generic
/// uninstall command; with them, `rustup_details_text`.
pub open spec fn rustup_text(bytes: u64, toolchains: Option<RustupToolchains>) -> Seq<char> {
    match toolchains {
        None => metric_line("Rustup toolchains"@, format_bytes_spec(bytes as nat))
            + wrapped_description("remove old toolchains with"@)
            + "    `rustup toolchain uninstall <toolchain>`\n"@ + "\n"@,
        Some(t) => rustup_details_text(bytes, t),
    }
}

/// The whole maintenance report.
pub open spec fn report_text(
    artifacts: CargoBuildArtifacts,
    registry: CargoRegistryData,
    cargo_git_bytes: u64,
    rustup_bytes: u64,
    toolchains: Option<RustupToolchains>,
) -> Seq<char> {
    "Rust maintenance report\n\n"@ + cargo_build_artifacts_text(artifacts) + cargo_registry_text(
        registry,
    ) + described_metric_if_nonzero(
        "Cargo git cache"@,
        cargo_git_bytes,
        "shared git dependency cache; removing may require re-fetching"@,
        seq![],
    ) + rustup_text(rustup_bytes, toolchains) + metric_line(
        "Rust projects scanned"@,
        decimal(artifacts.projects@.len()),
    ) + "\nNo changes made."@
}

/// Appends a labelled value.
pub fn push_metric(output: &mut String, label: &str, value: &str)
    ensures
        final(output)@ == old(output)@ + metric_line(label@, value@),
{
    let ghost start = output@;
    let l = chars_of(label);
    push_padded_right(output, l.as_slice(), 22);
    push_str(output, " ");
    let v = chars_of(value);
    push_padded_left(output, v.as_slice(), 9);
    push_str(output, "\n");
    assert(output@ =~= start + metric_line(label@, value@));
}

/// The words of `v`.
fn split_words(v: &[char]) -> (r: Vec<Vec<char>>)
    ensures
        r@.map_values(|w: Vec<char>| w@) == words(v@),
{
    let mut done: Vec<Vec<char>> = Vec::new();
    let mut cur: Vec<char> = Vec::new();
    let mut i: usize = 0;
    assert(done@.map_values(|w: Vec<char>| w@) =~= Seq::<Seq<char>>::empty());
    assert(v@.subrange(0, 0) =~= Seq::<char>::empty());
    while i < v.len()
        invariant
            i <= v@.len(),
            word_scan(v@.subrange(0, i as int)) == (done@.map_values(|w: Vec<char>| w@), cur@),
        decreases v@.len() - i,
    {
        let c = v[i];
        proof {
            let t = v@.subrange(0, i + 1);
            assert(t.drop_last() == v@.subrange(0, i as int));
            assert(t.last() == c);
        }
        if is_ws(c) {
            if cur.len() > 0 {
                let ghost before = done@;
                let w = cur;
                done.push(w);
                assert(done@.map_values(|x: Vec<char>| x@) == before.map_values(|x: Vec<char>| x@).push(
                    w@,
                ));
            }
            cur = Vec::new();
        } else {
            cur.push(c);
        }
        i = i + 1;
    }
    assert(v@.subrange(0, v@.len() as int) == v@);
    if cur.len() > 0 {
        let ghost before = done@;
        let w = cur;
        done.push(w);
        assert(done@.map_values(|x: Vec<char>| x@) == before.map_values(|x: Vec<char>| x@).push(w@));
    }
    done
}

/// The number of bytes of `c` in UTF-8.
fn char_width(c: char) -> (r: u8)
    ensures
        r as nat == utf8_width(c),
{
    if c <= '\u{7f}' {
        1
    } else if c <= '\u{7ff}' {
        2
    } else if c <= '\u{ffff}' {
        3
    } else {
        4
    }
}

/// The number of bytes of `v` in UTF-8.
fn utf8_len(v: &[char]) -> (r: u128)
    ensures
        r as nat == byte_len(v@),
{
    let mut n: u128 = 0;
    let mut i: usize = 0;
    while i < v.len()
        invariant
            i <= v@.len(),
            n == byte_len(v@.subrange(0, i as int)),
            n <= 4 * i,
            i <= usize::MAX,
        decreases v@.len() - i,
    {
        assert(v@.subrange(0, i + 1).drop_last() == v@.subrange(0, i as int));
        n = n + char_width(v[i]) as u128;
        i = i + 1;
    }
    assert(v@.subrange(0, v@.len() as int) == v@);
    n
}

/// Appends an indented description line.
fn push_indented(output: &mut String, line: &[char])
    ensures
        final(output)@ == old(output)@ + indented(line@),
{
    let ghost start = output@;
    push_str(output, "    ");
    push_chars(output, line);
    push_str(output, "\n");
    assert(output@ =~= start + indented(line@));
}

proof fn lemma_byte_len_bound(s: Seq<char>)
    ensures
        byte_len(s) <= 4 * s.len(),
    decreases s.len(),
{
    if s.len() > 0 {
        lemma_byte_len_bound(s.drop_last());
    }
}

proof fn lemma_byte_len_concat(a: Seq<char>, b: Seq<char>)
    ensures
        byte_len(a + b) == byte_len(a) + byte_len(b),
    decreases b.len(),
{
    if b.len() > 0 {
        lemma_byte_len_concat(a, b.drop_last());
        assert((a + b).drop_last() == a + b.drop_last());
    } else {
        assert(a + b == a);
    }
}

/// Appends a description wrapped at 72 bytes on word boundaries, each line
/// indented by four spaces.
pub fn push_wrapped_description(output: &mut String, description: &str)
    ensures
        final(output)@ == old(output)@ + wrapped_description(description@),
{
    let ghost start = output@;
    let d = chars_of(description);
    let ws = split_words(d.as_slice());
    let ghost wv = ws@.map_values(|w: Vec<char>| w@);
    let ghost mut text: Seq<char> = seq![];
    let mut line: Vec<char> = Vec::new();
    let mut line_len: u128 = 0;
    let mut i: usize = 0;
    assert(wv.subrange(0, 0) =~= Seq::<Seq<char>>::empty());
    assert(output@ =~= start + text);
    while i < ws.len()
        invariant
            i <= ws@.len(),
            wv == ws@.map_values(|w: Vec<char>| w@),
            wv == words(description@),
            wrap_words(wv.subrange(0, i as int)) == (text, line@),
            output@ == start + text,
            line_len == byte_len(line@),
        decreases ws@.len() - i,
    {
        let word = &ws[i];
        assert(word@ == wv[i as int]);
        proof {
            assert(wv.subrange(0, i + 1).drop_last() == wv.subrange(0, i as int));
            assert(wv.subrange(0, i + 1).last() == wv[i as int]);
        }
        let word_len = utf8_len(word.as_slice());
        let ll = line.len();
        let wl = word.len();
        proof {
            lemma_byte_len_bound(line@);
            lemma_byte_len_bound(word@);
        }
        if line.len() == 0 {
            line = word.clone();
            line_len = word_len;
        } else if line_len + 1 + word_len <= 72 {
            let ghost old_line = line@;
            line.push(' ');
            let mut k: usize = 0;
            let ghost base = line@;
            while k < word.len()
                invariant
                    k <= word@.len(),
                    line@ == base + word@.subrange(0, k as int),
                decreases word@.len() - k,
            {
                line.push(word[k]);
                k = k + 1;
                assert(word@.subrange(0, k as int) == word@.subrange(0, k - 1).push(word@[k - 1]));
            }
            assert(word@.subrange(0, word@.len() as int) == word@);
            proof {
                reveal_strlit(" ");
                assert(base == old_line + " "@);
                lemma_byte_len_concat(base, word@);
                lemma_byte_len_concat(old_line, " "@);
                assert(" "@ =~= seq![' ']);
                assert(seq![' '].drop_last() =~= Seq::<char>::empty());
                assert(seq![' '].last() == ' ');
                assert(byte_len(Seq::<char>::empty()) == 0);
                assert(utf8_width(' ') == 1);
                assert(byte_len(seq![' ']) == 1);
            }
            line_len = line_len + 1 + word_len;
        } else {
            push_indented(output, line.as_slice());
            proof {
                text = text + indented(line@);
            }
            line = word.clone();
            line_len = word_len;
        }
        i = i + 1;
    }
    assert(wv.subrange(0, wv.len() as int) == wv);
    if line.len() > 0 {
        push_indented(output, line.as_slice());
    }
    assert(output@ =~= start + wrapped_description(description@));
}

/// Appends the suggested commands, each indented and in backquotes.
fn push_commands(output: &mut String, commands: &[&str])
    ensures
        final(output)@ == old(output)@ + commands_text(str_views(commands@)),
{
    let ghost start = output@;
    let mut i: usize = 0;
    assert(str_views(commands@.subrange(0, 0)) =~= Seq::<Seq<char>>::empty());
    assert(output@ =~= start + commands_text(str_views(commands@.subrange(0, 0))));
    while i < commands.len()
        invariant
            i <= commands@.len(),
            output@ == start + commands_text(str_views(commands@.subrange(0, i as int))),
        decreases commands@.len() - i,
    {
        proof {
            let next = str_views(commands@.subrange(0, i + 1));
            assert(next.drop_last() == str_views(commands@.subrange(0, i as int)));
            assert(next.last() == commands@[i as int]@);
        }
        push_str(output, "    `");
        push_str(output, commands[i]);
        push_str(output, "`\n");
        i = i + 1;
        assert(output@ =~= start + commands_text(str_views(commands@.subrange(0, i as int))));
    }
    assert(commands@.subrange(0, commands@.len() as int) == commands@);
}

/// Appends a labelled value with its description, suggested commands and a
/// blank line.
pub fn push_described_metric(
    output: &mut String,
    label: &str,
    value: &str,
    description: &str,
    commands: &[&str],
)
    ensures
        final(output)@ == old(output)@ + described_metric(
            label@,
            value@,
            description@,
            str_views(commands@),
        ),
{
    let ghost start = output@;
    push_metric(output, label, value);
    push_wrapped_description(output, description);
    push_commands(output, commands);
    push_str(output, "\n");
    assert(output@ =~= start + described_metric(label@, value@, description@, str_views(commands@)));
}

/// Appends a described size, or nothing for zero bytes.
pub fn push_described_metric_if_nonzero(
    output: &mut String,
    label: &str,
    bytes: u64,
    description: &str,
    commands: &[&str],
)
    ensures
        final(output)@ == old(output)@ + described_metric_if_nonzero(
            label@,
            bytes,
            description@,
            str_views(commands@),
        ),
{
    if bytes > 0 {
        let value = format_bytes(bytes);
        push_described_metric(output, label, value.as_str(), description, commands);
    } else {
        assert(output@ =~= output@ + Seq::<char>::empty());
    }
}

/// The size of local targets with the number of repositories they belong to.
pub fn format_local_targets_value(bytes: u64, repositories: usize) -> (r: String)
    ensures
        r@ == local_targets_value(bytes as nat, repositories as nat),
{
    let mut r = format_bytes(bytes);
    let ghost start = r@;
    push_str(&mut r, " (");
    push_decimal(&mut r, repositories as u128);
    push_str(&mut r, " ");
    if repositories == 1 {
        push_str(&mut r, "repository");
    } else {
        push_str(&mut r, "repositories");
    }
    push_str(&mut r, ")");
    assert(r@ =~= local_targets_value(bytes as nat, repositories as nat));
    r
}

proof fn lemma_count_le_len(ps: Seq<RustProject>)
    ensures
        count_with_target(ps) <= ps.len(),
    decreases ps.len(),
{
    if ps.len() > 0 {
        lemma_count_le_len(ps.drop_last());
    }
}

proof fn lemma_total_prefix_le(ps: Seq<RustProject>, k: int)
    requires
        0 <= k <= ps.len(),
    ensures
        total_target_bytes(ps.subrange(0, k)) <= total_target_bytes(ps),
    decreases ps.len() - k,
{
    if k < ps.len() {
        lemma_total_prefix_le(ps, k + 1);
        assert(ps.subrange(0, k + 1).drop_last() == ps.subrange(0, k));
    } else {
        assert(ps.subrange(0, k) == ps);
    }
}

/// Appends the shared-target block.
fn push_shared_section(output: &mut String, shared_bytes: u64)
    ensures
        final(output)@ == old(output)@ + shared_section_text(shared_bytes as nat),
{
    let ghost start = output@;
    if shared_bytes > 0 {
        let v = format_bytes(shared_bytes);
        push_metric(output, "Shared target", v.as_str());
        push_wrapped_description(output, "shared build artifacts");
        push_wrapped_description(output, "safe to remove with");
        push_str(output, "    `disk-maint clean shared`\n");
        push_str(output, "\n");
    }
    assert(output@ =~= start + shared_section_text(shared_bytes as nat));
}

/// Appends the local-targets block.
fn push_local_section(output: &mut String, local_bytes: u64, local_count: usize)
    ensures
        final(output)@ == old(output)@ + local_section_text(local_bytes as nat, local_count as nat),
{
    let ghost start = output@;
    if local_count > 0 {
        let v = format_local_targets_value(local_bytes, local_count);
        push_metric(output, "Local targets", v.as_str());
        push_wrapped_description(output, "repository/workspace build artifacts");
        push_wrapped_description(output, "safe to remove with");
        push_str(output, "    `cargo clean`\n");
        push_str(output, "    `disk-maint clean target`\n");
        push_str(output, "\n");
    }
    assert(output@ =~= start + local_section_text(local_bytes as nat, local_count as nat));
}

/// Appends the build-artifact section.
pub fn push_cargo_build_artifacts(output: &mut String, artifacts: &CargoBuildArtifacts)
    requires
        total_target_bytes(artifacts.projects@) <= u64::MAX,
    ensures
        final(output)@ == old(output)@ + cargo_build_artifacts_text(*artifacts),
{
    let ghost start = output@;
    let ps = &artifacts.projects;
    let mut local_bytes: u64 = 0;
    let mut local_count: usize = 0;
    let mut i: usize = 0;
    while i < ps.len()
        invariant
            i <= ps@.len(),
            total_target_bytes(ps@) <= u64::MAX,
            local_bytes == total_target_bytes(ps@.subrange(0, i as int)),
            local_count == count_with_target(ps@.subrange(0, i as int)),
            local_count <= i,
        decreases ps@.len() - i,
    {
        proof {
            assert(ps@.subrange(0, i + 1).drop_last() == ps@.subrange(0, i as int));
            lemma_total_prefix_le(ps@, i + 1);
        }
        local_bytes = local_bytes + ps[i].target_bytes;
        if ps[i].target_bytes > 0 {
            local_count = local_count + 1;
        }
        i = i + 1;
    }
    assert(ps@.subrange(0, ps@.len() as int) == ps@);
    let shared_bytes: u64 = match &artifacts.shared_target {
        Some(t) => t.bytes,
        None => 0,
    };
    push_str(output, "Cargo build artifacts\n\n");
    push_shared_section(output, shared_bytes);
    push_local_section(output, local_bytes, local_count);
    assert(output@ =~= start + cargo_build_artifacts_text(*artifacts));
}

/// Appends the registry section.
pub fn push_cargo_registry_data(output: &mut String, registry: &CargoRegistryData)
    ensures
        final(output)@ == old(output)@ + cargo_registry_text(*registry),
{
    let ghost start = output@;
    let none: [&str; 0] = [];
    assert(str_views(none@) =~= Seq::<Seq<char>>::empty());
    push_described_metric_if_nonzero(
        output,
        "Cargo crate archives",
        registry.cache_bytes,
        "downloaded .crate archives used as Cargo's package cache",
        &none,
    );
    push_described_metric_if_nonzero(
        output,
        "Cargo crate sources",
        registry.src_bytes,
        "unpacked crate source trees from downloaded registry packages",
        &none,
    );
    push_described_metric_if_nonzero(
        output,
        "Cargo registry index",
        registry.index_bytes,
        "registry index and package metadata used for dependency resolution",
        &none,
    );
    assert(output@ =~= start + cargo_registry_text(*registry));
}

/// Appends one uninstall command per toolchain.
fn push_uninstall_lines(output: &mut String, ts: &[String])
    ensures
        final(output)@ == old(output)@ + uninstall_lines(views(ts@)),
{
    let ghost start = output@;
    let mut i: usize = 0;
    assert(views(ts@.subrange(0, 0)) =~= Seq::<Seq<char>>::empty());
    assert(output@ =~= start + uninstall_lines(views(ts@.subrange(0, 0))));
    while i < ts.len()
        invariant
            i <= ts@.len(),
            output@ == start + uninstall_lines(views(ts@.subrange(0, i as int))),
        decreases ts@.len() - i,
    {
        proof {
            let next = views(ts@.subrange(0, i + 1));
            assert(next.drop_last() == views(ts@.subrange(0, i as int)));
            assert(next.last() == ts@[i as int]@);
        }
        push_str(output, "    ");
        push_str(output, "  rustup toolchain uninstall ");
        push_str(output, ts[i].as_str());
        push_str(output, "\n");
        i = i + 1;
        assert(output@ =~= start + uninstall_lines(views(ts@.subrange(0, i as int))));
    }
    assert(ts@.subrange(0, ts@.len() as int) == ts@);
}

/// The view of an optional toolchain list.
pub open spec fn opt_toolchains(t: Option<&RustupToolchains>) -> Option<RustupToolchains> {
    match t {
        Some(x) => Some(*x),
        None => None,
    }
}

/// Appends the active and default toolchains.
fn push_toolchain_roles(output: &mut String, t: &RustupToolchains)
    ensures
        final(output)@ == old(output)@ + toolchain_roles_text(*t),
{
    if t.active == t.default {
        let mut d = owned("active/default: ");
        push_str(&mut d, t.default.as_str());
        push_wrapped_description(output, d.as_str());
    } else {
        let ghost start = output@;
        let mut a = owned("active: ");
        push_str(&mut a, t.active.as_str());
        push_wrapped_description(output, a.as_str());
        let mut d = owned("default: ");
        push_str(&mut d, t.default.as_str());
        push_wrapped_description(output, d.as_str());
        assert(output@ =~= start + toolchain_roles_text(*t));
    }
}

/// Appends the additional toolchains, when there are any.
fn push_additional(output: &mut String, t: &RustupToolchains)
    ensures
        final(output)@ == old(output)@ + additional_text(*t),
{
    let additional = t.additional();
    if additional.len() > 0 {
        let mut a = owned("additional: ");
        let joined = join_strings(additional.as_slice(), ", ");
        push_str(&mut a, joined.as_str());
        push_wrapped_description(output, a.as_str());
    } else {
        assert(views(additional@).len() == 0);
        assert(output@ =~= output@ + additional_text(*t));
    }
}

/// Appends the rustup block for known toolchain details.
fn push_rustup_details(output: &mut String, bytes: u64, t: &RustupToolchains)
    ensures
        final(output)@ == old(output)@ + rustup_details_text(bytes, *t),
{
    let ghost start = output@;
    let removable = t.removable();
    if removable.len() == 0 {
        assert(views(removable@).len() == 0);
        assert(output@ =~= start + rustup_details_text(bytes, *t));
        return ;
    }
    let v = format_bytes(bytes);
    push_metric(output, "Rustup toolchains", v.as_str());
    push_toolchain_roles(output, t);
    push_additional(output, t);
    push_wrapped_description(output, "removable:");
    push_uninstall_lines(output, removable.as_slice());
    push_str(output, "\n");
    assert(output@ =~= start + rustup_details_text(bytes, *t));
}

/// Appends the rustup section.
pub fn push_rustup_toolchains(
    output: &mut String,
    bytes: u64,
    toolchains: Option<&RustupToolchains>,
)
    ensures
        final(output)@ == old(output)@ + rustup_text(bytes, opt_toolchains(toolchains)),
{
    let ghost start = output@;
    match toolchains {
        None => {
            let v = format_bytes(bytes);
            push_metric(output, "Rustup toolchains", v.as_str());
            push_wrapped_description(output, "remove old toolchains with");
            push_str(output, "    `rustup toolchain uninstall <toolchain>`\n");
            push_str(output, "\n");
            assert(output@ =~= start + rustup_text(bytes, None));
        },
        Some(t) => push_rustup_details(output, bytes, t),
    }
}

/// The whole maintenance report, from the measured sizes.
pub fn render_report(
    artifacts: &CargoBuildArtifacts,
    registry: &CargoRegistryData,
    cargo_git_bytes: u64,
    rustup_bytes: u64,
    toolchains: Option<&RustupToolchains>,
) -> (r: String)
    requires
        total_target_bytes(artifacts.projects@) <= u64::MAX,
    ensures
        r@ == report_text(
            *artifacts,
            *registry,
            cargo_git_bytes,
            rustup_bytes,
            opt_toolchains(toolchains),
        ),
{
    let mut output = owned("Rust maintenance report\n\n");
    push_cargo_build_artifacts(&mut output, artifacts);
    push_cargo_registry_data(&mut output, registry);
    let none: [&str; 0] = [];
    assert(str_views(none@) =~= Seq::<Seq<char>>::empty());
    push_described_metric_if_nonzero(
        &mut output,
        "Cargo git cache",
        cargo_git_bytes,
        "shared git dependency cache; removing may require re-fetching",
        &none,
    );
    push_rustup_toolchains(&mut output, rustup_bytes, toolchains);
    let count = crate::text::decimal_string(artifacts.projects.len() as u128);
    push_metric(&mut output, "Rust projects scanned", count.as_str());
    push_str(&mut output, "\nNo changes made.");
    assert(output@ =~= report_text(
        *artifacts,
        *registry,
        cargo_git_bytes,
        rustup_bytes,
        opt_toolchains(toolchains),
    ));
    output
}

/// Registry sizes when there is no registry.
pub fn empty_cargo_registry_data() -> (r: CargoRegistryData)
    ensures
        r.cache_bytes == 0 && r.src_bytes == 0 && r.index_bytes == 0,
{
    CargoRegistryData { cache_bytes: 0, src_bytes: 0, index_bytes: 0 }
}

/// The registry parts that are measured: `cache`, `src` and `index`.
pub fn registry_parts(registry: &str) -> (r: (String, String, String))
    ensures
        r.0@ == path_join(registry@, "cache"@),
        r.1@ == path_join(registry@, "src"@),
        r.2@ == path_join(registry@, "index"@),
{
    (join(registry, "cache"), join(registry, "src"), join(registry, "index"))
}

/// The directories of the removable toolchains under `toolchains_dir`.
pub fn removable_toolchain_paths(toolchains_dir: &str, toolchains: &RustupToolchains) -> (r: Vec<
    String,
>)
    ensures
        r@.len() == without(views(toolchains.installed@), toolchains.active@, toolchains.default@).len(),
        forall|i: int|
            0 <= i < r@.len() ==> #[trigger] r@[i]@ == path_join(
                toolchains_dir@,
                without(views(toolchains.installed@), toolchains.active@, toolchains.default@)[i],
            ),
{
    let removable = toolchains.removable();
    let mut r: Vec<String> = Vec::new();
    let mut i: usize = 0;
    while i < removable.len()
        invariant
            i <= removable@.len(),
            r@.len() == i,
            views(removable@) == without(
                views(toolchains.installed@),
                toolchains.active@,
                toolchains.default@,
            ),
            forall|k: int|
                0 <= k < i ==> #[trigger] r@[k]@ == path_join(toolchains_dir@, removable@[k]@),
        decreases removable@.len() - i,
    {
        r.push(join(toolchains_dir, removable[i].as_str()));
        i = i + 1;
    }
    r
}

/// The toolchains left after dropping `a` and `b` are exactly those of `v`
/// other than `a` and `b`.
proof fn lemma_without(v: Seq<Seq<char>>, a: Seq<char>, b: Seq<char>)
    ensures
        forall|i: int|
            0 <= i < without(v, a, b).len() ==> #[trigger] without(v, a, b)[i] != a
                && without(v, a, b)[i] != b && v.contains(without(v, a, b)[i]),
        forall|i: int|
            0 <= i < v.len() && #[trigger] v[i] != a && v[i] != b ==> without(v, a, b).contains(
                v[i],
            ),
        (forall|i: int| 0 <= i < v.len() ==> #[trigger] v[i] == a || v[i] == b) ==> without(
            v,
            a,
            b,
        ).len() == 0,
    decreases v.len(),
{
    if v.len() > 0 {
        let d = v.drop_last();
        lemma_without(d, a, b);
        let w = without(v, a, b);
        let wd = without(d, a, b);
        assert forall|i: int| 0 <= i < w.len() implies #[trigger] w[i] != a && w[i] != b
            && v.contains(w[i]) by {
            if i < wd.len() {
                assert(w[i] == wd[i]);
                let k = choose|k: int| 0 <= k < d.len() && d[k] == wd[i];
                assert(v[k] == d[k]);
            } else {
                assert(v[v.len() - 1] == w[i]);
            }
        }
        assert forall|i: int| 0 <= i < v.len() && #[trigger] v[i] != a && v[i] != b implies w.contains(
            v[i],
        ) by {
            if i < d.len() {
                assert(d[i] == v[i]);
                let k = choose|k: int| 0 <= k < wd.len() && wd[k] == d[i];
                assert(w[k] == wd[k]);
            } else {
                assert(w[w.len() - 1] == v[i]);
            }
        }
        if forall|i: int| 0 <= i < v.len() ==> #[trigger] v[i] == a || v[i] == b {
            assert forall|i: int| 0 <= i < d.len() implies #[trigger] d[i] == a || d[i] == b by {
                assert(d[i] == v[i]);
            }
            assert(v[v.len() - 1] == v.last());
        }
    }
}

/// The rustup section never suggests uninstalling the active or the default
/// toolchain: the toolchains it lists for removal are exactly the installed
/// ones other than those two, and when no other toolchain is installed the
/// section is left out.
pub proof fn lemma_rustup_keeps_active_and_default(bytes: u64, t: RustupToolchains)
    ensures
        ({
            let removable = without(views(t.installed@), t.active@, t.default@);
            &&& forall|i: int|
                0 <= i < removable.len() ==> #[trigger] removable[i] != t.active@ && removable[i]
                    != t.default@ && views(t.installed@).contains(removable[i])
            &&& forall|i: int|
                0 <= i < t.installed@.len() && #[trigger] t.installed@[i]@ != t.active@
                    && t.installed@[i]@ != t.default@ ==> removable.contains(t.installed@[i]@)
            &&& rustup_text(bytes, Some(t)) == if removable.len() == 0 {
                Seq::<char>::empty()
            } else {
                metric_line("Rustup toolchains"@, format_bytes_spec(bytes as nat))
                    + toolchain_roles_text(t) + additional_text(t) + wrapped_description(
                    "removable:"@,
                ) + uninstall_lines(removable) + "\n"@
            }
        }),
        (forall|i: int|
            0 <= i < t.installed@.len() ==> #[trigger] t.installed@[i]@ == t.active@
                || t.installed@[i]@ == t.default@) ==> rustup_text(bytes, Some(t)) == Seq::<
            char,
        >::empty(),
{
    let v = views(t.installed@);
    lemma_without(v, t.active@, t.default@);
    assert forall|i: int|
        0 <= i < t.installed@.len() && #[trigger] t.installed@[i]@ != t.active@
            && t.installed@[i]@ != t.default@ implies without(v, t.active@, t.default@).contains(
        t.installed@[i]@,
    ) by {
        assert(v[i] == t.installed@[i]@);
    }
    if forall|i: int|
        0 <= i < t.installed@.len() ==> #[trigger] t.installed@[i]@ == t.active@
            || t.installed@[i]@ == t.default@ {
        assert forall|i: int| 0 <= i < v.len() implies #[trigger] v[i] == t.active@ || v[i]
            == t.default@ by {
            assert(v[i] == t.installed@[i]@);
        }
    }
}

proof fn lemma_frame(
    h1: Seq<char>,
    h2: Seq<char>,
    sl: Seq<char>,
    r: Seq<char>,
    g: Seq<char>,
    ru: Seq<char>,
    ml: Seq<char>,
    nc: Seq<char>,
)
    ensures
        ({
            let x = h1 + (h2 + sl) + r + g + ru + ml + nc;
            &&& (h1 + h2).len() + (ml + nc).len() <= x.len()
            &&& x.subrange(0, (h1 + h2).len() as int) == h1 + h2
            &&& x.subrange(x.len() - (ml + nc).len(), x.len() as int) == ml + nc
        }),
{
    let x = h1 + (h2 + sl) + r + g + ru + ml + nc;
    assert(x.subrange(0, (h1 + h2).len() as int) =~= h1 + h2);
    assert(x.subrange(x.len() - (ml + nc).len(), x.len() as int) =~= ml + nc);
}

proof fn lemma_report_heading()
    ensures
        "Rust maintenance report\n\nCargo build artifacts\n\n"@ == "Rust maintenance report\n\n"@
            + "Cargo build artifacts\n\n"@,
{
    reveal_strlit("Rust maintenance report\n\n");
    reveal_strlit("Cargo build artifacts\n\n");
    reveal_strlit("Rust maintenance report\n\nCargo build artifacts\n\n");
    assert("Rust maintenance report\n\nCargo build artifacts\n\n"@ =~= "Rust maintenance report\n\n"@
        + "Cargo build artifacts\n\n"@);
}

proof fn lemma_projects_scanned_line(n: Seq<char>)
    ensures
        metric_line("Rust projects scanned"@, n) + "\nNo changes made."@ == "Rust projects scanned  "@
            + pad_left(n, 9) + "\n\nNo changes made."@,
{
    reveal_strlit("Rust projects scanned");
    reveal_strlit("Rust projects scanned  ");
    reveal_strlit(" ");
    reveal_strlit("\n");
    reveal_strlit("\nNo changes made.");
    reveal_strlit("\n\nNo changes made.");
    let label = "Rust projects scanned"@;
    assert(spaces(1) =~= seq![' ']);
    assert(pad_right(label, 22) =~= label + seq![' ']);
    assert(metric_line(label, n) + "\nNo changes made."@ =~= "Rust projects scanned  "@ + pad_left(
        n,
        9,
    ) + "\n\nNo changes made."@);
}

/// The maintenance report always opens with its title and the build
/// artifact heading, and always ends with the number of projects scanned
/// and the note that nothing was changed.
pub proof fn lemma_report_frame(
    artifacts: CargoBuildArtifacts,
    registry: CargoRegistryData,
    cargo_git_bytes: u64,
    rustup_bytes: u64,
    toolchains: Option<RustupToolchains>,
)
    ensures
        ({
            let t = report_text(artifacts, registry, cargo_git_bytes, rustup_bytes, toolchains);
            let head = "Rust maintenance report\n\nCargo build artifacts\n\n"@;
            let tail = "Rust projects scanned  "@ + pad_left(decimal(artifacts.projects@.len()), 9)
                + "\n\nNo changes made."@;
            &&& head.len() + tail.len() <= t.len()
            &&& t.subrange(0, head.len() as int) == head
            &&& t.subrange(t.len() - tail.len(), t.len() as int) == tail
        }),
{
    let n = decimal(artifacts.projects@.len());
    lemma_projects_scanned_line(n);
    let h1 = "Rust maintenance report\n\n"@;
    let h2 = "Cargo build artifacts\n\n"@;
    lemma_report_heading();
    let sl = shared_section_text(shared_target_bytes(artifacts)) + local_section_text(
        total_target_bytes(artifacts.projects@),
        count_with_target(artifacts.projects@),
    );
    lemma_frame(
        h1,
        h2,
        sl,
        cargo_registry_text(registry),
        described_metric_if_nonzero(
            "Cargo git cache"@,
            cargo_git_bytes,
            "shared git dependency cache; removing may require re-fetching"@,
            seq![],
        ),
        rustup_text(rustup_bytes, toolchains),
        metric_line("Rust projects scanned"@, n),
        "\nNo changes made."@,
    );
}

/// The line of a group of words: the words joined by single spaces.
pub open spec fn group_line(g: Seq<Seq<char>>) -> Seq<char> {
    join_with(g, " "@)
}

/// The indented lines of groups of words, in order.
pub open spec fn indented_groups(gs: Seq<Seq<Seq<char>>>) -> Seq<char>
    decreases gs.len(),
{
    if gs.len() == 0 {
        seq![]
    } else {
        indented_groups(gs.drop_last()) + indented(group_line(gs.last()))
    }
}

/// How `wrap_words` groups `ws` into lines: the completed groups and the
/// group in progress.
pub open spec fn wrap_groups(ws: Seq<Seq<char>>) -> (Seq<Seq<Seq<char>>>, Seq<Seq<char>>)
    decreases ws.len(),
{
    if ws.len() == 0 {
        (seq![], seq![])
    } else {
        let (done, cur) = wrap_groups(ws.drop_last());
        let word = ws.last();
        if cur.len() == 0 {
            (done, seq![word])
        } else if byte_len(group_line(cur)) + 1 + byte_len(word) <= 72 {
            (done, cur.push(word))
        } else {
            (done.push(cur), seq![word])
        }
    }
}

/// A greedy packing of words into lines: each group is non-empty, is a
/// single word or fits in 72 bytes, and the first word of the next group
/// would not have fitted after it.
pub open spec fn greedy_packing(gs: Seq<Seq<Seq<char>>>) -> bool {
    &&& forall|i: int| 0 <= i < gs.len() ==> (#[trigger] gs[i]).len() > 0
    &&& forall|i: int|
        0 <= i < gs.len() ==> (#[trigger] gs[i]).len() == 1 || byte_len(group_line(gs[i])) <= 72
    &&& forall|i: int|
        0 <= i < gs.len() - 1 ==> byte_len(group_line(#[trigger] gs[i])) + 1 + byte_len(
            gs[i + 1][0],
        ) > 72
}

proof fn lemma_byte_len_add(a: Seq<char>, b: Seq<char>)
    ensures
        byte_len(a + b) == byte_len(a) + byte_len(b),
    decreases b.len(),
{
    if b.len() > 0 {
        lemma_byte_len_add(a, b.drop_last());
        assert((a + b).drop_last() == a + b.drop_last());
    } else {
        assert(a + b == a);
    }
}

proof fn lemma_word_scan_nonempty(s: Seq<char>)
    ensures
        forall|i: int| 0 <= i < word_scan(s).0.len() ==> (#[trigger] word_scan(s).0[i]).len() > 0,
    decreases s.len(),
{
    if s.len() > 0 {
        lemma_word_scan_nonempty(s.drop_last());
        let (done, cur) = word_scan(s.drop_last());
        if is_whitespace(s.last()) && cur.len() > 0 {
            assert forall|i: int| 0 <= i < done.push(cur).len() implies (#[trigger] done.push(
                cur,
            )[i]).len() > 0 by {
                if i < done.len() {
                    assert(done.push(cur)[i] == done[i]);
                }
            }
        }
    }
}

proof fn lemma_words_nonempty(s: Seq<char>)
    ensures
        forall|i: int| 0 <= i < words(s).len() ==> (#[trigger] words(s)[i]).len() > 0,
{
    lemma_word_scan_nonempty(s);
    let (done, cur) = word_scan(s);
    if cur.len() > 0 {
        assert forall|i: int| 0 <= i < done.push(cur).len() implies (#[trigger] done.push(
            cur,
        )[i]).len() > 0 by {
            if i < done.len() {
                assert(done.push(cur)[i] == done[i]);
            }
        }
    }
}

proof fn lemma_wrap_groups(ws: Seq<Seq<char>>)
    requires
        forall|i: int| 0 <= i < ws.len() ==> (#[trigger] ws[i]).len() > 0,
    ensures
        ({
            let (done, cur) = wrap_groups(ws);
            &&& wrap_words(ws) == (indented_groups(done), group_line(cur))
            &&& done.flatten() + cur == ws
            &&& (cur.len() == 0 <==> ws.len() == 0)
            &&& greedy_packing(done.push(cur)) || cur.len() == 0
            &&& cur.len() == 0 ==> done.len() == 0
            &&& forall|k: int| 0 <= k < cur.len() ==> (#[trigger] cur[k]).len() > 0
        }),
    decreases ws.len(),
{
    if ws.len() > 0 {
        let d = ws.drop_last();
        assert forall|i: int| 0 <= i < d.len() implies (#[trigger] d[i]).len() > 0 by {
            assert(d[i] == ws[i]);
        }
        lemma_wrap_groups(d);
        let (done, cur) = wrap_groups(d);
        let word = ws.last();
        assert(word.len() > 0);
        assert(done.flatten() + cur == d);
        assert(ws == d.push(word));
        if cur.len() == 0 {
            assert(seq![word] == Seq::<Seq<char>>::empty().push(word));
            assert(group_line(seq![word]) == word);
            assert(done.flatten() + seq![word] =~= (done.flatten() + cur).push(word));
            let gs = done.push(seq![word]);
            assert(gs.len() == 1);
            assert(gs[0] == seq![word]);
        } else {
            assert(group_line(cur).len() > 0) by {
                assert(cur[0].len() > 0);
                lemma_join_nonempty(cur);
            }
            let old_gs = done.push(cur);
            if byte_len(group_line(cur)) + 1 + byte_len(word) <= 72 {
                let nc = cur.push(word);
                assert(nc.drop_last() == cur);
                assert(group_line(nc) == group_line(cur) + " "@ + word);
                assert(done.flatten() + nc =~= (done.flatten() + cur).push(word));
                assert forall|k: int| 0 <= k < nc.len() implies (#[trigger] nc[k]).len() > 0 by {
                    if k < cur.len() {
                        assert(nc[k] == cur[k]);
                    }
                }
                reveal_strlit(" ");
                lemma_byte_len_add(group_line(cur), " "@);
                lemma_byte_len_add(group_line(cur) + " "@, word);
                assert(byte_len(" "@) == 1) by {
                    reveal_strlit(" ");
                    assert(" "@.drop_last() =~= Seq::<char>::empty());
                    assert(" "@.last() == ' ');
                    assert(byte_len(Seq::<char>::empty()) == 0);
                }
                let gs = done.push(nc);
                assert forall|i: int| 0 <= i < gs.len() implies (#[trigger] gs[i]).len() > 0 by {
                    if i < done.len() {
                        assert(gs[i] == old_gs[i]);
                    }
                }
                assert forall|i: int| 0 <= i < gs.len() implies (#[trigger] gs[i]).len() == 1
                    || byte_len(group_line(gs[i])) <= 72 by {
                    if i < done.len() {
                        assert(gs[i] == old_gs[i]);
                    }
                }
                assert forall|i: int| 0 <= i < gs.len() - 1 implies byte_len(
                    group_line(#[trigger] gs[i]),
                ) + 1 + byte_len(gs[i + 1][0]) > 72 by {
                    assert(gs[i] == old_gs[i]);
                    if i + 1 < done.len() {
                        assert(gs[i + 1] == old_gs[i + 1]);
                    } else {
                        assert(gs[i + 1][0] == old_gs[i + 1][0]);
                    }
                }
            } else {
                let nd = done.push(cur);
                assert(nd.flatten() == done.flatten() + cur) by {
                    done.lemma_flatten_push(cur);
                }
                assert(nd.flatten() + seq![word] =~= (done.flatten() + cur).push(word));
                assert(group_line(seq![word]) == word);
                assert(indented_groups(nd) == indented_groups(done) + indented(group_line(cur))) by {
                    assert(nd.drop_last() == done);
                }
                let gs = nd.push(seq![word]);
                assert forall|i: int| 0 <= i < gs.len() implies (#[trigger] gs[i]).len() > 0 by {
                    if i < nd.len() {
                        assert(gs[i] == old_gs[i]);
                    }
                }
                assert forall|i: int| 0 <= i < gs.len() implies (#[trigger] gs[i]).len() == 1
                    || byte_len(group_line(gs[i])) <= 72 by {
                    if i < nd.len() {
                        assert(gs[i] == old_gs[i]);
                    }
                }
                assert forall|i: int| 0 <= i < gs.len() - 1 implies byte_len(
                    group_line(#[trigger] gs[i]),
                ) + 1 + byte_len(gs[i + 1][0]) > 72 by {
                    assert(gs[i] == old_gs[i]);
                    if i + 1 < nd.len() {
                        assert(gs[i + 1] == old_gs[i + 1]);
                    } else {
                        assert(gs[i + 1][0] == word);
                    }
                }
            }
        }
    }
}

proof fn lemma_join_nonempty(g: Seq<Seq<char>>)
    requires
        g.len() > 0,
        g[0].len() > 0,
    ensures
        group_line(g).len() > 0,
    decreases g.len(),
{
    if g.len() > 1 {
        lemma_join_nonempty(g.drop_last());
    }
}

/// A description is wrapped greedily: its words, in order, are packed into
/// lines of at most 72 bytes (a longer word stands alone on its line), a
/// line ends only when the next word would not fit, and each line is
/// indented by four spaces. A description without words adds nothing.
pub proof fn lemma_wrapped_description_packing(description: Seq<char>)
    ensures
        exists|gs: Seq<Seq<Seq<char>>>|
            {
                &&& #[trigger] gs.flatten() == words(description)
                &&& greedy_packing(gs)
                &&& wrapped_description(description) == indented_groups(gs)
            },
        wrapped_description(description).len() == 0 <==> words(description).len() == 0,
{
    let ws = words(description);
    lemma_words_nonempty(description);
    let gs = lemma_packing_of(ws);
    assert(gs.flatten() == words(description));
}

/// The packing that `wrap_words` makes of non-empty words.
proof fn lemma_packing_of(ws: Seq<Seq<char>>) -> (gs: Seq<Seq<Seq<char>>>)
    requires
        forall|i: int| 0 <= i < ws.len() ==> (#[trigger] ws[i]).len() > 0,
    ensures
        gs.flatten() == ws,
        greedy_packing(gs),
        ({
            let (out, line) = wrap_words(ws);
            indented_groups(gs) == if line.len() > 0 {
                out + indented(line)
            } else {
                out
            }
        }),
        (ws.len() == 0 ==> gs.len() == 0) && (ws.len() > 0 ==> indented_groups(gs).len() > 0),
{
    lemma_wrap_groups(ws);
    let done = wrap_groups(ws).0;
    let cur = wrap_groups(ws).1;
    if cur.len() == 0 {
        let gs = Seq::<Seq<Seq<char>>>::empty();
        assert(gs.flatten() =~= ws);
        gs
    } else {
        let gs = done.push(cur);
        done.lemma_flatten_push(cur);
        assert(gs.drop_last() == done);
        lemma_join_nonempty(cur);
        gs
    }
}

/// Whether a project's `target/` holds something.
pub open spec fn has_target_contents(p: RustProject) -> bool {
    p.target_bytes > 0
}

proof fn lemma_count_is_filter(ps: Seq<RustProject>)
    ensures
        count_with_target(ps) == ps.filter(|p: RustProject| has_target_contents(p)).len(),
    decreases ps.len(),
{
    let f = |p: RustProject| has_target_contents(p);
    if ps.len() == 0 {
        assert(ps.filter(f) == Seq::<RustProject>::empty()) by {
            reveal(Seq::filter);
        }
    } else {
        lemma_count_is_filter(ps.drop_last());
        ps.drop_last().lemma_filter_push(ps.last(), f);
        assert(ps.drop_last().push(ps.last()) == ps);
    }
}

/// The build-artifact section counts only the projects whose `target/` holds
/// something: its local-targets block names the total size and the number
/// of such projects, and it is left out when no project's `target/` holds
/// anything. Adding a project with an empty `target/` changes nothing.
pub proof fn lemma_local_targets_count(a: CargoBuildArtifacts, extra: RustProject)
    ensures
        cargo_build_artifacts_text(a) == "Cargo build artifacts\n\n"@ + shared_section_text(
            shared_target_bytes(a),
        ) + local_section_text(
            total_target_bytes(a.projects@),
            a.projects@.filter(|p: RustProject| has_target_contents(p)).len(),
        ),
        a.projects@.filter(|p: RustProject| has_target_contents(p)).len() > 0 ==> local_section_text(
            total_target_bytes(a.projects@),
            a.projects@.filter(|p: RustProject| has_target_contents(p)).len(),
        ).subrange(
            0,
            metric_line(
                "Local targets"@,
                local_targets_value(
                    total_target_bytes(a.projects@),
                    a.projects@.filter(|p: RustProject| has_target_contents(p)).len(),
                ),
            ).len() as int,
        ) == metric_line(
            "Local targets"@,
            local_targets_value(
                total_target_bytes(a.projects@),
                a.projects@.filter(|p: RustProject| has_target_contents(p)).len(),
            ),
        ),
        (forall|i: int| 0 <= i < a.projects@.len() ==> (#[trigger] a.projects@[i]).target_bytes == 0)
            ==> cargo_build_artifacts_text(a) == "Cargo build artifacts\n\n"@ + shared_section_text(
            shared_target_bytes(a),
        ),
        extra.target_bytes == 0 ==> count_with_target(a.projects@.push(extra)) == count_with_target(
            a.projects@,
        ),
{
    let ps = a.projects@;
    let f = |p: RustProject| has_target_contents(p);
    lemma_count_is_filter(ps);
    assert(ps.push(extra).drop_last() == ps);
    let n = ps.filter(f).len();
    if n > 0 {
        let m = metric_line(
            "Local targets"@,
            local_targets_value(total_target_bytes(ps), n),
        );
        let l = local_section_text(total_target_bytes(ps), n);
        assert(l.subrange(0, m.len() as int) =~= m);
    }
    if forall|i: int| 0 <= i < ps.len() ==> (#[trigger] ps[i]).target_bytes == 0 {
        assert(ps.filter(f).len() == 0) by {
            let g = |p: RustProject| !f(p);
            assert forall|i: int| 0 <= i < ps.len() implies #[trigger] g(ps[i]) by {
                assert(ps[i].target_bytes == 0);
            }
            assert(ps.all(g));
            ps.lemma_all_neg_filter_empty(f);
        }
        assert(local_section_text(total_target_bytes(ps), 0) == Seq::<char>::empty());
        assert(cargo_build_artifacts_text(a) =~= "Cargo build artifacts\n\n"@ + shared_section_text(
            shared_target_bytes(a),
        ));
    }
}

} // verus!
