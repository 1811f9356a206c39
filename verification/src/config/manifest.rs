//! Package manifests and directory naming: repository slugs, sender slugs,
//! external skill-source names, and the local-first merge of agent files.

use crate::agent::config::AgentConfig;
use crate::config::daemon::McpServerConfig;
use crate::table::{has_key, keys_distinct, map_of, NameTable};
use crate::text::{
    chars_of, is_alphanumeric, is_ascii_alnum, push_char, string_from_range, string_of, to_ascii_lowercase,
    ascii_lower, unicode_alphanumeric,
};
use vstd::prelude::*;

verus! {

/// Package metadata in a package manifest.
pub struct PackageMeta {
    /// Package name.
    pub name: String,
    /// Source repository URL.
    pub repository: String,
    /// Branch to clone (defaults to the repo's default branch).
    pub branch: Option<String>,
    /// Setup configuration (run after install).
    pub setup: Option<Setup>,
}

/// Package setup — a bash script run after install.
pub struct Setup {
    /// Bash script or command to run from the cached repo directory.
    pub script: String,
}

// ── Trimming a character ────────────────────────────────────────────

/// `s` without leading `c`s.
pub open spec fn strip_leading(s: Seq<char>, c: char) -> Seq<char>
    decreases s.len(),
{
    if s.len() > 0 && s[0] == c {
        strip_leading(s.drop_first(), c)
    } else {
        s
    }
}

/// `s` without trailing `c`s.
pub open spec fn strip_trailing(s: Seq<char>, c: char) -> Seq<char>
    decreases s.len(),
{
    if s.len() > 0 && s.last() == c {
        strip_trailing(s.drop_last(), c)
    } else {
        s
    }
}

/// `s.trim_matches(c)`.
pub open spec fn trim_char(s: Seq<char>, c: char) -> Seq<char> {
    strip_trailing(strip_leading(s, c), c)
}

/// The bounds of `trim_char(v, c)` inside `v`.
fn trim_char_bounds(v: &Vec<char>, c: char) -> (r: (usize, usize))
    ensures
        r.0 <= r.1 <= v@.len(),
        trim_char(v@, c) == v@.subrange(r.0 as int, r.1 as int),
{
    let mut a: usize = 0;
    assert(v@.subrange(0, v@.len() as int) =~= v@);
    while a < v.len() && v[a] == c
        invariant
            a <= v@.len(),
            strip_leading(v@, c) == strip_leading(v@.subrange(a as int, v@.len() as int), c),
        decreases v@.len() - a,
    {
        assert(v@.subrange(a as int, v@.len() as int).drop_first() =~= v@.subrange(
            a + 1,
            v@.len() as int,
        ));
        a += 1;
    }
    let mut b: usize = v.len();
    while b > a && v[b - 1] == c
        invariant
            a <= b <= v@.len(),
            strip_trailing(v@.subrange(a as int, v@.len() as int), c) == strip_trailing(
                v@.subrange(a as int, b as int),
                c,
            ),
        decreases b - a,
    {
        assert(v@.subrange(a as int, b as int).drop_last() =~= v@.subrange(a as int, b - 1));
        b -= 1;
    }
    (a, b)
}

// ── Repository slugs ────────────────────────────────────────────────

/// A character of a repository slug: alphanumerics and `-` stay, anything
/// else becomes `-`.
pub open spec fn slug_char(c: char) -> char {
    if unicode_alphanumeric(c) || c == '-' {
        c
    } else {
        '-'
    }
}

/// Whether `://` starts at position `i` of `s`.
pub open spec fn scheme_sep_at(s: Seq<char>, i: int) -> bool {
    0 <= i && i + 3 <= s.len() && s[i] == ':' && s[i + 1] == '/' && s[i + 2] == '/'
}

/// Whether position `i` holds the first `://` of `s`.
pub open spec fn first_scheme_sep(s: Seq<char>, i: int) -> bool {
    scheme_sep_at(s, i) && forall|j: int| 0 <= j < i ==> !scheme_sep_at(s, j)
}

/// Where the address proper starts: just after the first `://`, or at the
/// start when there is no scheme.
pub open spec fn scheme_end(s: Seq<char>) -> int {
    if exists|i: int| first_scheme_sep(s, i) {
        (choose|i: int| first_scheme_sep(s, i)) + 3
    } else {
        0
    }
}

/// The filesystem-safe slug of a repository URL: its scheme (`https://`)
/// dropped, every other character mapped by [`slug_char`], then leading and
/// trailing `-` trimmed.
pub open spec fn spec_repo_slug(url: Seq<char>) -> Seq<char> {
    trim_char(url.skip(scheme_end(url)).map_values(|c: char| slug_char(c)), '-')
}

/// The position just after the first `://` of `v`, or 0.
fn find_scheme_end(v: &Vec<char>) -> (r: usize)
    ensures
        r == scheme_end(v@),
        r <= v@.len(),
{
    let mut i: usize = 0;
    while 3 <= v.len() - i
        invariant
            i <= v@.len(),
            forall|j: int| 0 <= j < i ==> !scheme_sep_at(v@, j),
        decreases v@.len() - i,
    {
        if v[i] == ':' && v[i + 1] == '/' && v[i + 2] == '/' {
            assert(first_scheme_sep(v@, i as int));
            let ghost k = choose|k: int| first_scheme_sep(v@, k);
            assert(k == i) by {
                if k < i {
                    assert(!scheme_sep_at(v@, k));
                } else if k > i {
                    assert(!scheme_sep_at(v@, i as int));
                }
            }
            return i + 3;
        }
        i += 1;
    }
    assert(!exists|k: int| first_scheme_sep(v@, k));
    0
}

/// Stripping leading `c`s leaves a suffix that does not start with `c`.
proof fn lemma_strip_leading(s: Seq<char>, c: char)
    ensures
        exists|k: int| 0 <= k <= s.len() && strip_leading(s, c) == s.subrange(k, s.len() as int),
        strip_leading(s, c).len() > 0 ==> strip_leading(s, c)[0] != c,
    decreases s.len(),
{
    if s.len() > 0 && s[0] == c {
        lemma_strip_leading(s.drop_first(), c);
        let k = choose|k: int| 0 <= k <= s.drop_first().len() && strip_leading(s.drop_first(), c) == s.drop_first().subrange(k, s.drop_first().len() as int);
        assert(s.drop_first().subrange(k, s.drop_first().len() as int) =~= s.subrange(k + 1, s.len() as int));
    } else {
        assert(s.subrange(0, s.len() as int) =~= s);
    }
}

/// Stripping trailing `c`s leaves a prefix that does not end with `c`.
proof fn lemma_strip_trailing(s: Seq<char>, c: char)
    ensures
        exists|k: int| 0 <= k <= s.len() && strip_trailing(s, c) == s.subrange(0, k),
        strip_trailing(s, c).len() > 0 ==> strip_trailing(s, c).last() != c,
    decreases s.len(),
{
    if s.len() > 0 && s.last() == c {
        lemma_strip_trailing(s.drop_last(), c);
        let k = choose|k: int| 0 <= k <= s.drop_last().len() && strip_trailing(s.drop_last(), c) == s.drop_last().subrange(0, k);
        assert(s.drop_last().subrange(0, k) =~= s.subrange(0, k));
    } else {
        assert(s.subrange(0, s.len() as int) =~= s);
    }
}

/// A repository slug is filesystem-safe: it holds only alphanumerics and
/// `-`, and neither starts nor ends with `-`.
pub proof fn lemma_repo_slug_is_safe(url: Seq<char>)
    ensures
        forall|i: int| 0 <= i < spec_repo_slug(url).len() ==> unicode_alphanumeric(#[trigger] spec_repo_slug(url)[i])
            || spec_repo_slug(url)[i] == '-',
        spec_repo_slug(url).len() > 0 ==> spec_repo_slug(url)[0] != '-' && spec_repo_slug(url).last() != '-',
{
    let u = url.skip(scheme_end(url));
    let m = u.map_values(|c: char| slug_char(c));
    let l = strip_leading(m, '-');
    let r = strip_trailing(l, '-');
    lemma_strip_leading(m, '-');
    lemma_strip_trailing(l, '-');
    let k1 = choose|k: int| 0 <= k <= m.len() && l == m.subrange(k, m.len() as int);
    let k2 = choose|k: int| 0 <= k <= l.len() && r == l.subrange(0, k);
    assert forall|i: int| 0 <= i < r.len() implies unicode_alphanumeric(#[trigger] r[i]) || r[i] == '-' by {
        assert(r[i] == l[i]);
        assert(l[i] == m[k1 + i]);
        assert(m[k1 + i] == slug_char(u[k1 + i]));
    }
    if r.len() > 0 {
        assert(r[0] == l[0]);
    }
}

/// A repository slug is its own slug: slugging an already-safe slug
/// changes nothing.
pub proof fn lemma_repo_slug_is_fixed_point(url: Seq<char>)
    ensures
        spec_repo_slug(spec_repo_slug(url)) == spec_repo_slug(url),
{
    let s = spec_repo_slug(url);
    lemma_repo_slug_is_safe(url);
    assert forall|i: int| 0 <= i < s.len() implies #[trigger] s[i] != ':' by {
        if s[i] == ':' {
            assert(!unicode_alphanumeric(s[i]));
        }
    }
    assert(!exists|i: int| first_scheme_sep(s, i)) by {
        if exists|i: int| first_scheme_sep(s, i) {
            let i = choose|i: int| first_scheme_sep(s, i);
            assert(s[i] == ':');
        }
    }
    assert(s.skip(0) =~= s);
    let m = s.map_values(|c: char| slug_char(c));
    assert(m =~= s) by {
        assert forall|i: int| 0 <= i < s.len() implies m[i] == s[i] by {
            assert(unicode_alphanumeric(s[i]) || s[i] == '-');
        }
    }
    assert(strip_leading(s, '-') == s);
    assert(strip_trailing(s, '-') == s);
}

/// Convert a repo URL to a filesystem-safe slug.
///
/// e.g. `https://github.com/microsoft/playwright-cli` → `github-com-microsoft-playwright-cli`
pub fn repo_slug(url: &str) -> (r: String)
    ensures
        r@ == spec_repo_slug(url@),
{
    let v = chars_of(url);
    let start = find_scheme_end(&v);
    let mut mapped: Vec<char> = Vec::new();
    let mut i: usize = start;
    while i < v.len()
        invariant
            start <= i <= v@.len(),
            mapped@ =~= v@.subrange(start as int, i as int).map_values(|c: char| slug_char(c)),
        decreases v@.len() - i,
    {
        let c = v[i];
        let keep = is_alphanumeric(c) || c == '-';
        mapped.push(if keep { c } else { '-' });
        proof {
            assert(v@.subrange(start as int, i + 1) =~= v@.subrange(start as int, i as int).push(c));
        }
        i += 1;
    }
    assert(v@.subrange(start as int, v@.len() as int) =~= v@.skip(start as int));
    let (a, b) = trim_char_bounds(&mapped, '-');
    string_from_range(&mapped, a, b)
}

// ── Sender slugs ────────────────────────────────────────────────────

/// A character of a sender slug: alphanumerics are lower-cased, anything
/// else becomes `-`.
pub open spec fn sender_char(c: char) -> char {
    if unicode_alphanumeric(c) {
        ascii_lower(c)
    } else {
        '-'
    }
}

/// `s` with every run of `-` collapsed to one.
pub open spec fn collapse_dashes(s: Seq<char>) -> Seq<char>
    decreases s.len(),
{
    if s.len() == 0 {
        s
    } else {
        let init = collapse_dashes(s.drop_last());
        if s.last() == '-' && init.len() > 0 && init.last() == '-' {
            init
        } else {
            init.push(s.last())
        }
    }
}

/// The slug of a sender identity: characters mapped by [`sender_char`],
/// runs of `-` collapsed, leading and trailing `-` trimmed.
pub open spec fn spec_sender_slug(sender: Seq<char>) -> Seq<char> {
    trim_char(collapse_dashes(sender.map_values(|c: char| sender_char(c))), '-')
}

/// A filesystem-safe slug for a sender identity, e.g. `"TG:user-123"` →
/// `"tg-user-123"`.
pub fn sender_slug(sender: &str) -> (r: String)
    ensures
        r@ == spec_sender_slug(sender@),
{
    let v = chars_of(sender);
    let mut out: Vec<char> = Vec::new();
    let mut i: usize = 0;
    while i < v.len()
        invariant
            i <= v@.len(),
            out@ == collapse_dashes(v@.take(i as int).map_values(|c: char| sender_char(c))),
        decreases v@.len() - i,
    {
        let c = v[i];
        let m = if is_alphanumeric(c) {
            to_ascii_lowercase(c)
        } else {
            '-'
        };
        proof {
            let mapped = v@.take(i + 1).map_values(|c: char| sender_char(c));
            assert(mapped.drop_last() =~= v@.take(i as int).map_values(|c: char| sender_char(c)));
            assert(mapped.last() == m);
        }
        if !(m == '-' && out.len() > 0 && out[out.len() - 1] == '-') {
            out.push(m);
        }
        i += 1;
    }
    assert(v@.take(v@.len() as int) =~= v@);
    let (a, b) = trim_char_bounds(&out, '-');
    string_from_range(&out, a, b)
}

/// Collapsing runs leaves no two adjacent `-`, and every character kept is
/// one of the input's.
proof fn lemma_collapse_dashes(s: Seq<char>)
    ensures
        forall|i: int| 0 <= i < collapse_dashes(s).len() - 1 ==> !(#[trigger] collapse_dashes(s)[i] == '-'
            && collapse_dashes(s)[i + 1] == '-'),
        forall|i: int| 0 <= i < collapse_dashes(s).len() ==> exists|j: int| 0 <= j < s.len() && #[trigger] collapse_dashes(s)[i] == s[j],
    decreases s.len(),
{
    if s.len() > 0 {
        let t = s.drop_last();
        lemma_collapse_dashes(t);
        let init = collapse_dashes(t);
        let c = collapse_dashes(s);
        assert forall|i: int| 0 <= i < c.len() implies exists|j: int| 0 <= j < s.len() && #[trigger] c[i] == s[j] by {
            if i < init.len() {
                let j = choose|j: int| 0 <= j < t.len() && init[i] == t[j];
                assert(c[i] == s[j]);
            } else {
                assert(c[i] == s[s.len() - 1]);
            }
        }
        assert forall|i: int| 0 <= i < c.len() - 1 implies !(#[trigger] c[i] == '-' && c[i + 1] == '-') by {
            if i + 1 < init.len() {
                assert(c[i] == init[i] && c[i + 1] == init[i + 1]);
            }
        }
    }
}

/// A sender slug is filesystem-safe: each character is `-` or the
/// lower-cased form of an alphanumeric character of the sender, no two
/// `-` are adjacent, and it neither starts nor ends with `-`.
pub proof fn lemma_sender_slug_is_safe(sender: Seq<char>)
    ensures
        forall|i: int| 0 <= i < spec_sender_slug(sender).len() ==> #[trigger] spec_sender_slug(sender)[i] == '-'
            || exists|j: int| 0 <= j < sender.len() && unicode_alphanumeric(sender[j])
                && spec_sender_slug(sender)[i] == ascii_lower(#[trigger] sender[j]),
        forall|i: int| 0 <= i < spec_sender_slug(sender).len() - 1 ==> !(#[trigger] spec_sender_slug(sender)[i] == '-'
            && spec_sender_slug(sender)[i + 1] == '-'),
        spec_sender_slug(sender).len() > 0 ==> spec_sender_slug(sender)[0] != '-'
            && spec_sender_slug(sender).last() != '-',
{
    let m = sender.map_values(|c: char| sender_char(c));
    let d = collapse_dashes(m);
    lemma_collapse_dashes(m);
    let l = strip_leading(d, '-');
    let r = strip_trailing(l, '-');
    lemma_strip_leading(d, '-');
    lemma_strip_trailing(l, '-');
    let k1 = choose|k: int| 0 <= k <= d.len() && l == d.subrange(k, d.len() as int);
    let k2 = choose|k: int| 0 <= k <= l.len() && r == l.subrange(0, k);
    assert forall|i: int| 0 <= i < r.len() implies #[trigger] r[i] == '-' || exists|j: int| 0 <= j < sender.len()
        && unicode_alphanumeric(sender[j]) && r[i] == ascii_lower(#[trigger] sender[j]) by {
        assert(r[i] == l[i]);
        assert(l[i] == d[k1 + i]);
        let j = choose|j: int| 0 <= j < m.len() && d[k1 + i] == m[j];
        assert(m[j] == sender_char(sender[j]));
    }
    assert forall|i: int| 0 <= i < r.len() - 1 implies !(#[trigger] r[i] == '-' && r[i + 1] == '-') by {
        assert(r[i] == d[k1 + i]);
        assert(r[i + 1] == d[k1 + i + 1]);
    }
    if r.len() > 0 {
        assert(r[0] == l[0]);
    }
}

// ── Path components ─────────────────────────────────────────────────

/// `[seg]` when `seg` is a normal path component (not empty, not `.`).
pub open spec fn normal_component(seg: Seq<char>) -> Seq<Seq<char>> {
    if seg.len() == 0 || seg == seq!['.'] {
        Seq::empty()
    } else {
        seq![seg]
    }
}

/// The normal components of `p[start..]`, scanning from `i`.
pub open spec fn components_from(p: Seq<char>, start: int, i: int) -> Seq<Seq<char>>
    decreases p.len() - i,
{
    if i >= p.len() || i < 0 {
        if 0 <= start <= p.len() {
            normal_component(p.subrange(start, p.len() as int))
        } else {
            Seq::empty()
        }
    } else if p[i] == '/' {
        normal_component(p.subrange(start, i)) + components_from(p, i + 1, i + 1)
    } else {
        components_from(p, start, i + 1)
    }
}

/// The components of a Unix path, each as it reads (`Path::components`):
/// a leading `/` is the root `"/"`, a leading `.` segment is `"."`, empty
/// and other `.` segments are skipped.
pub open spec fn path_components(p: Seq<char>) -> Seq<Seq<char>> {
    if p.len() == 0 {
        Seq::empty()
    } else if p[0] == '/' {
        seq![seq!['/']] + components_from(p, 1, 1)
    } else if p[0] == '.' && (p.len() == 1 || p[1] == '/') {
        seq![seq!['.']] + components_from(p, 1, 1)
    } else {
        components_from(p, 0, 0)
    }
}

/// The external source named by a skill directory `~/.<name>/skills`: the
/// component before the last, without its leading `.`; `None` when the last
/// component is not `skills`, or the one before it is missing or does not
/// start with `.`.
pub open spec fn spec_external_source_name(p: Seq<char>) -> Option<Seq<char>> {
    let comps = path_components(p);
    if comps.len() >= 2 && comps.last() == "skills"@ && comps[comps.len() - 2].len() > 0
        && comps[comps.len() - 2][0] == '.' {
        Some(comps[comps.len() - 2].drop_first())
    } else {
        None
    }
}

/// The character ranges of `ranges` read in `p`.
pub open spec fn ranges_view(p: Seq<char>, ranges: Seq<(usize, usize)>) -> Seq<Seq<char>> {
    ranges.map_values(|r: (usize, usize)| p.subrange(r.0 as int, r.1 as int))
}

/// Every range of `ranges` lies inside `0..n`.
pub open spec fn ranges_within(ranges: Seq<(usize, usize)>, n: int) -> bool {
    forall|k: int| 0 <= k < ranges.len() ==> #[trigger] ranges[k].0 <= ranges[k].1 <= n
}

/// Appends the range of `p[start..i]` when it is a normal component.
#[verifier::spinoff_prover]
fn push_component(v: &Vec<char>, start: usize, i: usize, out: &mut Vec<(usize, usize)>)
    requires
        start <= i <= v@.len(),
        ranges_within(old(out)@, v@.len() as int),
    ensures
        ranges_view(v@, final(out)@) == ranges_view(v@, old(out)@) + normal_component(
            v@.subrange(start as int, i as int),
        ),
        ranges_within(final(out)@, v@.len() as int),
{
    let is_dot = i > start && i - start == 1 && v[start] == '.';
    let ghost seg = v@.subrange(start as int, i as int);
    if i > start && !is_dot {
        out.push((start, i));
        assert forall|k: int| 0 <= k < out@.len() implies #[trigger] out@[k].0 <= out@[k].1 <= v@.len() by {
            if k < old(out)@.len() {
                assert(out@[k] == old(out)@[k]);
            } else {
                assert(out@[k] == (start, i));
            }
        }
        assert(seg != seq!['.']) by {
            if seg.len() == 1 {
                assert(seg[0] == v@[start as int]);
                assert(seq!['.'][0] == '.');
            } else {
                assert(seq!['.'].len() == 1);
            }
        }
        assert(ranges_view(v@, out@) =~= ranges_view(v@, old(out)@) + seq![seg]);
        assert(ranges_within(out@, v@.len() as int));
    } else {
        if is_dot {
            assert(seg =~= seq!['.']);
        }
        assert(ranges_view(v@, out@) =~= ranges_view(v@, old(out)@));
        assert(out@ == old(out)@);
    }
}

/// Derive the external source name from a skill directory path.
///
/// For `~/.codex/skills` the source name is `"codex"` (the parent
/// directory name with the leading `.` stripped). Returns `None` for
/// paths that don't match the `~/.<name>/skills` pattern.
pub fn external_source_name<'a>(path: &'a str) -> (r: Option<&'a str>)
    ensures
        r matches Some(s) ==> spec_external_source_name(path@) == Some(s@),
        r is None <==> spec_external_source_name(path@) is None,
{
    let v = chars_of(path);
    let ghost p = v@;
    let mut comps: Vec<(usize, usize)> = Vec::new();
    let mut start: usize;
    if v.len() == 0 {
        assert(path_components(p) =~= Seq::<Seq<char>>::empty());
        return None;
    }
    if v[0] == '/' || (v[0] == '.' && (v.len() == 1 || v[1] == '/')) {
        comps.push((0, 1));
        assert(ranges_view(p, comps@)[0] =~= seq![v@[0]]);
        start = 1;
    } else {
        start = 0;
    }
    let ghost head = ranges_view(p, comps@);
    assert(path_components(p) == head + components_from(p, start as int, start as int));
    let mut i = start;
    while i < v.len()
        invariant
            p == v@,
            p == path@,
            start <= i <= p.len(),
            ranges_view(p, comps@) + components_from(p, start as int, i as int) == path_components(p),
            ranges_within(comps@, p.len() as int),
        decreases p.len() - i,
    {
        if v[i] == '/' {
            let ghost before = ranges_view(p, comps@);
            push_component(&v, start, i, &mut comps);
            assert(before + (normal_component(p.subrange(start as int, i as int)) + components_from(
                p,
                i + 1,
                i + 1,
            )) =~= ranges_view(p, comps@) + components_from(p, i + 1, i + 1));
            i += 1;
            start = i;
        } else {
            i += 1;
        }
    }
    push_component(&v, start, v.len(), &mut comps);
    let ghost cs = path_components(p);
    assert(ranges_view(p, comps@) =~= cs);
    let n = comps.len();
    if n < 2 {
        return None;
    }
    let (c, d) = comps[n - 1];
    assert(cs[n - 1] == p.subrange(c as int, d as int));
    let last = string_from_range(&v, c, d);
    if !crate::model::str_eq(last.as_str(), "skills") {
        return None;
    }
    let (a, b) = comps[n - 2];
    assert(cs[n - 2] == p.subrange(a as int, b as int));
    if a < b && v[a] == '.' {
        let r = path.substring_char(a + 1, b);
        assert(r@ =~= cs[n - 2].drop_first());
        Some(r)
    } else {
        None
    }
}

// ── Package manifests ───────────────────────────────────────────────

/// What a package TOML holds that is read at boot: its `[package]` table,
/// and the MCP servers and agents it ships (each table in key order).
pub struct PackageManifest {
    pub package: Option<PackageMeta>,
    pub mcps: Vec<(String, McpServerConfig)>,
    pub agents: Vec<(String, AgentConfig)>,
}

/// Directories and packaged content discovered at startup.
pub struct ResolvedDirs {
    /// Skill directories to scan (local first, then packages, then external).
    pub skill_dirs: Vec<String>,
    /// Agent directories to scan (local first, then packages).
    pub agent_dirs: Vec<String>,
    /// Package id → skill directory.
    pub package_skill_dirs: NameTable<String>,
    /// MCP servers shipped by packages; the first package to ship a name wins.
    pub package_mcps: NameTable<McpServerConfig>,
    /// Agents shipped by packages; the first package to ship a name wins.
    pub package_agents: NameTable<AgentConfig>,
}

impl ResolvedDirs {
    pub open spec fn wf(&self) -> bool {
        self.package_skill_dirs.wf() && self.package_mcps.wf() && self.package_agents.wf()
    }

    /// Nothing discovered yet.
    pub fn new() -> (r: ResolvedDirs)
        ensures
            r.wf(),
            r.skill_dirs@.len() == 0,
            r.agent_dirs@.len() == 0,
            r.package_skill_dirs@ == Map::<Seq<char>, String>::empty(),
            r.package_mcps@ == Map::<Seq<char>, McpServerConfig>::empty(),
            r.package_agents@ == Map::<Seq<char>, AgentConfig>::empty(),
    {
        ResolvedDirs {
            skill_dirs: Vec::new(),
            agent_dirs: Vec::new(),
            package_skill_dirs: NameTable::new(),
            package_mcps: NameTable::new(),
            package_agents: NameTable::new(),
        }
    }
}

/// The id of a package from its manifest's file name under `packages/`.
pub fn package_id(source: &str) -> (r: String)
    ensures
        r@ == if ".toml"@.is_suffix_of(source@) {
            source@.take(source@.len() - 5)
        } else {
            source@
        },
{
    let v = chars_of(source);
    let suffix = chars_of(".toml");
    proof {
        reveal_strlit(".toml");
    }
    let n = v.len();
    if n >= 5 && v[n - 5] == '.' && v[n - 4] == 't' && v[n - 3] == 'o' && v[n - 2] == 'm' && v[n - 1] == 'l' {
        assert(".toml"@.is_suffix_of(source@)) by {
            assert(source@.subrange(n - 5, n as int) =~= ".toml"@);
        }
        string_from_range(&v, 0, n - 5)
    } else {
        proof {
            if ".toml"@.is_suffix_of(source@) {
                assert(source@.subrange(n - 5, n as int) == ".toml"@);
                assert(source@.subrange(n - 5, n as int)[0] == source@[n - 5]);
                assert(source@.subrange(n - 5, n as int)[1] == source@[n - 4]);
                assert(source@.subrange(n - 5, n as int)[2] == source@[n - 3]);
                assert(source@.subrange(n - 5, n as int)[3] == source@[n - 2]);
                assert(source@.subrange(n - 5, n as int)[4] == source@[n - 1]);
            }
        }
        string_of(source)
    }
}

/// Whether `r` is the packaged server `v` declared under key `k`: its name
/// defaults to the key, nothing else changes.
pub open spec fn named_mcp(k: Seq<char>, v: McpServerConfig, r: McpServerConfig) -> bool {
    &&& r.name@ == (if v.name@.len() == 0 { k } else { v.name@ })
    &&& r.command == v.command
    &&& r.args == v.args
    &&& r.env == v.env
    &&& r.url == v.url
    &&& r.auth == v.auth
    &&& r.auto_restart == v.auto_restart
}

/// Whether `r` is the packaged agent `v` declared under key `k`: it takes
/// the key as its name.
pub open spec fn named_agent(k: Seq<char>, v: AgentConfig, r: AgentConfig) -> bool {
    &&& r.name@ == k
    &&& r.description == v.description
    &&& r.system_prompt == v.system_prompt
    &&& r.model == v.model
    &&& r.max_iterations == v.max_iterations
    &&& r.tool_choice == v.tool_choice
    &&& r.thinking == v.thinking
}

/// After merging `entries` into `before`: a name already known keeps its
/// value; a new name gets its entry's value, related by `rel`.
pub open spec fn merged_first_wins<V>(
    before: Map<Seq<char>, V>,
    after: Map<Seq<char>, V>,
    entries: Seq<(String, V)>,
    rel: spec_fn(Seq<char>, V, V) -> bool,
) -> bool {
    &&& forall|k: Seq<char>| #[trigger] after.dom().contains(k) <==> (before.dom().contains(k) || has_key(entries, k))
    &&& forall|k: Seq<char>| before.dom().contains(k) ==> #[trigger] after[k] == before[k]
    &&& forall|i: int| 0 <= i < entries.len() && !before.dom().contains(#[trigger] entries[i].0@)
        ==> rel(entries[i].0@, entries[i].1, after[entries[i].0@])
}

/// Take the MCP servers and agents a package ships: a name already
/// resolved (from an earlier package) keeps its first definition. Returns
/// the package's repository when it names one, for locating its cached
/// checkout.
pub fn merge_package_manifest(resolved: &mut ResolvedDirs, manifest: PackageManifest) -> (r: Option<String>)
    requires
        old(resolved).wf(),
        keys_distinct(manifest.mcps@),
        keys_distinct(manifest.agents@),
    ensures
        final(resolved).wf(),
        final(resolved).skill_dirs == old(resolved).skill_dirs,
        final(resolved).agent_dirs == old(resolved).agent_dirs,
        final(resolved).package_skill_dirs == old(resolved).package_skill_dirs,
        merged_first_wins(old(resolved).package_mcps@, final(resolved).package_mcps@, manifest.mcps@,
            |k: Seq<char>, v: McpServerConfig, r: McpServerConfig| named_mcp(k, v, r)),
        merged_first_wins(old(resolved).package_agents@, final(resolved).package_agents@, manifest.agents@,
            |k: Seq<char>, v: AgentConfig, r: AgentConfig| named_agent(k, v, r)),
        r == match manifest.package {
            Some(p) => if p.repository@.len() == 0 { None } else { Some(p.repository) },
            None => None,
        },
{
    let PackageManifest { package, mcps, agents } = manifest;
    let ghost m0 = resolved.package_mcps@;
    let ghost es = mcps@;
    let mut rest = mcps;
    let mut taken: usize = 0;
    let total = rest.len();
    while rest.len() > 0
        invariant
            resolved.package_mcps.wf(),
            resolved.package_agents == old(resolved).package_agents,
            resolved.package_skill_dirs == old(resolved).package_skill_dirs,
            resolved.skill_dirs == old(resolved).skill_dirs,
            resolved.agent_dirs == old(resolved).agent_dirs,
            old(resolved).wf(),
            keys_distinct(es),
            total == es.len(),
            taken + rest@.len() == total,
            rest@ == es.subrange(taken as int, es.len() as int),
            merged_first_wins(m0, resolved.package_mcps@, es.take(taken as int),
                |k: Seq<char>, v: McpServerConfig, r: McpServerConfig| named_mcp(k, v, r)),
            forall|k: Seq<char>| has_key(es.take(taken as int), k) ==> #[trigger] resolved.package_mcps@.dom().contains(k),
        decreases rest@.len(),
    {
        let (key, server) = rest.remove(0);
        let ghost j = taken as int;
        assert(es[j] == (key, server));
        let known = resolved.package_mcps.contains_key(key.as_str());
        if !known {
            let name = if server.name.as_str().is_empty() { key.clone() } else { server.name };
            let filled = McpServerConfig {
                name,
                command: server.command,
                args: server.args,
                env: server.env,
                url: server.url,
                auth: server.auth,
                auto_restart: server.auto_restart,
            };
            resolved.package_mcps.insert(key, filled);
        }
        proof {
            let t = es.take(j);
            let t2 = es.take(j + 1);
            assert(t2 =~= t.push(es[j]));
            assert forall|k: Seq<char>| has_key(t2, k) <==> (has_key(t, k) || k == es[j].0@) by {
                if has_key(t2, k) {
                    let w = choose|w: int| 0 <= w < t2.len() && #[trigger] t2[w].0@ == k;
                    if w < t.len() {
                        assert(t[w].0@ == k);
                    }
                }
                if has_key(t, k) {
                    let w = choose|w: int| 0 <= w < t.len() && #[trigger] t[w].0@ == k;
                    assert(t2[w].0@ == k);
                }
                if k == es[j].0@ {
                    assert(t2[j].0@ == k);
                }
            }
            assert forall|i: int| 0 <= i < t2.len() && !m0.dom().contains(#[trigger] t2[i].0@) implies named_mcp(
                t2[i].0@,
                t2[i].1,
                resolved.package_mcps@[t2[i].0@],
            ) by {
                if i < j {
                    assert(t2[i] == t[i]);
                    assert(es[i].0@ != es[j].0@);
                }
            }
        }
        taken += 1;
    }
    assert(es.take(total as int) =~= es);

    let ghost a0 = resolved.package_agents@;
    let ghost mcps_done = resolved.package_mcps;
    let ghost ea = agents@;
    let mut rest_a = agents;
    let mut taken_a: usize = 0;
    let total_a = rest_a.len();
    while rest_a.len() > 0
        invariant
            resolved.package_agents.wf(),
            resolved.package_mcps == mcps_done,
            mcps_done.wf(),
            merged_first_wins(m0, mcps_done@, es, |k: Seq<char>, v: McpServerConfig, r: McpServerConfig| named_mcp(k, v, r)),
            resolved.package_skill_dirs == old(resolved).package_skill_dirs,
            resolved.skill_dirs == old(resolved).skill_dirs,
            resolved.agent_dirs == old(resolved).agent_dirs,
            old(resolved).wf(),
            m0 == old(resolved).package_mcps@,
            a0 == old(resolved).package_agents@,
            keys_distinct(ea),
            total_a == ea.len(),
            taken_a + rest_a@.len() == total_a,
            rest_a@ == ea.subrange(taken_a as int, ea.len() as int),
            merged_first_wins(a0, resolved.package_agents@, ea.take(taken_a as int),
                |k: Seq<char>, v: AgentConfig, r: AgentConfig| named_agent(k, v, r)),
            forall|k: Seq<char>| has_key(ea.take(taken_a as int), k) ==> #[trigger] resolved.package_agents@.dom().contains(k),
        decreases rest_a@.len(),
    {
        let (key, agent) = rest_a.remove(0);
        let ghost j = taken_a as int;
        assert(ea[j] == (key, agent));
        let known = resolved.package_agents.contains_key(key.as_str());
        if !known {
            let mut named = agent;
            named.name = key.clone();
            resolved.package_agents.insert(key, named);
        }
        proof {
            let t = ea.take(j);
            let t2 = ea.take(j + 1);
            assert(t2 =~= t.push(ea[j]));
            assert forall|k: Seq<char>| has_key(t2, k) <==> (has_key(t, k) || k == ea[j].0@) by {
                if has_key(t2, k) {
                    let w = choose|w: int| 0 <= w < t2.len() && #[trigger] t2[w].0@ == k;
                    if w < t.len() {
                        assert(t[w].0@ == k);
                    }
                }
                if has_key(t, k) {
                    let w = choose|w: int| 0 <= w < t.len() && #[trigger] t[w].0@ == k;
                    assert(t2[w].0@ == k);
                }
                if k == ea[j].0@ {
                    assert(t2[j].0@ == k);
                }
            }
            assert forall|i: int| 0 <= i < t2.len() && !a0.dom().contains(#[trigger] t2[i].0@) implies named_agent(
                t2[i].0@,
                t2[i].1,
                resolved.package_agents@[t2[i].0@],
            ) by {
                if i < j {
                    assert(t2[i] == t[i]);
                    assert(ea[i].0@ != ea[j].0@);
                }
            }
        }
        taken_a += 1;
    }
    assert(ea.take(total_a as int) =~= ea);

    match package {
        Some(p) => if p.repository.as_str().is_empty() {
            None
        } else {
            Some(p.repository)
        },
        None => None,
    }
}

/// Record a package's cached checkout: its skills, its id's skill
/// directory, and its agents directory when it has one.
pub fn add_package_repo(resolved: &mut ResolvedDirs, package_id: String, repo_dir: String, agents_dir: Option<String>)
    requires
        old(resolved).wf(),
    ensures
        final(resolved).wf(),
        final(resolved).skill_dirs@ == old(resolved).skill_dirs@.push(repo_dir),
        final(resolved).agent_dirs@ == match agents_dir {
            Some(a) => old(resolved).agent_dirs@.push(a),
            None => old(resolved).agent_dirs@,
        },
        final(resolved).package_skill_dirs@ == old(resolved).package_skill_dirs@.insert(package_id@, repo_dir),
        final(resolved).package_mcps == old(resolved).package_mcps,
        final(resolved).package_agents == old(resolved).package_agents,
{
    resolved.skill_dirs.push(repo_dir.clone());
    resolved.package_skill_dirs.insert(package_id, repo_dir);
    match agents_dir {
        Some(a) => resolved.agent_dirs.push(a),
        None => {},
    }
}

// ── Local-first merge of agent files ────────────────────────────────

/// The stems of a list of `(stem, content)` pairs.
pub open spec fn stems(entries: Seq<(String, String)>) -> Seq<Seq<char>> {
    entries.map_values(|e: (String, String)| e.0@)
}

/// Entries of `all` in order, keeping only the first entry of each stem.
pub open spec fn first_of_each(all: Seq<(String, String)>) -> Seq<(String, String)>
    decreases all.len(),
{
    if all.len() == 0 {
        Seq::empty()
    } else {
        let init = first_of_each(all.drop_last());
        if stems(init).contains(all.last().0@) {
            init
        } else {
            init.push(all.last())
        }
    }
}

/// Whether some entry of `entries` has the stem `stem`.
fn has_stem(entries: &Vec<(String, String)>, stem: &String) -> (r: bool)
    ensures
        r == stems(entries@).contains(stem@),
{
    let mut i: usize = 0;
    while i < entries.len()
        invariant
            i <= entries@.len(),
            forall|j: int| 0 <= j < i ==> stems(entries@)[j] != stem@,
        decreases entries@.len() - i,
    {
        if entries[i].0 == *stem {
            assert(stems(entries@)[i as int] == stem@);
            return true;
        }
        i += 1;
    }
    false
}

/// Concatenate the agents found in several directories, in directory order;
/// the first directory's agent wins a name conflict (local-first ordering).
pub fn merge_agent_lists(lists: Vec<Vec<(String, String)>>) -> (r: Vec<(String, String)>)
    ensures
        r@ == first_of_each(lists@.map_values(|l: Vec<(String, String)>| l@).flatten()),
{
    let ghost all = lists@.map_values(|l: Vec<(String, String)>| l@).flatten();
    let mut out: Vec<(String, String)> = Vec::new();
    let mut d: usize = 0;
    let ghost mut done: Seq<(String, String)> = Seq::empty();
    assert(lists@.map_values(|l: Vec<(String, String)>| l@).take(0).flatten() =~= done);
    while d < lists.len()
        invariant
            d <= lists@.len(),
            done == lists@.map_values(|l: Vec<(String, String)>| l@).take(d as int).flatten(),
            out@ == first_of_each(done),
            all == lists@.map_values(|l: Vec<(String, String)>| l@).flatten(),
        decreases lists@.len() - d,
    {
        let list = &lists[d];
        let mut j: usize = 0;
        let ghost base = done;
        while j < list.len()
            invariant
                j <= list@.len(),
                done == base + list@.take(j as int),
                out@ == first_of_each(done),
            decreases list@.len() - j,
        {
            let e = &list[j];
            let dup = has_stem(&out, &e.0);
            let ghost next = done.push(list@[j as int]);
            assert(next.drop_last() == done);
            if !dup {
                out.push((e.0.clone(), e.1.clone()));
            }
            proof {
                assert(base + list@.take(j + 1) =~= next);
                done = next;
            }
            j += 1;
        }
        proof {
            let ms = lists@.map_values(|l: Vec<(String, String)>| l@);
            assert(list@.take(list@.len() as int) =~= list@);
            assert(ms.take(d + 1) =~= ms.take(d as int).push(ms[d as int]));
            ms.take(d as int).lemma_flatten_push(ms[d as int]);
        }
        d += 1;
    }
    proof {
        let ms = lists@.map_values(|l: Vec<(String, String)>| l@);
        assert(ms.take(lists@.len() as int) =~= ms);
    }
    out
}

} // verus!
