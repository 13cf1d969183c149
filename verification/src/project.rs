//! Project layout: lexical path normalization, resolution of configured
//! paths against the project root, the project-local and overlap rules of
//! the canonical artifact root, and the project summary.  Paths are
//! `/`-separated text; what needs the filesystem stays with the host.

use vstd::prelude::*;
use crate::config::{BuildConfig, ProjectConfig, ProjectMetadata, PublishConfig, PublishTargetKind, SourceConfig};
use crate::error::{DiagnosticView, ErrorKind, MasterdataError, fresh_diagnostic};
use crate::text::{chars_of, string_from_chars};
use crate::text_order::{ascending_union, strictly_ascending, texts, union_ascending};

verus! {

/// The file name of the project marker.
pub const PROJECT_CONFIG_FILENAME: &'static str = "masterdata.toml";

pub open spec fn dot() -> Seq<char> {
    seq!['.']
}

pub open spec fn dot_dot() -> Seq<char> {
    seq!['.', '.']
}

/// Whether the path starts at the filesystem root.
pub open spec fn is_rooted(p: Seq<char>) -> bool {
    p.len() > 0 && p[0] == '/'
}

/// `parts` with `segment` added, unless the segment is empty or `.`.
pub open spec fn keep_segment(parts: Seq<Seq<char>>, segment: Seq<char>) -> Seq<Seq<char>> {
    if segment.len() == 0 || segment == dot() {
        parts
    } else {
        parts.push(segment)
    }
}

/// The kept segments of `p` that a `/` has closed, and the open one at its end.
pub open spec fn segment_scan(p: Seq<char>) -> (Seq<Seq<char>>, Seq<char>)
    decreases p.len(),
{
    if p.len() == 0 {
        (Seq::empty(), Seq::empty())
    } else {
        let (parts, open) = segment_scan(p.drop_last());
        if p.last() == '/' {
            (keep_segment(parts, open), Seq::empty())
        } else {
            (parts, open.push(p.last()))
        }
    }
}

/// The `/`-separated segments of `p`, without empty ones and `.`.
pub open spec fn path_parts(p: Seq<char>) -> Seq<Seq<char>> {
    keep_segment(segment_scan(p).0, segment_scan(p).1)
}

/// One step of lexical normalization: `..` removes the name before it; it
/// stays at the front of a relative path and is dropped at the root.
pub open spec fn norm_step(rooted: bool, acc: Seq<Seq<char>>, part: Seq<char>) -> Seq<Seq<char>> {
    if part == dot_dot() {
        if acc.len() > 0 && acc.last() != dot_dot() {
            acc.drop_last()
        } else if !rooted {
            acc.push(dot_dot())
        } else {
            acc
        }
    } else {
        acc.push(part)
    }
}

pub open spec fn norm_parts(rooted: bool, parts: Seq<Seq<char>>) -> Seq<Seq<char>>
    decreases parts.len(),
{
    if parts.len() == 0 {
        Seq::empty()
    } else {
        norm_step(rooted, norm_parts(rooted, parts.drop_last()), parts.last())
    }
}

/// The parts separated by `/`.
pub open spec fn joined_parts(parts: Seq<Seq<char>>) -> Seq<char>
    decreases parts.len(),
{
    if parts.len() == 0 {
        Seq::empty()
    } else if parts.len() == 1 {
        parts[0]
    } else {
        joined_parts(parts.drop_last()) + seq!['/'] + parts.last()
    }
}

pub open spec fn render_path(rooted: bool, parts: Seq<Seq<char>>) -> Seq<char> {
    if rooted {
        seq!['/'] + joined_parts(parts)
    } else {
        joined_parts(parts)
    }
}

/// The lexical normal form of `p`: no empty or `.` segments, and each `..`
/// resolved against the name before it.
pub open spec fn normalized(p: Seq<char>) -> Seq<char> {
    render_path(is_rooted(p), norm_parts(is_rooted(p), path_parts(p)))
}

/// `base` joined with the relative path `rest` (`Path::join`).
pub open spec fn path_join(base: Seq<char>, rest: Seq<char>) -> Seq<char> {
    if base.len() == 0 {
        rest
    } else if base.last() == '/' {
        base + rest
    } else {
        base + seq!['/'] + rest
    }
}

/// A configured path resolved against `root`, in normal form.
pub open spec fn resolved_path(root: Seq<char>, configured: Seq<char>) -> Seq<char> {
    if is_rooted(configured) {
        normalized(configured)
    } else {
        normalized(path_join(root, configured))
    }
}

/// Whether a relative path begins with a `.` segment.
pub open spec fn leading_current(p: Seq<char>) -> bool {
    !is_rooted(p) && p.len() > 0 && p[0] == '.' && (p.len() == 1 || p[1] == '/')
}

/// The components of `p` as `Path::components` yields them: the root (as
/// `/`), a leading `.`, then the parts.
pub open spec fn path_components(p: Seq<char>) -> Seq<Seq<char>> {
    (if is_rooted(p) {
        seq![seq!['/']]
    } else if leading_current(p) {
        seq![dot()]
    } else {
        Seq::empty()
    }) + path_parts(p)
}

/// `candidate` is `target` or one of its ancestors.
pub open spec fn ancestor_or_equal(candidate: Seq<char>, target: Seq<char>) -> bool {
    let c = path_components(candidate);
    let t = path_components(target);
    c.len() <= t.len() && t.take(c.len() as int) == c
}

pub open spec fn char_lists(v: Seq<Vec<char>>) -> Seq<Seq<char>> {
    v.map_values(|x: Vec<char>| x@)
}

fn push_segment(parts: &mut Vec<Vec<char>>, segment: Vec<char>)
    ensures
        char_lists(final(parts)@) == keep_segment(char_lists(old(parts)@), segment@),
{
    if segment.len() == 0 || (segment.len() == 1 && segment[0] == '.') {
        proof {
            if segment@.len() == 1 {
                assert(segment@ =~= dot());
            }
        }
        return;
    }
    let ghost seg = segment@;
    parts.push(segment);
    proof {
        assert(char_lists(parts@) =~= char_lists(old(parts)@).push(seg));
    }
}

fn split_parts(path: &Vec<char>) -> (parts: Vec<Vec<char>>)
    ensures
        char_lists(parts@) == path_parts(path@),
{
    let mut parts: Vec<Vec<char>> = Vec::new();
    let mut open: Vec<char> = Vec::new();
    let mut i: usize = 0;
    proof {
        assert(path@.take(0) =~= Seq::<char>::empty());
        assert(char_lists(parts@) =~= Seq::<Seq<char>>::empty());
    }
    while i < path.len()
        invariant
            i <= path@.len(),
            (char_lists(parts@), open@) == segment_scan(path@.take(i as int)),
        decreases path@.len() - i,
    {
        proof {
            assert(path@.take(i + 1).drop_last() =~= path@.take(i as int));
        }
        let c = path[i];
        if c == '/' {
            let segment = open;
            open = Vec::new();
            push_segment(&mut parts, segment);
        } else {
            open.push(c);
        }
        i = i + 1;
    }
    proof {
        assert(path@.take(path@.len() as int) =~= path@);
    }
    push_segment(&mut parts, open);
    parts
}

fn is_dot_dot(part: &Vec<char>) -> (result: bool)
    ensures
        result == (part@ == dot_dot()),
{
    let result = part.len() == 2 && part[0] == '.' && part[1] == '.';
    proof {
        if part@.len() == 2 && part@[0] == '.' && part@[1] == '.' {
            assert(part@ =~= dot_dot());
        }
    }
    result
}

fn normalize_parts(rooted: bool, parts: &Vec<Vec<char>>) -> (acc: Vec<Vec<char>>)
    ensures
        char_lists(acc@) == norm_parts(rooted, char_lists(parts@)),
{
    let mut acc: Vec<Vec<char>> = Vec::new();
    let mut i: usize = 0;
    proof {
        assert(char_lists(parts@).take(0) =~= Seq::<Seq<char>>::empty());
        assert(char_lists(acc@) =~= Seq::<Seq<char>>::empty());
    }
    while i < parts.len()
        invariant
            i <= parts@.len(),
            char_lists(acc@) == norm_parts(rooted, char_lists(parts@).take(i as int)),
        decreases parts@.len() - i,
    {
        let ghost before = char_lists(acc@);
        proof {
            assert(char_lists(parts@).take(i + 1).drop_last() =~= char_lists(parts@).take(i as int));
        }
        let part = &parts[i];
        if is_dot_dot(part) {
            let n = acc.len();
            if n > 0 && !is_dot_dot(&acc[n - 1]) {
                acc.pop();
                proof {
                    assert(char_lists(acc@) =~= before.drop_last());
                }
            } else if !rooted {
                acc.push(vec!['.', '.']);
                proof {
                    assert(char_lists(acc@) =~= before.push(dot_dot()));
                }
            }
        } else {
            acc.push(part.clone());
            proof {
                assert(char_lists(acc@) =~= before.push(part@));
            }
        }
        i = i + 1;
    }
    proof {
        assert(char_lists(parts@).take(parts@.len() as int) =~= char_lists(parts@));
    }
    acc
}

pub(crate) fn render_parts(rooted: bool, parts: &Vec<Vec<char>>) -> (text: String)
    ensures
        text@ == render_path(rooted, char_lists(parts@)),
{
    let mut out: Vec<char> = Vec::new();
    if rooted {
        out.push('/');
    }
    let ghost lead = out@;
    let mut i: usize = 0;
    proof {
        assert(char_lists(parts@).take(0) =~= Seq::<Seq<char>>::empty());
        assert(out@ =~= lead + joined_parts(Seq::<Seq<char>>::empty()));
    }
    while i < parts.len()
        invariant
            i <= parts@.len(),
            lead == (if rooted { seq!['/'] } else { Seq::<char>::empty() }),
            out@ == lead + joined_parts(char_lists(parts@).take(i as int)),
        decreases parts@.len() - i,
    {
        let ghost before = out@;
        let ghost prefix = char_lists(parts@).take(i as int);
        proof {
            assert(char_lists(parts@).take(i + 1).drop_last() =~= prefix);
        }
        if i > 0 {
            out.push('/');
        }
        let part = &parts[i];
        let mut k: usize = 0;
        let ghost mid = out@;
        while k < part.len()
            invariant
                k <= part@.len(),
                out@ == mid + part@.take(k as int),
            decreases part@.len() - k,
        {
            out.push(part[k]);
            proof {
                assert(part@.take(k + 1) =~= part@.take(k as int).push(part@[k as int]));
            }
            k = k + 1;
        }
        proof {
            assert(part@.take(part@.len() as int) =~= part@);
            let next = char_lists(parts@).take(i + 1);
            assert(next.last() == part@);
            if i == 0 {
                assert(out@ =~= lead + joined_parts(next));
            } else {
                assert(out@ =~= lead + joined_parts(next));
            }
        }
        i = i + 1;
    }
    proof {
        assert(char_lists(parts@).take(parts@.len() as int) =~= char_lists(parts@));
    }
    string_from_chars(out.as_slice())
}

/// The lexical normal form of `path`.
pub fn normalize_path(path: &str) -> (out: String)
    ensures
        out@ == normalized(path@),
{
    let chars = chars_of(path);
    let rooted = chars.len() > 0 && chars[0] == '/';
    let parts = split_parts(&chars);
    let acc = normalize_parts(rooted, &parts);
    render_parts(rooted, &acc)
}

/// `base` joined with the relative path `rest`.
pub fn join_path(base: &str, rest: &str) -> (out: String)
    ensures
        out@ == path_join(base@, rest@),
{
    let chars = chars_of(base);
    if chars.len() == 0 {
        return rest.to_owned();
    }
    let mut out = String::from_str(base);
    if chars[chars.len() - 1] != '/' {
        out.append("/");
        proof {
            reveal_strlit("/");
        }
    }
    out.append(rest);
    out
}

/// A configured path resolved against the project root: an absolute path
/// as it stands, a relative one joined to the root; both in normal form.
pub fn resolve_project_path(root: &str, configured: &str) -> (out: String)
    ensures
        out@ == resolved_path(root@, configured@),
{
    let chars = chars_of(configured);
    if chars.len() > 0 && chars[0] == '/' {
        normalize_path(configured)
    } else {
        let joined = join_path(root, configured);
        normalize_path(joined.as_str())
    }
}

/// `path` made absolute against `base`, in normal form.
pub fn absolute_path(path: &str, base: &str) -> (out: String)
    ensures
        out@ == resolved_path(base@, path@),
{
    resolve_project_path(base, path)
}

pub(crate) fn components_of(path: &str) -> (comps: Vec<Vec<char>>)
    ensures
        char_lists(comps@) == path_components(path@),
{
    let chars = chars_of(path);
    let mut comps: Vec<Vec<char>> = Vec::new();
    let n = chars.len();
    if n > 0 && chars[0] == '/' {
        let mut root: Vec<char> = Vec::new();
        root.push('/');
        comps.push(root);
    } else if n > 0 && chars[0] == '.' && (n == 1 || chars[1] == '/') {
        let mut current: Vec<char> = Vec::new();
        current.push('.');
        comps.push(current);
    }
    let ghost lead = char_lists(comps@);
    proof {
        assert(lead =~= (if is_rooted(path@) {
            seq![seq!['/']]
        } else if leading_current(path@) {
            seq![dot()]
        } else {
            Seq::<Seq<char>>::empty()
        }));
    }
    let parts = split_parts(&chars);
    comps.append(&mut parts.clone());
    proof {
        assert(char_lists(comps@) =~= lead + char_lists(parts@));
    }
    comps
}

fn char_lists_equal(a: &Vec<char>, b: &Vec<char>) -> (equal: bool)
    ensures
        equal == (a@ == b@),
{
    if a.len() != b.len() {
        return false;
    }
    let mut i: usize = 0;
    while i < a.len()
        invariant
            a@.len() == b@.len(),
            i <= a@.len(),
            forall|j: int| 0 <= j < i ==> a@[j] == b@[j],
        decreases a@.len() - i,
    {
        if a[i] != b[i] {
            return false;
        }
        i = i + 1;
    }
    proof {
        assert(a@ =~= b@);
    }
    true
}

/// Whether `candidate` is `target` or one of its ancestors, by components.
pub fn is_path_ancestor_or_equal(candidate: &str, target: &str) -> (result: bool)
    ensures
        result == ancestor_or_equal(candidate@, target@),
{
    let c = components_of(candidate);
    let t = components_of(target);
    if c.len() > t.len() {
        return false;
    }
    let mut i: usize = 0;
    while i < c.len()
        invariant
            c@.len() <= t@.len(),
            char_lists(c@) == path_components(candidate@),
            char_lists(t@) == path_components(target@),
            i <= c@.len(),
            forall|j: int| 0 <= j < i ==> char_lists(c@)[j] == char_lists(t@)[j],
        decreases c@.len() - i,
    {
        if !char_lists_equal(&c[i], &t[i]) {
            proof {
                assert(char_lists(t@).take(c@.len() as int)[i as int] != char_lists(c@)[i as int]);
                assert(char_lists(t@).take(c@.len() as int) != char_lists(c@));
            }
            return false;
        }
        i = i + 1;
    }
    proof {
        assert(char_lists(t@).take(c@.len() as int) =~= char_lists(c@));
    }
    true
}

/// Whether one of the paths contains the other.
pub fn paths_overlap(left: &str, right: &str) -> (result: bool)
    ensures
        result == (ancestor_or_equal(left@, right@) || ancestor_or_equal(right@, left@)),
{
    is_path_ancestor_or_equal(left, right) || is_path_ancestor_or_equal(right, left)
}

/// The diagnostic of a project path that the layout rules refuse.
pub open spec fn unsafe_path_failure(path: Seq<char>, message: Seq<char>) -> DiagnosticView {
    DiagnosticView {
        source: Some(path),
        related_requirements: seq!["PROJECT-PATH-001"@, "BUILD-ARTIFACT-001"@],
        ..fresh_diagnostic("E-PROJECT-PATH-UNSAFE"@, ErrorKind::Config, message)
    }
}

fn unsafe_project_path_error(path: &str, message: &str) -> (error: MasterdataError)
    ensures
        error@ == unsafe_path_failure(path@, message@),
{
    let error = MasterdataError::new("E-PROJECT-PATH-UNSAFE", ErrorKind::Config, message)
        .with_source(path)
        .with_related_requirement("PROJECT-PATH-001")
        .with_related_requirement("BUILD-ARTIFACT-001");
    proof {
        assert(error@.related_requirements =~= seq!["PROJECT-PATH-001"@, "BUILD-ARTIFACT-001"@]);
    }
    error
}

/// A configured path that must stay inside the project: relative, and
/// resolving strictly below the root.
pub open spec fn project_local_path(root: Seq<char>, configured: Seq<char>, field: Seq<char>) -> Result<Seq<char>, DiagnosticView> {
    if is_rooted(configured) {
        Err(unsafe_path_failure(configured, field + " must be a project-local relative path"@))
    } else {
        let resolved = resolved_path(root, configured);
        if path_components(resolved) == path_components(root) || !ancestor_or_equal(root, resolved) {
            Err(unsafe_path_failure(resolved, field + " must remain inside the project root"@))
        } else {
            Ok(resolved)
        }
    }
}

/// Resolves a configured path that must stay strictly inside the project root.
pub fn resolve_project_local_path(root: &str, configured: &str, field: &str) -> (result: Result<String, MasterdataError>)
    ensures
        match result {
            Ok(path) => project_local_path(root@, configured@, field@) == Ok::<Seq<char>, DiagnosticView>(path@),
            Err(e) => project_local_path(root@, configured@, field@) == Err::<Seq<char>, DiagnosticView>(e@),
        },
{
    let chars = chars_of(configured);
    if chars.len() > 0 && chars[0] == '/' {
        let mut message = String::from_str(field);
        message.append(" must be a project-local relative path");
        return Err(unsafe_project_path_error(configured, message.as_str()));
    }
    let resolved = resolve_project_path(root, configured);
    let same = is_path_ancestor_or_equal(resolved.as_str(), root) && is_path_ancestor_or_equal(root, resolved.as_str());
    proof {
        let r = path_components(resolved@);
        let q = path_components(root@);
        if ancestor_or_equal(resolved@, root@) && ancestor_or_equal(root@, resolved@) {
            assert(r =~= q);
        }
    }
    if same || !is_path_ancestor_or_equal(root, resolved.as_str()) {
        let mut message = String::from_str(field);
        message.append(" must remain inside the project root");
        return Err(unsafe_project_path_error(resolved.as_str(), message.as_str()));
    }
    Ok(resolved)
}

/// The resolved path of the first source root that overlaps `artifact_root`.
pub open spec fn first_overlapping_root(root: Seq<char>, artifact_root: Seq<char>, sources: Seq<Seq<char>>) -> Option<Seq<char>>
    decreases sources.len(),
{
    if sources.len() == 0 {
        None
    } else {
        let source = resolved_path(root, sources[0]);
        if ancestor_or_equal(artifact_root, source) || ancestor_or_equal(source, artifact_root) {
            Some(source)
        } else {
            first_overlapping_root(root, artifact_root, sources.drop_first())
        }
    }
}

/// The artifact root must not contain or lie inside a source root or the
/// build cache; the first conflict, sources before the cache, is reported.
pub open spec fn artifact_overlap_failure(root: Seq<char>, config: ProjectConfig, artifact_root: Seq<char>) -> Option<DiagnosticView> {
    match first_overlapping_root(root, artifact_root, config.sources.roots.deep_view()) {
        Some(source) => Some(unsafe_path_failure(
            artifact_root,
            "canonical artifact root overlaps configured source root `"@ + source + "`"@,
        )),
        None => {
            let cache = resolved_path(root, config.build.cache@);
            if ancestor_or_equal(artifact_root, cache) || ancestor_or_equal(cache, artifact_root) {
                Some(unsafe_path_failure(artifact_root, "canonical artifact root overlaps build cache `"@ + cache + "`"@))
            } else {
                None
            }
        },
    }
}

fn quoted_path_message(prefix: &str, path: &str) -> (message: String)
    ensures
        message@ == prefix@ + path@ + "`"@,
{
    let mut message = String::from_str(prefix);
    message.append(path);
    message.append("`");
    message
}

/// Checks that the artifact root overlaps neither a source root nor the cache.
pub fn check_artifact_root_overlaps(root: &str, config: &ProjectConfig, artifact_root: &str) -> (result: Result<(), MasterdataError>)
    ensures
        match result {
            Ok(()) => artifact_overlap_failure(root@, *config, artifact_root@) is None,
            Err(e) => artifact_overlap_failure(root@, *config, artifact_root@) == Some(e@),
        },
{
    let roots = &config.sources.roots;
    let ghost all = roots.deep_view();
    let mut i: usize = 0;
    proof {
        assert(all.skip(0) =~= all);
    }
    while i < roots.len()
        invariant
            i <= roots@.len(),
            all == roots.deep_view(),
            all == config.sources.roots.deep_view(),
            roots@ == config.sources.roots@,
            all.len() == roots@.len(),
            first_overlapping_root(root@, artifact_root@, all) == first_overlapping_root(root@, artifact_root@, all.skip(i as int)),
        decreases roots@.len() - i,
    {
        let source = resolve_project_path(root, roots[i].as_str());
        proof {
            assert(all[i as int] == roots@[i as int]@);
            assert(all.skip(i as int).drop_first() =~= all.skip(i + 1));
            assert(all.skip(i as int)[0] == all[i as int]);
        }
        if paths_overlap(artifact_root, source.as_str()) {
            let message = quoted_path_message("canonical artifact root overlaps configured source root `", source.as_str());
            proof {
                assert(first_overlapping_root(root@, artifact_root@, all.skip(i as int)) == Some(source@));
            }
            return Err(unsafe_project_path_error(artifact_root, message.as_str()));
        }
        i = i + 1;
    }
    proof {
        assert(all.skip(i as int).len() == 0);
        assert(first_overlapping_root(root@, artifact_root@, all) is None);
    }
    let cache = resolve_project_path(root, config.build.cache.as_str());
    if paths_overlap(artifact_root, cache.as_str()) {
        let message = quoted_path_message("canonical artifact root overlaps build cache `", cache.as_str());
        return Err(unsafe_project_path_error(artifact_root, message.as_str()));
    }
    Ok(())
}

/// The text of the components before the last one; `.` when there is no
/// such parent (`Path::parent`, or `.` where it has none).
pub open spec fn parent_text(p: Seq<char>) -> Seq<char> {
    let comps = path_components(p);
    if comps.len() == 0 || (comps.len() == 1 && is_rooted(p)) {
        seq!['.']
    } else if is_rooted(p) {
        render_path(true, path_parts(p).drop_last())
    } else if leading_current(p) {
        if path_parts(p).len() == 0 {
            Seq::empty()
        } else {
            render_path(false, seq![dot()] + path_parts(p).drop_last())
        }
    } else {
        render_path(false, path_parts(p).drop_last())
    }
}

/// The project root: the directory that holds the configuration file.
pub fn project_root_of(config_path: &str) -> (root: String)
    ensures
        root@ == parent_text(config_path@),
{
    let chars = chars_of(config_path);
    let n = chars.len();
    let rooted = n > 0 && chars[0] == '/';
    let current = !rooted && n > 0 && chars[0] == '.' && (n == 1 || chars[1] == '/');
    let mut parts = split_parts(&chars);
    let count = parts.len();
    if count == 0 {
        if current {
            return String::new();
        }
        let mut dot_text = String::new();
        crate::text::push_char(&mut dot_text, '.');
        proof {
            assert(dot_text@ =~= seq!['.']);
        }
        return dot_text;
    }
    let ghost all_parts = char_lists(parts@);
    parts.pop();
    proof {
        assert(char_lists(parts@) =~= all_parts.drop_last());
        assert(all_parts == path_parts(config_path@));
        assert(chars@ == config_path@);
    }
    if current {
        let mut with_dot: Vec<Vec<char>> = Vec::new();
        let mut d: Vec<char> = Vec::new();
        d.push('.');
        with_dot.push(d);
        let ghost rest = char_lists(parts@);
        with_dot.append(&mut parts);
        proof {
            assert(char_lists(with_dot@) =~= seq![dot()] + rest);
        }
        return render_parts(false, &with_dot);
    }
    render_parts(rooted, &parts)
}

/// The configuration of a new project.
#[derive(Debug, Clone, PartialEq, Eq)]
pub struct InitOptions {
    pub project_id: String,
    pub name: String,
    pub version: String,
}

/// A publish target with its path resolved against the project root.
#[derive(Debug, Clone, PartialEq, Eq)]
pub struct PublishTargetInfo {
    pub kind: PublishTargetKind,
    pub path: String,
    pub resolved_path: String,
}

/// The resolved summary of a project.
#[derive(Debug, Clone, PartialEq, Eq)]
pub struct ProjectInfo {
    pub project_root: String,
    pub config_path: String,
    pub project_id: String,
    pub name: String,
    pub version: String,
    pub source_roots: Vec<String>,
    pub artifact_root: String,
    pub csharp_output: String,
    pub binary_output: String,
    pub cache: String,
    pub publish_targets: Vec<PublishTargetInfo>,
}

/// A discovered project: its root, its configuration file and the
/// configuration read from it.
#[derive(Debug, Clone)]
pub struct Project {
    root: String,
    config_path: String,
    config: ProjectConfig,
}

/// The configuration `initialize_project` writes: the given identity and
/// the default sources, build settings and publish targets.
pub fn initial_config(options: &InitOptions) -> (config: ProjectConfig)
    ensures
        config.project.id@ == options.project_id@,
        config.project.name@ == options.name@,
        config.project.version@ == options.version@,
        config.sources.roots.deep_view() == seq!["sources"@],
        config.build.artifact_dir@ == ".masterdata/output"@,
        config.build.cache@ == ".masterdata/cache"@,
        config.build.profiles@.len() == 0,
        config.publish.targets@.len() == 0,
{
    let sources = SourceConfig::default();
    proof {
        assert(sources.roots.deep_view() =~= seq!["sources"@]);
    }
    ProjectConfig {
        project: ProjectMetadata {
            id: options.project_id.clone(),
            name: options.name.clone(),
            version: options.version.clone(),
        },
        sources,
        build: BuildConfig::default(),
        publish: PublishConfig::default(),
    }
}

/// The resolved source roots.
pub open spec fn resolved_roots(root: Seq<char>, roots: Seq<String>) -> Seq<Seq<char>> {
    roots.map_values(|r: String| resolved_path(root, r@))
}

impl Project {
    pub closed spec fn root_text(&self) -> Seq<char> {
        self.root@
    }

    pub closed spec fn config_path_text(&self) -> Seq<char> {
        self.config_path@
    }

    pub closed spec fn configuration(&self) -> ProjectConfig {
        self.config
    }

    /// A project whose configuration was read from `config_path` and
    /// checked; `root` is the directory of that file.
    pub fn assemble(root: String, config_path: String, config: ProjectConfig) -> (project: Self)
        ensures
            project.root_text() == root@,
            project.config_path_text() == config_path@,
            project.configuration() == config,
    {
        Project { root, config_path, config }
    }

    pub fn root(&self) -> (root: &str)
        ensures
            root@ == self.root_text(),
    {
        self.root.as_str()
    }

    pub fn config_path(&self) -> (path: &str)
        ensures
            path@ == self.config_path_text(),
    {
        self.config_path.as_str()
    }

    pub fn config(&self) -> (config: &ProjectConfig)
        ensures
            *config == self.configuration(),
    {
        &self.config
    }

    /// The canonical artifact root.
    pub fn artifact_root_path(&self) -> (path: String)
        ensures
            path@ == resolved_path(self.root_text(), self.configuration().build.artifact_dir@),
    {
        resolve_project_path(self.root.as_str(), self.config.build.artifact_dir.as_str())
    }

    /// Where generated C# goes: `csharp` under the artifact root.
    pub fn csharp_output_path(&self) -> (path: String)
        ensures
            path@ == path_join(resolved_path(self.root_text(), self.configuration().build.artifact_dir@), "csharp"@),
    {
        let artifact = self.artifact_root_path();
        join_path(artifact.as_str(), "csharp")
    }

    /// Where the binary goes: `masterdata.bytes` under the artifact root.
    pub fn binary_output_path(&self) -> (path: String)
        ensures
            path@ == path_join(
                resolved_path(self.root_text(), self.configuration().build.artifact_dir@),
                "masterdata.bytes"@,
            ),
    {
        let artifact = self.artifact_root_path();
        join_path(artifact.as_str(), "masterdata.bytes")
    }

    /// The build cache.
    pub fn cache_path(&self) -> (path: String)
        ensures
            path@ == resolved_path(self.root_text(), self.configuration().build.cache@),
    {
        resolve_project_path(self.root.as_str(), self.config.build.cache.as_str())
    }

    /// The project summary: identity, resolved roots, outputs and publish targets.
    pub fn info(&self) -> (info: ProjectInfo)
        ensures
            info.project_root@ == self.root_text(),
            info.config_path@ == self.config_path_text(),
            info.project_id@ == self.configuration().project.id@,
            info.name@ == self.configuration().project.name@,
            info.version@ == self.configuration().project.version@,
            info.source_roots.deep_view() == resolved_roots(self.root_text(), self.configuration().sources.roots@),
            info.artifact_root@ == resolved_path(self.root_text(), self.configuration().build.artifact_dir@),
            info.csharp_output@ == path_join(info.artifact_root@, "csharp"@),
            info.binary_output@ == path_join(info.artifact_root@, "masterdata.bytes"@),
            info.cache@ == resolved_path(self.root_text(), self.configuration().build.cache@),
            info.publish_targets@.len() == self.configuration().publish.targets@.len(),
            forall|i: int| 0 <= i < info.publish_targets@.len() ==> {
                let target = #[trigger] self.configuration().publish.targets@[i];
                &&& info.publish_targets@[i].kind == target.kind
                &&& info.publish_targets@[i].path@ == target.path@
                &&& info.publish_targets@[i].resolved_path@ == resolved_path(self.root_text(), target.path@)
            },
    {
        let roots = &self.config.sources.roots;
        let mut source_roots: Vec<String> = Vec::new();
        let mut i: usize = 0;
        while i < roots.len()
            invariant
                i <= roots@.len(),
                source_roots.deep_view() == resolved_roots(self.root@, roots@).take(i as int),
            decreases roots@.len() - i,
        {
            let resolved = resolve_project_path(self.root.as_str(), roots[i].as_str());
            let ghost before = source_roots.deep_view();
            source_roots.push(resolved);
            proof {
                assert(source_roots.deep_view() =~= before.push(resolved_path(self.root@, roots@[i as int]@)));
                assert(resolved_roots(self.root@, roots@).take(i + 1) =~= resolved_roots(self.root@, roots@).take(i as int).push(resolved_path(self.root@, roots@[i as int]@)));
            }
            i = i + 1;
        }
        proof {
            assert(resolved_roots(self.root@, roots@).take(roots@.len() as int) =~= resolved_roots(self.root@, roots@));
        }
        let targets = &self.config.publish.targets;
        let mut publish_targets: Vec<PublishTargetInfo> = Vec::new();
        let mut k: usize = 0;
        while k < targets.len()
            invariant
                k <= targets@.len(),
                publish_targets@.len() == k,
                forall|j: int| 0 <= j < k ==> {
                    let target = #[trigger] targets@[j];
                    &&& publish_targets@[j].kind == target.kind
                    &&& publish_targets@[j].path@ == target.path@
                    &&& publish_targets@[j].resolved_path@ == resolved_path(self.root@, target.path@)
                },
            decreases targets@.len() - k,
        {
            let target = &targets[k];
            publish_targets.push(PublishTargetInfo {
                kind: target.kind,
                path: target.path.clone(),
                resolved_path: resolve_project_path(self.root.as_str(), target.path.as_str()),
            });
            k = k + 1;
        }
        let artifact_root = self.artifact_root_path();
        let csharp_output = join_path(artifact_root.as_str(), "csharp");
        let binary_output = join_path(artifact_root.as_str(), "masterdata.bytes");
        ProjectInfo {
            project_root: self.root.clone(),
            config_path: self.config_path.clone(),
            project_id: self.config.project.id.clone(),
            name: self.config.project.name.clone(),
            version: self.config.project.version.clone(),
            source_roots,
            artifact_root,
            csharp_output,
            binary_output,
            cache: self.cache_path(),
            publish_targets,
        }
    }
}

// ---------------------------------------------------------------------------
// Normal form

/// A segment that normalization keeps: non-empty, without `/`, not `.`.
pub open spec fn well_formed_part(s: Seq<char>) -> bool {
    s.len() > 0 && !s.contains('/') && s != dot()
}

/// Parts in normal form: well formed, `..` only in a leading run of a
/// relative path.
pub open spec fn clean_parts(rooted: bool, parts: Seq<Seq<char>>) -> bool {
    forall|i: int| 0 <= i < parts.len() ==> {
        &&& well_formed_part(#[trigger] parts[i])
        &&& (parts[i] == dot_dot() ==> !rooted && forall|j: int| 0 <= j < i ==> parts[j] == dot_dot())
    }
}

proof fn lemma_scan_well_formed(p: Seq<char>)
    ensures
        forall|i: int| 0 <= i < segment_scan(p).0.len() ==> well_formed_part(#[trigger] segment_scan(p).0[i]),
        !segment_scan(p).1.contains('/'),
    decreases p.len(),
{
    if p.len() > 0 {
        lemma_scan_well_formed(p.drop_last());
        let (parts, open) = segment_scan(p.drop_last());
        if p.last() != '/' {
            assert forall|k: int| 0 <= k < open.push(p.last()).len() implies open.push(p.last())[k] != '/' by {
                if k < open.len() {
                    assert(open[k] != '/') by {
                        if open[k] == '/' {
                            assert(open.contains('/'));
                        }
                    }
                }
            }
        } else {
            let kept = keep_segment(parts, open);
            assert forall|i: int| 0 <= i < kept.len() implies well_formed_part(#[trigger] kept[i]) by {
                if i < parts.len() {
                    assert(kept[i] == parts[i]);
                }
            }
        }
    }
}

proof fn lemma_parts_well_formed(p: Seq<char>)
    ensures
        forall|i: int| 0 <= i < path_parts(p).len() ==> well_formed_part(#[trigger] path_parts(p)[i]),
{
    lemma_scan_well_formed(p);
    let (parts, open) = segment_scan(p);
    assert forall|i: int| 0 <= i < path_parts(p).len() implies well_formed_part(#[trigger] path_parts(p)[i]) by {
        if i < parts.len() {
            assert(path_parts(p)[i] == parts[i]);
        }
    }
}

proof fn lemma_norm_clean(rooted: bool, parts: Seq<Seq<char>>)
    requires
        forall|i: int| 0 <= i < parts.len() ==> well_formed_part(#[trigger] parts[i]),
    ensures
        clean_parts(rooted, norm_parts(rooted, parts)),
    decreases parts.len(),
{
    if parts.len() > 0 {
        let rest = parts.drop_last();
        assert forall|i: int| 0 <= i < rest.len() implies well_formed_part(#[trigger] rest[i]) by {
            assert(rest[i] == parts[i]);
        }
        lemma_norm_clean(rooted, rest);
        let acc = norm_parts(rooted, rest);
        let part = parts.last();
        assert(well_formed_part(part));
        let next = norm_step(rooted, acc, part);
        if part == dot_dot() {
            if acc.len() > 0 && acc.last() != dot_dot() {
                assert forall|i: int| 0 <= i < next.len() implies {
                    &&& well_formed_part(#[trigger] next[i])
                    &&& (next[i] == dot_dot() ==> !rooted && forall|j: int| 0 <= j < i ==> next[j] == dot_dot())
                } by {
                    assert(next[i] == acc[i]);
                    assert forall|j: int| 0 <= j < i implies next[j] == acc[j] by {}
                }
            } else if !rooted {
                assert forall|i: int| 0 <= i < next.len() implies {
                    &&& well_formed_part(#[trigger] next[i])
                    &&& (next[i] == dot_dot() ==> !rooted && forall|j: int| 0 <= j < i ==> next[j] == dot_dot())
                } by {
                    if i < acc.len() {
                        assert(next[i] == acc[i]);
                        assert forall|j: int| 0 <= j < i implies next[j] == dot_dot() by {
                            assert(next[j] == acc[j]);
                        }
                    } else {
                        assert(next[i] == dot_dot());
                        assert(dot_dot()[0] == '.' && dot_dot()[1] == '.');
                        assert(!dot_dot().contains('/'));
                        assert(dot_dot() != dot());
                        assert forall|j: int| 0 <= j < i implies next[j] == dot_dot() by {
                            assert(next[j] == acc[j]);
                            if acc.len() > 0 {
                                assert(acc[acc.len() - 1] == dot_dot());
                            }
                        }
                    }
                }
            }
        } else {
            assert forall|i: int| 0 <= i < next.len() implies {
                &&& well_formed_part(#[trigger] next[i])
                &&& (next[i] == dot_dot() ==> !rooted && forall|j: int| 0 <= j < i ==> next[j] == dot_dot())
            } by {
                if i < acc.len() {
                    assert(next[i] == acc[i]);
                    assert forall|j: int| 0 <= j < i implies next[j] == acc[j] by {}
                }
            }
        }
    }
}

proof fn lemma_norm_of_clean(rooted: bool, parts: Seq<Seq<char>>)
    requires
        clean_parts(rooted, parts),
    ensures
        norm_parts(rooted, parts) == parts,
    decreases parts.len(),
{
    if parts.len() > 0 {
        let rest = parts.drop_last();
        assert forall|i: int| 0 <= i < rest.len() implies {
            &&& well_formed_part(#[trigger] rest[i])
            &&& (rest[i] == dot_dot() ==> !rooted && forall|j: int| 0 <= j < i ==> rest[j] == dot_dot())
        } by {
            assert(rest[i] == parts[i]);
            assert forall|j: int| 0 <= j < i implies rest[j] == parts[j] by {}
        }
        lemma_norm_of_clean(rooted, rest);
        let last = parts.last();
        assert(parts[parts.len() - 1] == last);
        if last == dot_dot() {
            if rest.len() > 0 {
                assert(rest.last() == parts[rest.len() - 1]);
            }
        }
        assert(norm_parts(rooted, parts) =~= parts);
    }
}

proof fn lemma_scan_plain_suffix(u: Seq<char>, w: Seq<char>)
    requires
        !w.contains('/'),
    ensures
        segment_scan(u + w) == (segment_scan(u).0, segment_scan(u).1 + w),
    decreases w.len(),
{
    if w.len() == 0 {
        assert(u + w =~= u);
        assert(segment_scan(u).1 + w =~= segment_scan(u).1);
    } else {
        let w2 = w.drop_last();
        assert(!w2.contains('/')) by {
            if w2.contains('/') {
                let k = choose|k: int| 0 <= k < w2.len() && w2[k] == '/';
                assert(w[k] == '/');
            }
        }
        lemma_scan_plain_suffix(u, w2);
        assert((u + w).drop_last() =~= u + w2);
        assert((u + w).last() == w.last());
        assert(w.last() != '/') by {
            if w.last() == '/' {
                assert(w[w.len() - 1] == '/');
            }
        }
        assert((segment_scan(u).1 + w2).push(w.last()) =~= segment_scan(u).1 + w);
    }
}

proof fn lemma_scan_of_prefix(prefix: Seq<char>)
    requires
        prefix == Seq::<char>::empty() || prefix == seq!['/'],
    ensures
        segment_scan(prefix).0 == Seq::<Seq<char>>::empty(),
        segment_scan(prefix).1 == Seq::<char>::empty(),
{
    if prefix.len() == 1 {
        assert(prefix.drop_last() =~= Seq::<char>::empty());
        assert(prefix.last() == '/');
        let s0 = segment_scan(prefix.drop_last());
        assert(s0.0 =~= Seq::<Seq<char>>::empty());
        assert(s0.1 =~= Seq::<char>::empty());
        assert(keep_segment(s0.0, s0.1) == s0.0);
    }
}

proof fn lemma_joined_scan(prefix: Seq<char>, parts: Seq<Seq<char>>)
    requires
        prefix == Seq::<char>::empty() || prefix == seq!['/'],
        parts.len() > 0,
        forall|i: int| 0 <= i < parts.len() ==> well_formed_part(#[trigger] parts[i]),
    ensures
        segment_scan(prefix + joined_parts(parts)) == (parts.drop_last(), parts.last()),
    decreases parts.len(),
{
    lemma_scan_of_prefix(prefix);
    if parts.len() == 1 {
        assert(well_formed_part(parts[0]));
        lemma_scan_plain_suffix(prefix, parts[0]);
        assert(Seq::<char>::empty() + parts[0] =~= parts[0]);
        assert(parts.drop_last() =~= Seq::<Seq<char>>::empty());
    } else {
        let rest = parts.drop_last();
        assert forall|i: int| 0 <= i < rest.len() implies well_formed_part(#[trigger] rest[i]) by {
            assert(rest[i] == parts[i]);
        }
        lemma_joined_scan(prefix, rest);
        let u = prefix + joined_parts(rest);
        let slash = u + seq!['/'];
        assert(slash.drop_last() =~= u);
        assert(slash.last() == '/');
        assert(rest.last() == parts[parts.len() - 2]);
        assert(well_formed_part(rest.last()));
        assert(keep_segment(rest.drop_last(), rest.last()) =~= rest);
        assert(segment_scan(slash) == (rest, Seq::<char>::empty()));
        assert(well_formed_part(parts.last()));
        lemma_scan_plain_suffix(slash, parts.last());
        assert(prefix + joined_parts(parts) =~= slash + parts.last());
        assert(Seq::<char>::empty() + parts.last() =~= parts.last());
    }
}

proof fn lemma_render_parts(rooted: bool, parts: Seq<Seq<char>>)
    requires
        forall|i: int| 0 <= i < parts.len() ==> well_formed_part(#[trigger] parts[i]),
    ensures
        path_parts(render_path(rooted, parts)) == parts,
        is_rooted(render_path(rooted, parts)) == rooted,
    decreases parts.len(),
{
    let prefix = if rooted { seq!['/'] } else { Seq::<char>::empty() };
    assert(render_path(rooted, parts) =~= prefix + joined_parts(parts));
    if parts.len() == 0 {
        assert(prefix + joined_parts(parts) =~= prefix);
        lemma_scan_of_prefix(prefix);
        assert(path_parts(prefix) =~= parts);
    } else {
        lemma_joined_scan(prefix, parts);
        assert(well_formed_part(parts.last()));
        assert(keep_segment(parts.drop_last(), parts.last()) =~= parts);
        if !rooted {
            lemma_joined_first(parts);
            assert(well_formed_part(parts[0]));
            assert(parts[0][0] != '/') by {
                if parts[0][0] == '/' {
                    assert(parts[0].contains('/'));
                }
            }
        }
    }
}

proof fn lemma_joined_first(parts: Seq<Seq<char>>)
    requires
        parts.len() > 0,
        parts[0].len() > 0,
    ensures
        joined_parts(parts).len() > 0,
        joined_parts(parts)[0] == parts[0][0],
    decreases parts.len(),
{
    if parts.len() > 1 {
        lemma_joined_first(parts.drop_last());
    }
}

/// Normal form is a fixed point: normalizing a normalized path changes nothing.
pub proof fn law_normalization_is_idempotent(p: Seq<char>)
    ensures
        normalized(normalized(p)) == normalized(p),
{
    let rooted = is_rooted(p);
    lemma_parts_well_formed(p);
    lemma_norm_clean(rooted, path_parts(p));
    let acc = norm_parts(rooted, path_parts(p));
    lemma_render_parts(rooted, acc);
    lemma_norm_of_clean(rooted, acc);
}

/// A resolved configured path is already in normal form.
pub proof fn law_resolved_paths_are_normal(root: Seq<char>, configured: Seq<char>)
    ensures
        normalized(resolved_path(root, configured)) == resolved_path(root, configured),
{
    if is_rooted(configured) {
        law_normalization_is_idempotent(configured);
    } else {
        law_normalization_is_idempotent(path_join(root, configured));
    }
}

/// `word` is `yaml` or `yml`, each letter in either case.
pub open spec fn yaml_word(word: Seq<char>) -> bool {
    ||| word.len() == 4 && (word[0] == 'y' || word[0] == 'Y') && (word[1] == 'a' || word[1] == 'A')
        && (word[2] == 'm' || word[2] == 'M') && (word[3] == 'l' || word[3] == 'L')
    ||| word.len() == 3 && (word[0] == 'y' || word[0] == 'Y') && (word[1] == 'm' || word[1] == 'M')
        && (word[2] == 'l' || word[2] == 'L')
}

/// `path` names a YAML source: the last dot of its file name, which does
/// not begin that name, is followed by `yaml` or `yml` in any case.
pub open spec fn is_yaml_path(path: Seq<char>) -> bool {
    exists|p: int| 0 < p < path.len() && #[trigger] path[p] == '.' && path[p - 1] != '/'
        && (forall|q: int| p < q < path.len() ==> path[q] != '.' && path[q] != '/')
        && yaml_word(path.skip(p + 1))
}

/// Whether `path` names a YAML source file.
pub fn is_yaml_source(path: &str) -> (yaml: bool)
    ensures
        yaml == is_yaml_path(path@),
{
    let chars = chars_of(path);
    let n = chars.len();
    let mut end = n;
    while end > 0 && chars[end - 1] != '.' && chars[end - 1] != '/'
        invariant
            end <= n,
            n == chars@.len(),
            chars@ == path@,
            forall|q: int| end <= q < n ==> chars@[q] != '.' && chars@[q] != '/',
        decreases end,
    {
        end = end - 1;
    }
    if end == 0 || chars[end - 1] == '/' {
        proof {
            if is_yaml_path(path@) {
                let p = choose|p: int| 0 < p < path@.len() && #[trigger] path@[p] == '.' && path@[p - 1] != '/'
                    && (forall|q: int| p < q < path@.len() ==> path@[q] != '.' && path@[q] != '/')
                    && yaml_word(path@.skip(p + 1));
                if end > 0 && p < end - 1 {
                    assert(path@[end - 1] != '/');
                }
            }
        }
        return false;
    }
    let dot = end - 1;
    proof {
        assert forall|p: int| 0 < p < path@.len() && #[trigger] path@[p] == '.'
            && (forall|q: int| p < q < path@.len() ==> path@[q] != '.' && path@[q] != '/') implies p == dot by {
            if p < dot {
                assert(path@[dot as int] != '.');
            }
        }
    }
    if dot == 0 || chars[dot - 1] == '/' {
        return false;
    }
    let word = n - end;
    let yaml = if word == 4 {
        (chars[end] == 'y' || chars[end] == 'Y') && (chars[end + 1] == 'a' || chars[end + 1] == 'A')
            && (chars[end + 2] == 'm' || chars[end + 2] == 'M') && (chars[end + 3] == 'l' || chars[end + 3] == 'L')
    } else if word == 3 {
        (chars[end] == 'y' || chars[end] == 'Y') && (chars[end + 1] == 'm' || chars[end + 1] == 'M')
            && (chars[end + 2] == 'l' || chars[end + 2] == 'L')
    } else {
        false
    };
    proof {
        let w = path@.skip(end as int);
        assert(w.len() == word);
        if word >= 3 {
            assert(w[0] == chars@[end as int]);
            assert(w[1] == chars@[end + 1]);
            assert(w[2] == chars@[end + 2]);
        }
        if word == 4 {
            assert(w[3] == chars@[end + 3]);
        }
        assert(yaml == yaml_word(w));
        if yaml {
            assert(path@[dot as int] == '.');
        }
    }
    yaml
}

/// The source files of a project among the files `found` under its source
/// roots: each YAML source once, in ascending order.
pub fn listed_source_files(found: &Vec<String>) -> (files: Vec<String>)
    ensures
        strictly_ascending(texts(files@)),
        forall|x: Seq<char>| texts(files@).contains(x) <==> (texts(found@).contains(x) && is_yaml_path(x)),
{
    let ghost keep = |x: Seq<char>| is_yaml_path(x);
    let mut yaml: Vec<String> = Vec::new();
    let mut i: usize = 0;
    proof {
        assert(texts(found@).take(0) =~= Seq::<Seq<char>>::empty());
        assert(texts(yaml@) =~= Seq::<Seq<char>>::empty());
    }
    while i < found.len()
        invariant
            i <= found@.len(),
            texts(yaml@) == texts(found@).take(i as int).filter(keep),
            keep == (|x: Seq<char>| is_yaml_path(x)),
        decreases found@.len() - i,
    {
        let ghost before = yaml@;
        proof {
            let next = texts(found@).take(i + 1);
            assert(next.drop_last() =~= texts(found@).take(i as int));
            assert(next.last() == found@[i as int]@);
        }
        let ghost next = texts(found@).take(i + 1);
        if is_yaml_source(found[i].as_str()) {
            yaml.push(found[i].clone());
            proof {
                assert(keep(next.last()));
                reveal(Seq::filter);
                assert(next.filter(keep) == next.drop_last().filter(keep).push(next.last()));
                assert(texts(yaml@) =~= texts(before).push(found@[i as int]@));
            }
        } else {
            proof {
                assert(!keep(next.last()));
                reveal(Seq::filter);
                assert(next.filter(keep) == next.drop_last().filter(keep));
            }
        }
        i = i + 1;
    }
    proof {
        let all = texts(found@);
        assert(all.take(i as int) =~= all);
        broadcast use vstd::seq_lib::group_filter_ensures;
        assert forall|x: Seq<char>| texts(yaml@).contains(x) <==> (all.contains(x) && is_yaml_path(x)) by {
            if texts(yaml@).contains(x) {
                all.lemma_filter_contains_rev(keep, x);
                let k = choose|k: int| 0 <= k < texts(yaml@).len() && texts(yaml@)[k] == x;
                assert(keep(all.filter(keep)[k]));
            }
            if all.contains(x) && is_yaml_path(x) {
                let k = choose|k: int| 0 <= k < all.len() && all[k] == x;
                assert(keep(all[k]));
                assert(all.filter(keep).contains(all[k]));
            }
        }
    }
    let none: Vec<String> = Vec::new();
    let files = union_ascending(&yaml, &none);
    proof {
        assert(texts(none@) =~= Seq::<Seq<char>>::empty());
    }
    files
}

} // verus!
