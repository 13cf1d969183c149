//! The project configuration (`masterdata.toml`) and its validation.

use vstd::prelude::*;

use crate::error::{fresh_diagnostic, DiagnosticView, ErrorKind, MasterdataError};
use crate::numeric::is_digit;
use crate::text::{chars_of, str_eq};
use crate::text_order::{lemma_text_lt_transitive, strictly_ascending, text_less, text_lt};

verus! {

#[derive(Debug, Clone, PartialEq, Eq)]
pub struct ProjectConfig {
    pub project: ProjectMetadata,
    pub sources: SourceConfig,
    pub build: BuildConfig,
    pub publish: PublishConfig,
}

#[derive(Debug, Clone, PartialEq, Eq)]
pub struct ProjectMetadata {
    pub id: String,
    pub name: String,
    pub version: String,
}

#[derive(Debug, Clone, PartialEq, Eq)]
pub struct SourceConfig {
    pub roots: Vec<String>,
}

/// Build settings. `profiles` holds the named Build Profiles in name order,
/// each name once, as the configuration's profile table lists them.
#[derive(Debug, Clone, PartialEq, Eq)]
pub struct BuildConfig {
    pub artifact_dir: String,
    pub cache: String,
    pub profiles: Vec<(String, BuildProfile)>,
}

/// The names of the Build Profiles, in the order they are held.
pub open spec fn profile_names(profiles: Seq<(String, BuildProfile)>) -> Seq<Seq<char>> {
    profiles.map_values(|p: (String, BuildProfile)| p.0@)
}

impl BuildConfig {
    /// The Build Profiles are held in ascending name order, each name once,
    /// as in the profile table of the configuration.
    pub open spec fn well_formed(&self) -> bool {
        strictly_ascending(profile_names(self.profiles@))
    }

    /// Whether the Build Profiles are held in ascending name order, each
    /// name once.
    pub fn profiles_well_formed(&self) -> (ordered: bool)
        ensures
            ordered == self.well_formed(),
    {
        let n = self.profiles.len();
        let mut i: usize = 1;
        if n == 0 {
            return true;
        }
        while i < n
            invariant
                1 <= i <= n == self.profiles@.len(),
                forall|a: int, b: int| 0 <= a < b < i ==> text_lt(
                    #[trigger] profile_names(self.profiles@)[a], #[trigger] profile_names(self.profiles@)[b]),
            decreases n - i,
        {
            if !text_less(self.profiles[i - 1].0.as_str(), self.profiles[i].0.as_str()) {
                proof {
                    assert(!text_lt(profile_names(self.profiles@)[i - 1], profile_names(self.profiles@)[i as int]));
                }
                return false;
            }
            proof {
                assert forall|a: int, b: int| 0 <= a < b < i + 1 implies text_lt(
                    #[trigger] profile_names(self.profiles@)[a], #[trigger] profile_names(self.profiles@)[b]) by {
                    if b == i && a < i - 1 {
                        lemma_text_lt_transitive(profile_names(self.profiles@)[a], profile_names(self.profiles@)[i - 1],
                            profile_names(self.profiles@)[b]);
                    }
                }
            }
            i = i + 1;
        }
        true
    }
}

/// A named, project-scoped Build Selection.  The collection order is source
/// formatting only; selection resolves both members as sets.
#[derive(Debug, Clone, PartialEq, Eq)]
pub struct BuildProfile {
    pub include_tags: Vec<String>,
    pub exclude_tags: Vec<String>,
}

#[derive(Debug, Clone, PartialEq, Eq)]
pub struct PublishConfig {
    pub targets: Vec<PublishTarget>,
}

#[derive(Debug, Clone, PartialEq, Eq)]
pub struct PublishTarget {
    pub kind: PublishTargetKind,
    pub path: String,
}

#[derive(Debug, Clone, Copy, PartialEq, Eq, Structural)]
pub enum PublishTargetKind {
    CSharp,
    Binary,
}

impl Default for SourceConfig {
    /// One source root, `sources`.
    fn default() -> (config: Self)
        ensures
            config.roots@.len() == 1,
            config.roots@[0]@ == "sources"@,
    {
        let mut roots: Vec<String> = Vec::new();
        roots.push(String::from_str("sources"));
        SourceConfig { roots }
    }
}

impl Default for BuildConfig {
    /// Artifacts in `.masterdata/output`, the cache in `.masterdata/cache`,
    /// no Build Profiles.
    fn default() -> (config: Self)
        ensures
            config.artifact_dir@ == ".masterdata/output"@,
            config.cache@ == ".masterdata/cache"@,
            config.profiles@.len() == 0,
    {
        BuildConfig {
            artifact_dir: String::from_str(".masterdata/output"),
            cache: String::from_str(".masterdata/cache"),
            profiles: Vec::new(),
        }
    }
}

impl Default for BuildProfile {
    fn default() -> (profile: Self)
        ensures
            profile.include_tags@.len() == 0,
            profile.exclude_tags@.len() == 0,
    {
        BuildProfile { include_tags: Vec::new(), exclude_tags: Vec::new() }
    }
}

impl Default for PublishConfig {
    fn default() -> (config: Self)
        ensures
            config.targets@.len() == 0,
    {
        PublishConfig { targets: Vec::new() }
    }
}

impl PublishConfig {
    pub fn is_empty(&self) -> (empty: bool)
        ensures
            empty == (self.targets@.len() == 0),
    {
        self.targets.len() == 0
    }
}

/// `char::is_whitespace`: the Unicode White_Space property.
pub open spec fn is_unicode_whitespace(c: char) -> bool {
    ||| '\t' <= c && c <= '\r'
    ||| c == ' ' || c == '\u{85}' || c == '\u{A0}' || c == '\u{1680}'
    ||| '\u{2000}' <= c && c <= '\u{200A}'
    ||| c == '\u{2028}' || c == '\u{2029}' || c == '\u{202F}' || c == '\u{205F}' || c == '\u{3000}'
}

/// Whether trimming the text leaves nothing: every character is whitespace.
pub open spec fn is_blank(text: Seq<char>) -> bool {
    forall|i: int| 0 <= i < text.len() ==> is_unicode_whitespace(#[trigger] text[i])
}

fn whitespace(c: char) -> (result: bool)
    ensures
        result == is_unicode_whitespace(c),
{
    ('\t' <= c && c <= '\r') || c == ' ' || c == '\u{85}' || c == '\u{A0}' || c == '\u{1680}'
        || ('\u{2000}' <= c && c <= '\u{200A}') || c == '\u{2028}' || c == '\u{2029}' || c == '\u{202F}'
        || c == '\u{205F}' || c == '\u{3000}'
}

/// `text.trim().is_empty()`.
pub fn blank(text: &str) -> (result: bool)
    ensures
        result == is_blank(text@),
{
    let chars = chars_of(text);
    let mut i: usize = 0;
    while i < chars.len()
        invariant
            i <= chars@.len(),
            chars@ == text@,
            forall|k: int| 0 <= k < i ==> is_unicode_whitespace(#[trigger] chars@[k]),
        decreases chars@.len() - i,
    {
        if !whitespace(chars[i]) {
            return false;
        }
        i = i + 1;
    }
    true
}

pub open spec fn is_lower_or_digit(c: char) -> bool {
    ('a' <= c && c <= 'z') || is_digit(c)
}

/// Lowercase kebab-case: `-`-separated, non-empty segments of lowercase
/// letters and digits, the first starting with a letter.
pub open spec fn is_kebab_name(s: Seq<char>) -> bool {
    &&& s.len() > 0
    &&& 'a' <= s[0] && s[0] <= 'z'
    &&& forall|i: int| 0 <= i < s.len() ==> is_lower_or_digit(#[trigger] s[i]) || s[i] == '-'
    &&& forall|i: int| 0 <= i < s.len() - 1 && #[trigger] s[i] == '-' ==> s[i + 1] != '-'
    &&& s.last() != '-'
}

/// Whether a text is a valid Build Profile or tag name.
pub fn is_profile_or_tag_name(value: &str) -> (result: bool)
    ensures
        result == is_kebab_name(value@),
{
    let chars = chars_of(value);
    let n = chars.len();
    if n == 0 {
        return false;
    }
    if !('a' <= chars[0] && chars[0] <= 'z') {
        return false;
    }
    if chars[n - 1] == '-' {
        return false;
    }
    let mut i: usize = 0;
    while i < n
        invariant
            i <= n,
            n == chars@.len(),
            chars@ == value@,
            forall|k: int| 0 <= k < i ==> is_lower_or_digit(#[trigger] chars@[k]) || chars@[k] == '-',
            forall|k: int| 0 <= k < i && k < n - 1 && #[trigger] chars@[k] == '-' ==> chars@[k + 1] != '-',
        decreases n - i,
    {
        let c = chars[i];
        if !(('a' <= c && c <= 'z') || ('0' <= c && c <= '9') || c == '-') {
            return false;
        }
        if c == '-' && i + 1 < n && chars[i + 1] == '-' {
            return false;
        }
        i = i + 1;
    }
    true
}

pub open spec fn config_error_view(code: Seq<char>, message: Seq<char>) -> DiagnosticView {
    fresh_diagnostic(code, ErrorKind::Config, message)
}

/// Position of the first blank publish target path, or the target count.
pub open spec fn first_blank_target(targets: Seq<PublishTarget>) -> int
    decreases targets.len(),
{
    if targets.len() == 0 {
        0
    } else if is_blank(targets[0].path@) {
        0
    } else {
        1 + first_blank_target(targets.drop_first())
    }
}

pub open spec fn kind_label(kind: PublishTargetKind) -> Seq<char> {
    match kind {
        PublishTargetKind::CSharp => "CSharp"@,
        PublishTargetKind::Binary => "Binary"@,
    }
}

pub open spec fn backticked(prefix: Seq<char>, name: Seq<char>, suffix: Seq<char>) -> Seq<char> {
    prefix + "`"@ + name + "`"@ + suffix
}

/// The first invalid or repeated tag of a profile member, from position `k`.
pub open spec fn tags_failure(profile: Seq<char>, member: Seq<char>, tags: Seq<Seq<char>>, k: int) -> Option<(Seq<char>, Seq<char>)>
    decreases tags.len() - k,
{
    if k < 0 || k >= tags.len() {
        None
    } else if !is_kebab_name(tags[k]) {
        Some(("E-BUILD-PROFILE-INVALID-TAG"@,
            backticked("Build Profile "@, profile, " "@) + member + backticked(" contains invalid tag "@, tags[k], ""@)))
    } else if tags.take(k).contains(tags[k]) {
        Some(("E-BUILD-PROFILE-DUPLICATE-TAG"@,
            backticked("Build Profile "@, profile, " "@) + member + backticked(" contains duplicate tag "@, tags[k], ""@)))
    } else {
        tags_failure(profile, member, tags, k + 1)
    }
}

/// Whether a tag is both included and excluded.
pub open spec fn tags_overlap(profile: BuildProfile) -> bool {
    exists|i: int, j: int| 0 <= i < profile.include_tags@.len() && 0 <= j < profile.exclude_tags@.len()
        && #[trigger] profile.include_tags@[i]@ == #[trigger] profile.exclude_tags@[j]@
}

/// The first refused Build Profile, in profile order.
pub open spec fn profiles_failure(profiles: Seq<(String, BuildProfile)>) -> Option<(Seq<char>, Seq<char>)>
    decreases profiles.len(),
{
    if profiles.len() == 0 {
        None
    } else {
        let name = profiles[0].0@;
        let profile = profiles[0].1;
        if !is_kebab_name(name) {
            Some(("E-BUILD-PROFILE-INVALID-NAME"@, backticked("Build Profile name "@, name, " is not lowercase kebab-case"@)))
        } else if tags_failure(name, "include_tags"@, profile.include_tags.deep_view(), 0) is Some {
            tags_failure(name, "include_tags"@, profile.include_tags.deep_view(), 0)
        } else if tags_failure(name, "exclude_tags"@, profile.exclude_tags.deep_view(), 0) is Some {
            tags_failure(name, "exclude_tags"@, profile.exclude_tags.deep_view(), 0)
        } else if tags_overlap(profile) {
            Some(("E-BUILD-PROFILE-TAG-OVERLAP"@, backticked("Build Profile "@, name, " includes and excludes the same tag"@)))
        } else {
            profiles_failure(profiles.drop_first())
        }
    }
}

/// Why a configuration is refused, in the order the checks run.
pub open spec fn config_failure(config: ProjectConfig) -> Option<(Seq<char>, Seq<char>)> {
    if is_blank(config.project.id@) {
        Some(("E-PROJECT-CONFIG-EMPTY"@, "project.id must not be empty"@))
    } else if is_blank(config.project.name@) {
        Some(("E-PROJECT-CONFIG-EMPTY"@, "project.name must not be empty"@))
    } else if is_blank(config.project.version@) {
        Some(("E-PROJECT-CONFIG-EMPTY"@, "project.version must not be empty"@))
    } else if config.sources.roots@.len() == 0 {
        Some(("E-PROJECT-CONFIG-NO-SOURCE-ROOT"@, "sources.roots must contain at least one source root"@))
    } else if exists|i: int| 0 <= i < config.sources.roots@.len() && is_blank(#[trigger] config.sources.roots@[i]@) {
        Some(("E-PROJECT-CONFIG-EMPTY-SOURCE-ROOT"@, "sources.roots must not contain an empty path"@))
    } else if is_blank(config.build.artifact_dir@) || is_blank(config.build.cache@) {
        Some(("E-PROJECT-CONFIG-EMPTY-BUILD-PATH"@, "build.artifact_dir and build.cache must not be empty"@))
    } else if first_blank_target(config.publish.targets@) < config.publish.targets@.len() {
        let target = config.publish.targets@[first_blank_target(config.publish.targets@)];
        Some(("E-PROJECT-CONFIG-EMPTY-PUBLISH-PATH"@, "publish target path for "@ + kind_label(target.kind) + " must not be empty"@))
    } else {
        profiles_failure(config.build.profiles@)
    }
}

fn config_error(code: &str, message: &str) -> (error: MasterdataError)
    ensures
        error@ == config_error_view(code@, message@),
{
    MasterdataError::new(code, ErrorKind::Config, message)
}

fn backticked_message(prefix: &str, name: &str, suffix: &str) -> (message: String)
    ensures
        message@ == backticked(prefix@, name@, suffix@),
{
    let mut message = String::from_str(prefix);
    message.append("`");
    message.append(name);
    message.append("`");
    message.append(suffix);
    message
}

fn validate_profile_tags(profile: &str, member: &str, tags: &Vec<String>) -> (result: Result<(), MasterdataError>)
    ensures
        match result {
            Ok(()) => tags_failure(profile@, member@, tags.deep_view(), 0) is None,
            Err(e) => tags_failure(profile@, member@, tags.deep_view(), 0) matches Some((code, message))
                && e@ == config_error_view(code, message),
        },
{
    let ghost all = tags.deep_view();
    let mut k: usize = 0;
    while k < tags.len()
        invariant
            k <= tags@.len(),
            all == tags.deep_view(),
            tags_failure(profile@, member@, all, 0) == tags_failure(profile@, member@, all, k as int),
        decreases tags@.len() - k,
    {
        let tag = tags[k].as_str();
        if !is_profile_or_tag_name(tag) {
            let mut message = backticked_message("Build Profile ", profile, " ");
            message.append(member);
            let rest = backticked_message(" contains invalid tag ", tag, "");
            message.append(rest.as_str());
            return Err(config_error("E-BUILD-PROFILE-INVALID-TAG", message.as_str()));
        }
        let mut seen = false;
        let mut m: usize = 0;
        while m < k
            invariant
                m <= k < tags@.len(),
                all == tags.deep_view(),
                tag@ == tags@[k as int]@,
                seen == exists|p: int| 0 <= p < m && all[p] == all[k as int],
            decreases k - m,
        {
            proof {
                assert(all[m as int] == tags@[m as int]@);
                assert(all[k as int] == tags@[k as int]@);
            }
            let equal = str_eq(tags[m].as_str(), tag);
            proof {
                if seen {
                    let p = choose|p: int| 0 <= p < m && all[p] == all[k as int];
                    assert(0 <= p < m + 1 && all[p] == all[k as int]);
                }
                if equal {
                    assert(0 <= m < m + 1 && all[m as int] == all[k as int]);
                }
            }
            if equal {
                seen = true;
            }
            m = m + 1;
        }
        proof {
            assert(seen == all.take(k as int).contains(all[k as int])) by {
                if seen {
                    let p = choose|p: int| 0 <= p < k && all[p] == all[k as int];
                    assert(all.take(k as int)[p] == all[k as int]);
                }
                if all.take(k as int).contains(all[k as int]) {
                    let p = choose|p: int| 0 <= p < k && all.take(k as int)[p] == all[k as int];
                    assert(all[p] == all[k as int]);
                }
            }
        }
        if seen {
            let mut message = backticked_message("Build Profile ", profile, " ");
            message.append(member);
            let rest = backticked_message(" contains duplicate tag ", tag, "");
            message.append(rest.as_str());
            return Err(config_error("E-BUILD-PROFILE-DUPLICATE-TAG", message.as_str()));
        }
        k = k + 1;
    }
    Ok(())
}

fn strings_overlap(left: &Vec<String>, right: &Vec<String>) -> (found: bool)
    ensures
        found == exists|i: int, j: int| 0 <= i < left@.len() && 0 <= j < right@.len()
            && #[trigger] left@[i]@ == #[trigger] right@[j]@,
{
    let mut i: usize = 0;
    while i < left.len()
        invariant
            i <= left@.len(),
            forall|a: int, b: int| 0 <= a < i && 0 <= b < right@.len() ==> #[trigger] left@[a]@ != #[trigger] right@[b]@,
        decreases left@.len() - i,
    {
        let mut j: usize = 0;
        while j < right.len()
            invariant
                i < left@.len(),
                j <= right@.len(),
                forall|a: int, b: int| 0 <= a < i && 0 <= b < right@.len() ==> #[trigger] left@[a]@ != #[trigger] right@[b]@,
                forall|b: int| 0 <= b < j ==> left@[i as int]@ != #[trigger] right@[b]@,
            decreases right@.len() - j,
        {
            if str_eq(left[i].as_str(), right[j].as_str()) {
                return true;
            }
            j = j + 1;
        }
        i = i + 1;
    }
    false
}

impl ProjectConfig {
    /// Check the configuration: non-blank project identity, source roots and
    /// build paths, non-blank publish paths, and well-formed Build Profiles.
    #[verifier::loop_isolation(false)]
    pub fn validate(&self) -> (result: Result<(), MasterdataError>)
        ensures
            match result {
                Ok(()) => config_failure(*self) is None,
                Err(e) => config_failure(*self) matches Some((code, message)) && e@ == config_error_view(code, message),
            },
    {
        if blank(self.project.id.as_str()) {
            return Err(config_error("E-PROJECT-CONFIG-EMPTY", "project.id must not be empty"));
        }
        if blank(self.project.name.as_str()) {
            return Err(config_error("E-PROJECT-CONFIG-EMPTY", "project.name must not be empty"));
        }
        if blank(self.project.version.as_str()) {
            return Err(config_error("E-PROJECT-CONFIG-EMPTY", "project.version must not be empty"));
        }
        if self.sources.roots.len() == 0 {
            return Err(config_error("E-PROJECT-CONFIG-NO-SOURCE-ROOT", "sources.roots must contain at least one source root"));
        }
        let mut r: usize = 0;
        while r < self.sources.roots.len()
            invariant
                r <= self.sources.roots@.len(),
                forall|k: int| 0 <= k < r ==> !is_blank(#[trigger] self.sources.roots@[k]@),
            decreases self.sources.roots@.len() - r,
        {
            if blank(self.sources.roots[r].as_str()) {
                return Err(config_error("E-PROJECT-CONFIG-EMPTY-SOURCE-ROOT", "sources.roots must not contain an empty path"));
            }
            r = r + 1;
        }
        if blank(self.build.artifact_dir.as_str()) || blank(self.build.cache.as_str()) {
            return Err(config_error("E-PROJECT-CONFIG-EMPTY-BUILD-PATH", "build.artifact_dir and build.cache must not be empty"));
        }
        let ghost targets = self.publish.targets@;
        let mut t: usize = 0;
        proof {
            assert(targets.skip(0) =~= targets);
        }
        while t < self.publish.targets.len()
            invariant
                t <= targets.len(),
                targets == self.publish.targets@,
                first_blank_target(targets) == t + first_blank_target(targets.skip(t as int)),
            decreases targets.len() - t,
        {
            let target = &self.publish.targets[t];
            proof {
                assert(targets.skip(t as int)[0] == targets[t as int]);
                assert(targets.skip(t as int).drop_first() =~= targets.skip(t + 1));
            }
            if blank(target.path.as_str()) {
                let label = match target.kind {
                    PublishTargetKind::CSharp => "CSharp",
                    PublishTargetKind::Binary => "Binary",
                };
                let mut message = String::from_str("publish target path for ");
                message.append(label);
                message.append(" must not be empty");
                return Err(config_error("E-PROJECT-CONFIG-EMPTY-PUBLISH-PATH", message.as_str()));
            }
            t = t + 1;
        }
        let ghost profiles = self.build.profiles@;
        let mut p: usize = 0;
        proof {
            assert(profiles.skip(0) =~= profiles);
        }
        while p < self.build.profiles.len()
            invariant
                p <= profiles.len(),
                profiles == self.build.profiles@,
                profiles_failure(profiles) == profiles_failure(profiles.skip(p as int)),
            decreases profiles.len() - p,
        {
            let (name, profile) = (&self.build.profiles[p].0, &self.build.profiles[p].1);
            proof {
                assert(profiles.skip(p as int)[0] == profiles[p as int]);
                assert(profiles.skip(p as int).drop_first() =~= profiles.skip(p + 1));
            }
            if !is_profile_or_tag_name(name.as_str()) {
                let message = backticked_message("Build Profile name ", name.as_str(), " is not lowercase kebab-case");
                return Err(config_error("E-BUILD-PROFILE-INVALID-NAME", message.as_str()));
            }
            match validate_profile_tags(name.as_str(), "include_tags", &profile.include_tags) {
                Ok(()) => {},
                Err(e) => {
                    return Err(e);
                },
            }
            match validate_profile_tags(name.as_str(), "exclude_tags", &profile.exclude_tags) {
                Ok(()) => {},
                Err(e) => {
                    return Err(e);
                },
            }
            if strings_overlap(&profile.include_tags, &profile.exclude_tags) {
                let message = backticked_message("Build Profile ", name.as_str(), " includes and excludes the same tag");
                return Err(config_error("E-BUILD-PROFILE-TAG-OVERLAP", message.as_str()));
            }
            p = p + 1;
        }
        Ok(())
    }
}

/// The tags that a Build Profile may hold: lowercase kebab-case names, each
/// once.
pub open spec fn tags_valid(tags: Seq<Seq<char>>) -> bool {
    &&& forall|k: int| 0 <= k < tags.len() ==> is_kebab_name(#[trigger] tags[k])
    &&& forall|a: int, b: int| 0 <= a < b < tags.len() ==> #[trigger] tags[a] != #[trigger] tags[b]
}

/// A Build Profile that a valid configuration may hold.
pub open spec fn profile_valid(name: Seq<char>, profile: BuildProfile) -> bool {
    &&& is_kebab_name(name)
    &&& tags_valid(profile.include_tags.deep_view())
    &&& tags_valid(profile.exclude_tags.deep_view())
    &&& !tags_overlap(profile)
}

proof fn lemma_tags_valid(profile: Seq<char>, member: Seq<char>, tags: Seq<Seq<char>>, k: int)
    requires
        0 <= k <= tags.len(),
        tags_failure(profile, member, tags, k) is None,
    ensures
        forall|j: int| k <= j < tags.len() ==> is_kebab_name(#[trigger] tags[j]) && !tags.take(j).contains(tags[j]),
    decreases tags.len() - k,
{
    if k < tags.len() {
        lemma_tags_valid(profile, member, tags, k + 1);
    }
}

proof fn lemma_profiles_valid(profiles: Seq<(String, BuildProfile)>)
    requires
        profiles_failure(profiles) is None,
    ensures
        forall|i: int| 0 <= i < profiles.len() ==> profile_valid(profiles[i].0@, #[trigger] profiles[i].1),
    decreases profiles.len(),
{
    if profiles.len() > 0 {
        let name = profiles[0].0@;
        let profile = profiles[0].1;
        lemma_profiles_valid(profiles.drop_first());
        let included = profile.include_tags.deep_view();
        let excluded = profile.exclude_tags.deep_view();
        lemma_tags_valid(name, "include_tags"@, included, 0);
        lemma_tags_valid(name, "exclude_tags"@, excluded, 0);
        assert forall|a: int, b: int| 0 <= a < b < included.len() implies #[trigger] included[a] != #[trigger] included[b] by {
            if included[a] == included[b] {
                assert(included.take(b)[a] == included[a]);
            }
        }
        assert forall|a: int, b: int| 0 <= a < b < excluded.len() implies #[trigger] excluded[a] != #[trigger] excluded[b] by {
            if excluded[a] == excluded[b] {
                assert(excluded.take(b)[a] == excluded[a]);
            }
        }
        assert forall|i: int| 0 <= i < profiles.len() implies profile_valid(profiles[i].0@, #[trigger] profiles[i].1) by {
            if i > 0 {
                assert(profiles.drop_first()[i - 1] == profiles[i]);
            }
        }
    }
}

/// A configuration that passes validation has a non-blank project id, name
/// and version, at least one source root and none blank, non-blank build
/// paths and publish paths, and Build Profiles whose names and tags are
/// lowercase kebab-case, with no tag twice in a list and none both included
/// and excluded.
pub proof fn law_valid_configuration(config: ProjectConfig)
    requires
        config_failure(config) is None,
    ensures
        !is_blank(config.project.id@),
        !is_blank(config.project.name@),
        !is_blank(config.project.version@),
        config.sources.roots@.len() > 0,
        forall|i: int| 0 <= i < config.sources.roots@.len() ==> !is_blank(#[trigger] config.sources.roots@[i]@),
        !is_blank(config.build.artifact_dir@),
        !is_blank(config.build.cache@),
        forall|i: int| 0 <= i < config.publish.targets@.len() ==> !is_blank(#[trigger] config.publish.targets@[i].path@),
        forall|i: int| 0 <= i < config.build.profiles@.len()
            ==> profile_valid(config.build.profiles@[i].0@, #[trigger] config.build.profiles@[i].1),
{
    lemma_no_blank_target(config.publish.targets@);
    lemma_profiles_valid(config.build.profiles@);
}

proof fn lemma_no_blank_target(targets: Seq<PublishTarget>)
    requires
        first_blank_target(targets) >= targets.len(),
    ensures
        forall|i: int| 0 <= i < targets.len() ==> !is_blank(#[trigger] targets[i].path@),
    decreases targets.len(),
{
    if targets.len() > 0 {
        lemma_no_blank_target(targets.drop_first());
        assert forall|i: int| 0 <= i < targets.len() implies !is_blank(#[trigger] targets[i].path@) by {
            if i > 0 {
                assert(targets.drop_first()[i - 1] == targets[i]);
            }
        }
    }
}

/// A Build Profile or tag name is accepted exactly when it is non-empty,
/// starts with a lowercase ASCII letter, holds only lowercase ASCII
/// letters, ASCII digits and `-`, never two `-` in a row, and does not end
/// with `-`: its `-`-separated segments are non-empty runs of lowercase
/// letters and digits.
pub proof fn law_profile_and_tag_names(s: Seq<char>)
    ensures
        is_kebab_name(s) <==> {
            &&& s.len() > 0
            &&& 'a' <= s[0] && s[0] <= 'z'
            &&& forall|i: int| 0 <= i < s.len()
                ==> ('a' <= #[trigger] s[i] && s[i] <= 'z') || ('0' <= s[i] && s[i] <= '9') || s[i] == '-'
            &&& forall|i: int| 0 <= i < s.len() - 1 && #[trigger] s[i] == '-' ==> s[i + 1] != '-'
            &&& s[s.len() - 1] != '-'
        },
{
}

/// A name stays valid when a lowercase letter or a digit is appended to
/// it: `ios-v` gives `ios-v2`, `release` gives `release2`.
pub proof fn law_names_extend_by_letters_and_digits(s: Seq<char>, c: char)
    requires
        is_kebab_name(s),
        ('a' <= c && c <= 'z') || ('0' <= c && c <= '9'),
    ensures
        is_kebab_name(s.push(c)),
{
    let t = s.push(c);
    assert forall|i: int| 0 <= i < t.len() implies is_lower_or_digit(#[trigger] t[i]) || t[i] == '-' by {
        if i < s.len() {
            assert(t[i] == s[i]);
        }
    }
    assert forall|i: int| 0 <= i < t.len() - 1 && #[trigger] t[i] == '-' implies t[i + 1] != '-' by {
        assert(t[i] == s[i]);
        if i + 1 < s.len() {
            assert(t[i + 1] == s[i + 1]);
        }
    }
}

/// A valid name, `-` and a non-empty run of lowercase letters and digits
/// make a valid name: `season` and `1` give `season-1`, `ios` and `v2`
/// give `ios-v2`.
pub proof fn law_names_join_by_hyphen(s: Seq<char>, t: Seq<char>)
    requires
        is_kebab_name(s),
        t.len() > 0,
        forall|i: int| 0 <= i < t.len() ==> ('a' <= #[trigger] t[i] && t[i] <= 'z') || ('0' <= t[i] && t[i] <= '9'),
    ensures
        is_kebab_name(s + seq!['-'] + t),
{
    let u = s + seq!['-'] + t;
    let n = s.len() as int;
    assert(u[0] == s[0]);
    assert forall|i: int| 0 <= i < u.len() implies is_lower_or_digit(#[trigger] u[i]) || u[i] == '-' by {
        if i < n {
            assert(u[i] == s[i]);
        } else if i > n {
            assert(u[i] == t[i - n - 1]);
        }
    }
    assert forall|i: int| 0 <= i < u.len() - 1 && #[trigger] u[i] == '-' implies u[i + 1] != '-' by {
        if i < n - 1 {
            assert(u[i] == s[i] && u[i + 1] == s[i + 1]);
        } else if i == n - 1 {
            assert(u[i] == s[i]);
        } else {
            assert(u[i + 1] == t[i - n]);
        }
    }
    assert(u[u.len() - 1] == t[t.len() - 1]);
}

} // verus!
