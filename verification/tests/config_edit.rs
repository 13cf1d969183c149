use masterdata_core::config_edit::{legacy_build_path_refusal, reject_legacy_build_paths};
use masterdata_core::config::PublishTargetKind;
use masterdata_core::config_edit::{
    preview_project_config_edit, ProjectConfigEditOperation,
};
use masterdata_core::source_edit::source_content_identity;

const SOURCE: &str = "[project]\r\nid = \"test\"\r\nname = \"Test\" # keep\r\nversion = \"0.1.0\"\r\n\r\n[sources]\r\nroots = [\"sources\"]\r\n\r\n[build]\r\nartifact_dir = \".masterdata/output\"\r\ncache = \".masterdata/cache\"\r\n\r\n[build.profiles.prod]\r\ninclude_tags = [\"release\", 'keep'] # profile comment\r\nexclude_tags = [\r\n  \"debug\",\r\n]\r\n\r\n[[publish.targets]]\r\nkind = \"csharp\"\r\npath = \"Generated\" # target comment\r\n";

fn update_profile(name: &str, include_tags: &[&str], exclude_tags: &[&str]) -> ProjectConfigEditOperation {
    ProjectConfigEditOperation::UpdateProfile {
        name: name.into(),
        include_tags: include_tags.iter().map(|tag| tag.to_string()).collect(),
        exclude_tags: exclude_tags.iter().map(|tag| tag.to_string()).collect(),
    }
}

#[test]
fn profile_update_preserves_unrelated_bytes_and_quote_style() {
    let preview = preview_project_config_edit(
        SOURCE,
        &ProjectConfigEditOperation::UpdateProfile {
            name: "prod".into(),
            include_tags: vec!["keep".into(), "new-tag".into()],
            exclude_tags: vec!["debug".into()],
        },
    )
    .expect("profile edit");
    assert!(preview
        .candidate_source
        .contains("include_tags = ['keep', \"new-tag\"] # profile comment"));
    assert!(preview.candidate_source.contains("name = \"Test\" # keep\r\n"));
    assert!(preview
        .candidate_source
        .contains("exclude_tags = [\r\n  \"debug\",\r\n]"));
    assert!(!preview.candidate_source.replace("\r\n", "").contains('\n'));
}

#[test]
fn new_profile_and_target_are_appended_without_reserializing() {
    let profile = preview_project_config_edit(
        SOURCE,
        &ProjectConfigEditOperation::AddProfile {
            name: "debug".into(),
            include_tags: vec!["debug".into()],
            exclude_tags: Vec::new(),
        },
    )
    .expect("new profile");
    assert!(profile
        .candidate_source
        .ends_with("include_tags = [\"debug\"]\r\n"));
    let target = preview_project_config_edit(
        SOURCE,
        &ProjectConfigEditOperation::AddPublishTarget {
            kind: PublishTargetKind::Binary,
            path: "data/masterdata.bytes".into(),
        },
    )
    .expect("new target");
    assert!(target
        .candidate_source
        .contains("kind = \"binary\"\r\npath = \"data/masterdata.bytes\""));
}

#[test]
fn multiline_string_header_is_not_treated_as_profile_section() {
    let source = "[unknown]\ntext = \"\"\"\n[build.profiles.prod]\ninclude_tags = [\"decoy\"]\n\"\"\"\n[build.profiles.prod]\ninclude_tags = [\"real\"]\n";
    let preview = preview_project_config_edit(
        source,
        &ProjectConfigEditOperation::UpdateProfile {
            name: "prod".into(),
            include_tags: vec!["updated".into()],
            exclude_tags: Vec::new(),
        },
    )
    .expect("profile edit");
    assert!(preview.candidate_source.contains("include_tags = [\"decoy\"]"));
    assert!(preview.candidate_source.contains("include_tags = [\"updated\"]"));
}

#[test]
fn commented_multiline_array_noop_preserves_exact_bytes_and_extension_keeps_comment() {
    let source = "[build.profiles.prod]\ninclude_tags = [\n  \"a\", # keep a\n  \"b\", # keep b\n]\n";
    let noop = preview_project_config_edit(
        source,
        &ProjectConfigEditOperation::UpdateProfile {
            name: "prod".into(),
            include_tags: vec!["a".into(), "b".into()],
            exclude_tags: Vec::new(),
        },
    )
    .expect("noop");
    assert_eq!(noop.candidate_source, source);
    assert!(!noop.changed);

    let single = "[build.profiles.prod]\ninclude_tags = [\"a\" # keep a\n]\n";
    let extended = preview_project_config_edit(
        single,
        &ProjectConfigEditOperation::UpdateProfile {
            name: "prod".into(),
            include_tags: vec!["a".into(), "b".into()],
            exclude_tags: Vec::new(),
        },
    )
    .expect("extend");
    assert!(extended.candidate_source.contains("\"a\", # keep a"));
    assert!(extended.candidate_source.contains("\"b\""));
    assert!(toml::from_str::<toml::Value>(&extended.candidate_source).is_ok());
}

#[test]
fn commented_array_removal_preserves_comments_and_valid_toml() {
    let source = "[build.profiles.prod]\ninclude_tags = [\n  \"a\", # keep a\n  \"b\", # keep b\n  \"c\" # keep c\n]\n";
    let preview = preview_project_config_edit(
        source,
        &ProjectConfigEditOperation::UpdateProfile {
            name: "prod".into(),
            include_tags: vec!["a".into()],
            exclude_tags: Vec::new(),
        },
    )
    .expect("remove entries");
    assert!(preview.candidate_source.contains("# keep a"));
    assert!(preview.candidate_source.contains("# keep b"));
    assert!(preview.candidate_source.contains("# keep c"));
    assert!(!preview.candidate_source.contains("\"b\""));
    assert!(!preview.candidate_source.contains("\"c\""));
    let parsed = toml::from_str::<toml::Value>(&preview.candidate_source).expect("valid TOML");
    let tags = parsed["build"]["profiles"]["prod"]["include_tags"]
        .as_array()
        .expect("tags");
    assert_eq!(tags.len(), 1);
    assert_eq!(tags[0].as_str(), Some("a"));
}

#[test]
fn target_path_update_preserves_inline_comment_and_uses_occurrence() {
    let preview = preview_project_config_edit(
        SOURCE,
        &ProjectConfigEditOperation::UpdatePublishTargetPath {
            index: 0,
            path: "Updated/Generated".into(),
        },
    )
    .expect("target update");
    assert!(preview
        .candidate_source
        .contains("path = \"Updated/Generated\" # target comment"));
}

#[test]
fn content_identity_is_the_hex_sha256_of_the_utf8_bytes() {
    assert_eq!(
        source_content_identity(""),
        "e3b0c44298fc1c149afbf4c8996fb92427ae41e4649b934ca495991b7852b855"
    );
    assert_eq!(
        source_content_identity("abc"),
        "ba7816bf8f01cfea414140de5dae2223b00361a396177a9cb410ff61f20015ad"
    );
}

#[test]
fn preview_reports_identities_and_change() {
    let preview = preview_project_config_edit(SOURCE, &update_profile("prod", &["release", "keep"], &["debug"]))
        .expect("noop edit");
    assert_eq!(preview.candidate_source, SOURCE);
    assert!(!preview.changed);
    assert_eq!(preview.base_content_identity, preview.candidate_content_identity);
    assert_eq!(preview.base_content_identity, source_content_identity(SOURCE));

    let changed = preview_project_config_edit(SOURCE, &update_profile("prod", &["release"], &["debug"]))
        .expect("edit");
    assert!(changed.changed);
    assert_ne!(changed.base_content_identity, changed.candidate_content_identity);
    assert!(changed.candidate_source.contains("include_tags = [\"release\"] # profile comment"));
}

#[test]
fn profile_name_errors_and_collisions() {
    let invalid = preview_project_config_edit(
        SOURCE,
        &ProjectConfigEditOperation::AddProfile {
            name: "Prod".into(),
            include_tags: Vec::new(),
            exclude_tags: Vec::new(),
        },
    )
    .unwrap_err();
    assert_eq!(invalid.diagnostic.code, "E-CONFIG-EDIT-PROFILE-NAME");
    assert_eq!(invalid.diagnostic.message, "Build Profile name `Prod` is not lowercase kebab-case");
    assert_eq!(invalid.diagnostic.related_requirements, vec!["CONFIG-EDIT-002".to_string()]);

    let collision = preview_project_config_edit(
        SOURCE,
        &ProjectConfigEditOperation::AddProfile {
            name: "prod".into(),
            include_tags: Vec::new(),
            exclude_tags: Vec::new(),
        },
    )
    .unwrap_err();
    assert_eq!(collision.diagnostic.code, "E-CONFIG-EDIT-PROFILE-COLLISION");
    assert_eq!(collision.diagnostic.message, "Build Profile `prod` already exists");

    let missing = preview_project_config_edit(SOURCE, &update_profile("qa", &[], &[])).unwrap_err();
    assert_eq!(missing.diagnostic.code, "E-CONFIG-EDIT-PROFILE-NOT-FOUND");
    assert_eq!(missing.diagnostic.message, "Build Profile `qa` was not found");
}

#[test]
fn target_errors_name_the_occurrence() {
    let missing = preview_project_config_edit(
        SOURCE,
        &ProjectConfigEditOperation::UpdatePublishTargetPath { index: 12, path: "x".into() },
    )
    .unwrap_err();
    assert_eq!(missing.diagnostic.code, "E-CONFIG-EDIT-TARGET-NOT-FOUND");
    assert_eq!(missing.diagnostic.message, "publish target occurrence[12] was not found");

    let no_path = "[[publish.targets]]\nkind = \"csharp\"\n";
    let unsupported = preview_project_config_edit(
        no_path,
        &ProjectConfigEditOperation::UpdatePublishTargetPath { index: 0, path: "x".into() },
    )
    .unwrap_err();
    assert_eq!(unsupported.diagnostic.code, "E-CONFIG-EDIT-TARGET-UNSUPPORTED");

    let not_string = "[[publish.targets]]\nkind = \"csharp\"\npath = 3\n";
    let refused = preview_project_config_edit(
        not_string,
        &ProjectConfigEditOperation::UpdatePublishTargetPath { index: 0, path: "x".into() },
    )
    .unwrap_err();
    assert_eq!(refused.diagnostic.code, "E-CONFIG-EDIT-UNSUPPORTED");
    assert_eq!(refused.diagnostic.message, "target path is not a directly editable TOML string");
}

#[test]
fn invalid_toml_and_missing_array_keys() {
    let broken = preview_project_config_edit("[project\n", &update_profile("prod", &[], &[])).unwrap_err();
    assert_eq!(broken.diagnostic.code, "E-CONFIG-EDIT-TOML-PARSE");
    assert!(broken.diagnostic.message.starts_with("configuration is not valid TOML: "));

    let bare = "[build.profiles.prod]\n[sources]\nroots = []\n";
    let added = preview_project_config_edit(bare, &update_profile("prod", &["a"], &[])).expect("added key");
    assert_eq!(
        added.candidate_source,
        "[build.profiles.prod]\ninclude_tags = [\"a\"]\n[sources]\nroots = []\n"
    );

    let scalar = "[build.profiles.prod]\ninclude_tags = \"a\"\n";
    let refused = preview_project_config_edit(scalar, &update_profile("prod", &["a"], &[])).unwrap_err();
    assert_eq!(refused.diagnostic.code, "E-CONFIG-EDIT-UNSUPPORTED");
    assert_eq!(refused.diagnostic.message, "`include_tags` is not a directly editable string array");
}

#[test]
fn multiline_arrays_are_rebuilt_one_entry_per_line() {
    let source = "[build.profiles.prod]\ninclude_tags = [\n    \"a\",\n    \"b\",\n]\n";
    let preview = preview_project_config_edit(source, &update_profile("prod", &["b", "c"], &[])).expect("rebuilt");
    assert_eq!(
        preview.candidate_source,
        "[build.profiles.prod]\ninclude_tags = [\n    \"b\",\n    \"c\"\n]\n"
    );
    let cleared = preview_project_config_edit(source, &update_profile("prod", &[], &[])).expect("cleared");
    assert_eq!(cleared.candidate_source, "[build.profiles.prod]\ninclude_tags = []\n");
}


#[test]
fn retired_build_paths_are_refused() {
    let output = reject_legacy_build_paths("[build]\noutput = \"out\"\nbinary_output = \"bin\"\n", "masterdata.toml").unwrap_err();
    assert_eq!(output.diagnostic.code, "E-CONFIG-LEGACY-BUILD-OUTPUT");
    assert_eq!(output.diagnostic.message, "build.output is no longer supported by the canonical artifact model");
    assert_eq!(output.diagnostic.source.as_deref(), Some("masterdata.toml"));
    assert_eq!(
        output.diagnostic.related_requirements,
        vec!["PROJECT-CONFIG-004".to_owned(), "PROJECT-CONFIG-005".to_owned()]
    );
    let binary = reject_legacy_build_paths("[build]\nbinary_output = \"bin\"\n", "masterdata.toml").unwrap_err();
    assert_eq!(binary.diagnostic.code, "E-CONFIG-LEGACY-BINARY-OUTPUT");
    assert!(binary.diagnostic.suggestion.unwrap().starts_with("the canonical binary is"));
    assert!(reject_legacy_build_paths("[build]\nartifact_dir = \".masterdata\"\n", "masterdata.toml").is_ok());
    assert!(reject_legacy_build_paths("build = 3\n", "masterdata.toml").is_ok());
    assert!(reject_legacy_build_paths("not toml [", "masterdata.toml").is_ok());
    assert!(legacy_build_path_refusal(&None, "masterdata.toml").is_ok());
    assert!(legacy_build_path_refusal(&Some(vec!["output".to_owned()]), "m.toml").is_err());
}

#[test]
fn added_sections_keep_the_source_as_a_prefix() {
    let added = preview_project_config_edit(
        SOURCE,
        &ProjectConfigEditOperation::AddProfile {
            name: "nightly".into(),
            include_tags: vec!["core".into()],
            exclude_tags: Vec::new(),
        },
    )
    .unwrap();
    assert!(added.changed);
    assert!(added.candidate_source.starts_with(SOURCE));
    assert!(added.candidate_source.contains("[build.profiles.nightly]"));
    assert_eq!(added.base_content_identity, source_content_identity(SOURCE));
    assert_eq!(added.candidate_content_identity, source_content_identity(&added.candidate_source));
    let target = preview_project_config_edit(
        SOURCE,
        &ProjectConfigEditOperation::AddPublishTarget { kind: PublishTargetKind::Binary, path: "out/bin".into() },
    )
    .unwrap();
    assert!(target.candidate_source.starts_with(SOURCE));
}
