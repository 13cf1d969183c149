use masterdata_core::config::{PublishTarget, PublishTargetKind};
use masterdata_core::project::{
    absolute_path, check_artifact_root_overlaps, initial_config, is_path_ancestor_or_equal, is_yaml_source, join_path,
    listed_source_files,
    normalize_path, paths_overlap, project_root_of, resolve_project_local_path, resolve_project_path, InitOptions,
    Project, PROJECT_CONFIG_FILENAME,
};

fn options() -> InitOptions {
    InitOptions { project_id: "game".into(), name: "Game".into(), version: "1.0.0".into() }
}

#[test]
fn normalization_resolves_dots_lexically() {
    assert_eq!(normalize_path("/a/./b/../c"), "/a/c");
    assert_eq!(normalize_path("a/../../b"), "../b");
    assert_eq!(normalize_path("/../a"), "/a");
    assert_eq!(normalize_path(""), "");
    assert_eq!(normalize_path("./"), "");
    assert_eq!(normalize_path("a//b/"), "a/b");
    assert_eq!(normalize_path("/"), "/");
    assert_eq!(normalize_path("../../x/.."), "../..");
}

#[test]
fn normalizing_twice_changes_nothing() {
    for path in ["/a/./b/../c", "a/../../b", "./x//y/", "../..", "/", ""] {
        let once = normalize_path(path);
        assert_eq!(normalize_path(&once), once);
    }
}

#[test]
fn configured_paths_resolve_against_the_root() {
    assert_eq!(resolve_project_path("/p", "sources"), "/p/sources");
    assert_eq!(resolve_project_path("/p", "/abs/x"), "/abs/x");
    assert_eq!(resolve_project_path("/p/", "../x"), "/x");
    assert_eq!(resolve_project_path("/p", "./a/./b"), "/p/a/b");
    assert_eq!(absolute_path("project", "/work"), "/work/project");
    assert_eq!(join_path("/p/out", "csharp"), "/p/out/csharp");
    assert_eq!(join_path("/", "x"), "/x");
    assert_eq!(join_path("", "x"), "x");
}

#[test]
fn ancestry_is_by_component() {
    assert!(is_path_ancestor_or_equal("/p", "/p/a"));
    assert!(is_path_ancestor_or_equal("/p", "/p"));
    assert!(!is_path_ancestor_or_equal("/p/a", "/p"));
    assert!(!is_path_ancestor_or_equal("/p", "/pa"));
    assert!(paths_overlap("/p/a", "/p"));
    assert!(!paths_overlap("/p/a", "/p/b"));
}

#[test]
fn project_local_paths_stay_strictly_inside_the_root() {
    let absolute = resolve_project_local_path("/p", "/abs", "build.artifact_dir").unwrap_err();
    assert_eq!(absolute.diagnostic().code, "E-PROJECT-PATH-UNSAFE");
    assert_eq!(absolute.diagnostic().message, "build.artifact_dir must be a project-local relative path");
    assert_eq!(absolute.diagnostic().source.as_deref(), Some("/abs"));
    assert_eq!(absolute.diagnostic().related_requirements, vec!["PROJECT-PATH-001", "BUILD-ARTIFACT-001"]);

    let escaping = resolve_project_local_path("/p", "../out", "build.artifact_dir").unwrap_err();
    assert_eq!(escaping.diagnostic().message, "build.artifact_dir must remain inside the project root");
    assert_eq!(escaping.diagnostic().source.as_deref(), Some("/out"));

    let itself = resolve_project_local_path("/p", ".", "build.artifact_dir").unwrap_err();
    assert_eq!(itself.diagnostic().source.as_deref(), Some("/p"));

    assert_eq!(resolve_project_local_path("/p", ".masterdata/output", "build.artifact_dir").unwrap(), "/p/.masterdata/output");
}

#[test]
fn artifact_root_must_not_overlap_sources_or_cache() {
    let mut config = initial_config(&options());
    assert!(check_artifact_root_overlaps("/p", &config, "/p/.masterdata/output").is_ok());

    let inside_sources = check_artifact_root_overlaps("/p", &config, "/p/sources/out").unwrap_err();
    assert_eq!(inside_sources.diagnostic().message, "canonical artifact root overlaps configured source root `/p/sources`");
    assert_eq!(inside_sources.diagnostic().source.as_deref(), Some("/p/sources/out"));

    config.build.cache = ".masterdata/output/cache".into();
    let cache = check_artifact_root_overlaps("/p", &config, "/p/.masterdata/output").unwrap_err();
    assert_eq!(cache.diagnostic().message, "canonical artifact root overlaps build cache `/p/.masterdata/output/cache`");
}

#[test]
fn the_root_is_the_directory_of_the_marker() {
    assert_eq!(PROJECT_CONFIG_FILENAME, "masterdata.toml");
    assert_eq!(project_root_of("/p/masterdata.toml"), "/p");
    assert_eq!(project_root_of("/masterdata.toml"), "/");
    assert_eq!(project_root_of("masterdata.toml"), "");
    assert_eq!(project_root_of("./masterdata.toml"), ".");
    assert_eq!(project_root_of("/"), ".");
}

#[test]
fn initial_config_uses_the_defaults() {
    let config = initial_config(&options());
    assert_eq!(config.project.id, "game");
    assert_eq!(config.sources.roots, vec!["sources".to_string()]);
    assert_eq!(config.build.artifact_dir, ".masterdata/output");
    assert_eq!(config.build.cache, ".masterdata/cache");
    assert!(config.publish.targets.is_empty());
    assert!(config.validate().is_ok());
}

#[test]
fn project_info_resolves_every_path() {
    let mut config = initial_config(&options());
    config.publish.targets.push(PublishTarget { kind: PublishTargetKind::Binary, path: "../unity/data.bytes".into() });
    let project = Project::assemble("/work/game".into(), "/work/game/masterdata.toml".into(), config);
    assert_eq!(project.root(), "/work/game");
    assert_eq!(project.config_path(), "/work/game/masterdata.toml");
    assert_eq!(project.config().project.name, "Game");
    let info = project.info();
    assert_eq!(info.project_root, "/work/game");
    assert_eq!(info.project_id, "game");
    assert_eq!(info.version, "1.0.0");
    assert_eq!(info.source_roots, vec!["/work/game/sources".to_string()]);
    assert_eq!(info.artifact_root, "/work/game/.masterdata/output");
    assert_eq!(info.csharp_output, "/work/game/.masterdata/output/csharp");
    assert_eq!(info.binary_output, "/work/game/.masterdata/output/masterdata.bytes");
    assert_eq!(info.cache, "/work/game/.masterdata/cache");
    assert_eq!(info.publish_targets.len(), 1);
    assert_eq!(info.publish_targets[0].kind, PublishTargetKind::Binary);
    assert_eq!(info.publish_targets[0].path, "../unity/data.bytes");
    assert_eq!(info.publish_targets[0].resolved_path, "/work/unity/data.bytes");
    assert_eq!(project.csharp_output_path(), info.csharp_output);
    assert_eq!(project.cache_path(), info.cache);
}

#[test]
fn yaml_sources_are_recognized_by_their_extension() {
    assert!(is_yaml_source("schemas/items.yaml"));
    assert!(is_yaml_source("schemas/items.YML"));
    assert!(is_yaml_source("a.b/items.Yaml"));
    assert!(!is_yaml_source("schemas/items.json"));
    assert!(!is_yaml_source("schemas/.yaml"));
    assert!(!is_yaml_source("schemas.yaml/readme"));
    assert!(!is_yaml_source("yaml"));
}

#[test]
fn source_files_are_listed_once_in_order() {
    let found = vec![
        "src/b.yaml".to_owned(),
        "src/notes.txt".to_owned(),
        "src/a.yml".to_owned(),
        "src/b.yaml".to_owned(),
    ];
    assert_eq!(listed_source_files(&found), vec!["src/a.yml".to_owned(), "src/b.yaml".to_owned()]);
}
