use lazy_modman_cli::mod_entry::{default_required, version_query_params, ModEntry};
use lazy_modman_cli::version::{DependencyInfo, VersionInfo};

fn s(x: &str) -> Option<String> {
    Some(x.to_string())
}

fn dep(project: &str, version: Option<&str>, kind: &str) -> DependencyInfo {
    DependencyInfo {
        project_id: s(project),
        version_id: version.map(|v| v.to_string()),
        dependency_type: s(kind),
    }
}

fn version(id: &str, url: Option<&str>, file: Option<&str>, deps: Vec<DependencyInfo>) -> VersionInfo {
    VersionInfo {
        id: s(id),
        file_url: url.map(|u| u.to_string()),
        file_name: file.map(|f| f.to_string()),
        dependencies: Some(deps),
    }
}

fn entry(id: &str) -> ModEntry {
    ModEntry { id: s(id), required: true, ..ModEntry::default() }
}

#[test]
fn default_entry_is_empty() {
    let e = ModEntry::default();
    assert_eq!(e.id, None);
    assert_eq!(e.version_id, None);
    assert_eq!(e.name, None);
    assert_eq!(e.desc, None);
    assert!(!e.required);
    assert_eq!(e.download_link, None);
    assert_eq!(e.filename, None);
    assert_eq!(e.compatible_versions, None);
    assert_eq!(e.specific_version, None);
}

#[test]
fn required_by_default() {
    assert!(default_required());
}

#[test]
fn get_id_gives_id() {
    assert_eq!(entry("sodium").get_id(), Some("sodium"));
    assert_eq!(ModEntry::default().get_id(), None);
}

#[test]
fn query_params_are_json_arrays() {
    let p = version_query_params("fabric", "1.21.1");
    assert_eq!(
        p,
        vec![
            ("loaders".to_string(), "[\"fabric\"]".to_string()),
            ("game_versions".to_string(), "[\"1.21.1\"]".to_string()),
        ]
    );
}

#[test]
fn query_params_escape_strings() {
    let p = version_query_params("a\"b\\c", "x\ny\u{1}\u{1f}\té");
    assert_eq!(p[0].1, "[\"a\\\"b\\\\c\"]");
    assert_eq!(p[1].1, "[\"x\\ny\\u0001\\u001f\\té\"]");
}

#[test]
fn versions_url_names_project() {
    assert_eq!(
        entry("sodium").compatible_versions_url(),
        "https://api.modrinth.com/v2/project/sodium/version"
    );
}

#[test]
fn cache_lookup_finds_first_match() {
    let mut e = entry("sodium");
    let names = vec!["a.jar".to_string(), "sodium.jar".to_string(), "sodium.jar".to_string()];
    assert_eq!(e.check_if_cached(&names), None);
    e.filename = s("sodium.jar");
    assert_eq!(e.check_if_cached(&names), Some(1));
    e.filename = s("iris.jar");
    assert_eq!(e.check_if_cached(&names), None);
}

#[test]
fn failed_request_changes_nothing() {
    let mut e = entry("sodium");
    let before = e.clone();
    assert_eq!(e.get_compatible_versions(None), None);
    assert_eq!(e, before);
    let deps = e.get_metadata(None);
    assert!(deps.is_empty());
    assert_eq!(e, before);
}

#[test]
fn stored_versions() {
    let mut e = entry("sodium");
    assert_eq!(e.get_compatible_versions(Some(Some(vec![]))), Some(()));
    assert_eq!(e.compatible_versions, Some(vec![]));
    assert_eq!(e.get_compatible_versions(Some(None)), Some(()));
    assert_eq!(e.compatible_versions, None);
}

#[test]
fn specific_version_prefers_version_id() {
    let mut e = entry("sodium");
    e.version_id = s("v2");
    e.compatible_versions = Some(vec![
        version("v1", None, None, vec![]),
        version("v2", Some("u2"), Some("f2"), vec![]),
        version("v2", Some("u3"), Some("f3"), vec![]),
    ]);
    assert_eq!(e.get_specific_version(), Some(()));
    assert_eq!(e.specific_version, Some(version("v2", Some("u2"), Some("f2"), vec![])));
}

#[test]
fn specific_version_falls_back_to_first() {
    let mut e = entry("sodium");
    e.version_id = s("missing");
    e.compatible_versions = Some(vec![
        version("v1", Some("u1"), Some("f1"), vec![]),
        version("v2", None, None, vec![]),
    ]);
    assert_eq!(e.get_specific_version(), Some(()));
    assert_eq!(e.specific_version, Some(version("v1", Some("u1"), Some("f1"), vec![])));

    let mut f = entry("iris");
    f.compatible_versions = Some(vec![version("v7", None, None, vec![]), version("v8", None, None, vec![])]);
    assert_eq!(f.get_specific_version(), Some(()));
    assert_eq!(f.specific_version, Some(version("v7", None, None, vec![])));
}

#[test]
fn specific_version_fails_without_versions() {
    let mut e = entry("sodium");
    assert_eq!(e.get_specific_version(), None);
    assert_eq!(e.specific_version, None);
    e.compatible_versions = Some(vec![]);
    assert_eq!(e.get_specific_version(), None);
    assert_eq!(e.specific_version, None);
}

#[test]
fn download_params_recorded() {
    let mut e = entry("sodium");
    assert_eq!(e.get_download_params(), None);
    e.specific_version = Some(version("v1", Some("https://x/s.jar"), Some("s.jar"), vec![]));
    assert_eq!(
        e.get_download_params(),
        Some(("https://x/s.jar".to_string(), "s.jar".to_string()))
    );
    assert_eq!(e.download_link, s("https://x/s.jar"));
    assert_eq!(e.filename, s("s.jar"));
    assert!(e.is_downloadable());
}

#[test]
fn download_params_absent_without_url() {
    let mut e = entry("sodium");
    e.specific_version = Some(version("v1", None, None, vec![]));
    assert_eq!(e.get_download_params(), None);
    assert_eq!(e.download_link, None);
    assert!(!e.is_downloadable());
}

#[test]
fn dependencies_keep_required_only() {
    let mut e = entry("iris");
    assert!(e.get_dependencies().is_empty());
    e.specific_version = Some(version(
        "v1",
        None,
        None,
        vec![
            dep("sodium", Some("abc"), "required"),
            dep("modmenu", None, "optional"),
            dep("fabric-api", None, "required"),
            dep("old", None, "incompatible"),
        ],
    ));
    let deps = e.get_dependencies();
    assert_eq!(
        deps,
        vec![
            ModEntry { id: s("sodium"), version_id: s("abc"), required: true, ..ModEntry::default() },
            ModEntry { id: s("fabric-api"), required: true, ..ModEntry::default() },
        ]
    );
}

#[test]
fn metadata_from_response() {
    let mut e = entry("iris");
    let versions = vec![
        version("v1", Some("https://x/iris-1.jar"), Some("iris-1.jar"), vec![dep("sodium", None, "required")]),
        version("v0", Some("https://x/iris-0.jar"), Some("iris-0.jar"), vec![]),
    ];
    let deps = e.get_metadata(Some(Some(versions.clone())));
    assert_eq!(deps, vec![ModEntry { id: s("sodium"), required: true, ..ModEntry::default() }]);
    assert_eq!(e.compatible_versions, Some(versions.clone()));
    assert_eq!(e.specific_version, Some(versions[0].clone()));
    assert_eq!(e.download_link, s("https://x/iris-1.jar"));
    assert_eq!(e.filename, s("iris-1.jar"));
}

#[test]
fn metadata_with_empty_list() {
    let mut e = entry("iris");
    let deps = e.get_metadata(Some(Some(vec![])));
    assert!(deps.is_empty());
    assert_eq!(e.specific_version, None);
    assert_eq!(e.download_link, None);
}

#[test]
fn display_name_falls_back() {
    let mut e = entry("iris");
    assert_eq!(e.display_name("mods_cache/share/iris.jar".to_string()), "mods_cache/share/iris.jar");
    e.name = s("Iris Shaders");
    assert_eq!(e.display_name("x".to_string()), "Iris Shaders");
}

#[test]
fn duplicate_is_equal() {
    let mut e = entry("iris");
    e.compatible_versions = Some(vec![version("v1", Some("u"), Some("f"), vec![dep("a", None, "required")])]);
    e.specific_version = Some(version("v1", Some("u"), Some("f"), vec![]));
    assert_eq!(e.duplicate(), e);
}
