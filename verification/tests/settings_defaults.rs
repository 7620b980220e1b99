use cli_schema::settings::{
    default_build, default_dev_path, default_dist_dir, BuildConfig, BundleConfig, BundleTarget,
    DebConfig, EmbeddedServerConfig, OsxConfig, Port, SecurityConfig,
};

#[test]
fn default_dev_path_is_empty() {
    assert_eq!(default_dev_path(), "");
}

#[test]
fn default_dist_dir_is_the_sibling_dist() {
    assert_eq!(default_dist_dir(), "../dist");
}

#[test]
fn default_build_has_the_default_paths_and_no_command() {
    assert_eq!(
        default_build(),
        BuildConfig {
            dev_path: "".to_string(),
            dist_dir: "../dist".to_string(),
            before_dev_command: None,
            before_build_command: None,
            with_global_tauri: false,
        }
    );
}

#[test]
fn default_package_settings_are_empty() {
    assert_eq!(DebConfig::default(), DebConfig { depends: None, use_bootstrapper: false });
    assert_eq!(
        OsxConfig::default(),
        OsxConfig {
            frameworks: None,
            minimum_system_version: None,
            exception_domain: None,
            license: None,
            use_bootstrapper: false,
        }
    );
}

#[test]
fn default_bundle_is_inactive_and_empty() {
    let bundle = BundleConfig::default();
    assert!(!bundle.active);
    assert_eq!(bundle.targets, None);
    assert_eq!(bundle.name, None);
    assert_eq!(bundle.identifier, None);
    assert_eq!(bundle.icon, None);
    assert_eq!(bundle.version, None);
    assert_eq!(bundle.resources, None);
    assert_eq!(bundle.copyright, None);
    assert_eq!(bundle.category, None);
    assert_eq!(bundle.short_description, None);
    assert_eq!(bundle.long_description, None);
    assert_eq!(bundle.script, None);
    assert_eq!(bundle.deb, DebConfig::default());
    assert_eq!(bundle.osx, OsxConfig::default());
    assert_eq!(bundle.external_bin, None);
}

#[test]
fn default_server_names_nothing() {
    assert_eq!(
        EmbeddedServerConfig::default(),
        EmbeddedServerConfig { host: None, port: None, public_path: None }
    );
}

#[test]
fn security_settings_keep_their_policy() {
    assert_eq!(SecurityConfig::default().csp(), &None);
    let policy = Some("default-src 'self'".to_string());
    assert_eq!(SecurityConfig::new(policy.clone()).csp(), &policy);
}

#[test]
fn ports_and_targets_compare_by_value() {
    assert_eq!(Port::Value(8080), Port::Value(8080));
    assert_ne!(Port::Value(8080), Port::Random);
    assert_eq!(BundleTarget::One("deb".to_string()), BundleTarget::One("deb".to_string()));
    assert_ne!(
        BundleTarget::One("deb".to_string()),
        BundleTarget::All(vec!["deb".to_string()])
    );
}
