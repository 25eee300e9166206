use rustyrts::cargo::{cargo_argv, cargo_env, rustflags, sorted, Package, Phase};

fn argv(packages: Option<&Vec<Package>>, phase: Phase, cargo_args: &[&str], test_args: &[&str]) -> Vec<String> {
    let cargo_args: Vec<String> = cargo_args.iter().map(|s| s.to_string()).collect();
    let test_args: Vec<String> = test_args.iter().map(|s| s.to_string()).collect();
    cargo_argv("cargo", "/tmp/buildXYZ", packages, phase, &cargo_args, &test_args, false)
}

#[test]
fn generate_cargo_args_for_baseline_with_default_options() {
    assert_eq!(
        argv(None, Phase::Check, &[], &[])[1..],
        ["check", "--tests", "--examples", "--profile", "test", "--target-dir", "target_check", "--workspace"]
    );
    assert_eq!(
        argv(None, Phase::Build, &[], &[])[1..],
        ["build", "--tests", "--examples", "--profile", "test", "--workspace"]
    );
    assert_eq!(
        argv(None, Phase::Test, &[], &[])[1..],
        ["test", "--target-dir", "target_test", "--no-fail-fast", "--tests", "--examples", "--workspace"]
    );
    assert_eq!(
        argv(None, Phase::Dynamic, &[], &[])[1..],
        ["rustyrts", "dynamic", "--", "--", "--", "--workspace"]
    );
    assert_eq!(
        argv(None, Phase::Static, &[], &[])[1..],
        ["rustyrts", "static", "--", "--", "--", "--workspace"]
    );
}

#[test]
fn generate_cargo_args_with_additional_cargo_test_args_and_package() {
    let package_name = "cargo-mutants-testdata-something";
    let package = Package {
        name: package_name.to_owned(),
        relative_manifest_path: "testdata/something/Cargo.toml".to_string(),
    };
    let packages = vec![package];
    let build_manifest_path = "/tmp/buildXYZ/testdata/something/Cargo.toml";
    let test_args = ["--json"];
    assert_eq!(
        argv(Some(&packages), Phase::Check, &[], &test_args)[1..],
        ["check", "--tests", "--examples", "--profile", "test", "--target-dir", "target_check", "--manifest-path", build_manifest_path]
    );
    assert_eq!(
        argv(Some(&packages), Phase::Build, &[], &test_args)[1..],
        ["build", "--tests", "--examples", "--profile", "test", "--manifest-path", build_manifest_path]
    );
    assert_eq!(
        argv(Some(&packages), Phase::Test, &[], &test_args)[1..],
        ["test", "--target-dir", "target_test", "--no-fail-fast", "--tests", "--examples", "--manifest-path", build_manifest_path, "--json"]
    );
    assert_eq!(
        argv(Some(&packages), Phase::Dynamic, &[], &test_args)[1..],
        ["rustyrts", "dynamic", "--", "--", "--", "--manifest-path", build_manifest_path, "--json"]
    );
    assert_eq!(
        argv(Some(&packages), Phase::Static, &[], &test_args)[1..],
        ["rustyrts", "static", "--", "--", "--", "--manifest-path", build_manifest_path, "--json"]
    );
}

#[test]
fn generate_cargo_args_with_additional_cargo_args_and_test_args() {
    let test_args = ["--", "--test-threads=1"];
    let cargo_args = ["--verbose"];
    assert_eq!(
        argv(None, Phase::Check, &cargo_args, &test_args)[1..],
        ["check", "--tests", "--examples", "--profile", "test", "--target-dir", "target_check", "--workspace", "--verbose"]
    );
    assert_eq!(
        argv(None, Phase::Build, &cargo_args, &test_args)[1..],
        ["build", "--tests", "--examples", "--profile", "test", "--workspace", "--verbose"]
    );
    assert_eq!(
        argv(None, Phase::Test, &cargo_args, &test_args)[1..],
        ["test", "--target-dir", "target_test", "--no-fail-fast", "--tests", "--examples", "--workspace", "--verbose", "--", "--test-threads=1"]
    );
    assert_eq!(
        argv(None, Phase::Dynamic, &cargo_args, &test_args)[1..],
        ["rustyrts", "dynamic", "--", "--verbose", "--", "--", "--workspace", "--verbose", "--", "--test-threads=1"]
    );
    assert_eq!(
        argv(None, Phase::Static, &cargo_args, &test_args)[1..],
        ["rustyrts", "static", "--", "--verbose", "--", "--", "--workspace", "--verbose", "--", "--test-threads=1"]
    );
}

#[test]
fn several_packages_are_named_in_order() {
    let packages = vec![
        Package { name: "b".to_string(), relative_manifest_path: "b/Cargo.toml".to_string() },
        Package { name: "a".to_string(), relative_manifest_path: "a/Cargo.toml".to_string() },
    ];
    assert_eq!(argv(Some(&packages), Phase::Build, &[], &[])[6..], ["--package", "a", "--package", "b"]);
    let mir = cargo_argv("cargo", "/d", None, Phase::Static, &vec![], &vec![], true);
    assert_eq!(mir[1..], ["rustyrts", "static", "--", "--", "--emit=mir", "--", "--workspace"]);
    assert_eq!(argv(None, Phase::Build, &[], &[])[0], "cargo");
}

#[test]
fn strings_are_sorted() {
    let v: Vec<String> = ["pear", "apple", "fig", "apple", "ap"].iter().map(|s| s.to_string()).collect();
    let mut expected = v.clone();
    expected.sort();
    assert_eq!(sorted(&v), expected);
    assert!(Phase::Test.is_test_phase() && !Phase::Build.is_test_phase());
}

#[test]
fn encoded_rustflags_take_precedence_and_lints_are_capped() {
    assert_eq!(rustflags(Some("-Cfoo\x1f-Dwarnings"), Some("-Cbar -Cbaz")), "-Cfoo\x1f-Dwarnings\x1f--cap-lints=allow");
}

#[test]
fn plain_rustflags_are_split_at_spaces() {
    assert_eq!(rustflags(None, Some("-Cbar -Cbaz")), "-Cbar\x1f-Cbaz\x1f--cap-lints=allow");
}

#[test]
fn without_rustflags_only_lints_are_capped() {
    assert_eq!(rustflags(None, None), "--cap-lints=allow");
    assert_eq!(rustflags(Some(""), None), "\x1f--cap-lints=allow");
}

#[test]
fn cargo_environment_lists_settings_then_wrapper() {
    let wrapper = vec![("RUSTC_WRAPPER".to_string(), "/bin/rustyrts".to_string())];
    let env = cargo_env("info", "--cap-lints=allow", true, &wrapper);
    let env: Vec<(&str, &str)> = env.iter().map(|(k, v)| (k.as_str(), v.as_str())).collect();
    assert_eq!(
        env,
        [
            ("RUSTYRTS_LOG", "info"),
            ("CARGO_ENCODED_RUSTFLAGS", "--cap-lints=allow"),
            ("INSTA_UPDATE", "no"),
            ("TRYBUILD", "overwrite"),
            ("RUSTC_WRAPPER", "/bin/rustyrts"),
        ]
    );
    let env = cargo_env("", "x", false, &Vec::new());
    assert_eq!(env.len(), 3);
}

#[test]
fn dynamic_build_is_a_plain_build() {
    assert_eq!(argv(None, Phase::BuildDynamic, &[], &[])[1..], ["build", "--workspace"]);
}
