use distenv::resolver::resolve;
use distenv::resolver::DependencyStage;
use distenv::resolver::PackageSpec;
use distenv::resolver::SystemDependencies;

fn pkg(version: Option<&str>, targets: Vec<&str>, stages: Vec<DependencyStage>) -> PackageSpec {
    PackageSpec {
        version: version.map(|v| v.to_owned()),
        targets: targets.into_iter().map(|t| t.to_owned()).collect(),
        stages,
    }
}

fn no_deps() -> SystemDependencies {
    SystemDependencies { homebrew: vec![], apt: vec![], chocolatey: vec![] }
}

fn targets(list: Vec<&str>) -> Vec<String> {
    list.into_iter().map(|t| t.to_owned()).collect()
}

#[test]
fn versioned_and_unversioned_apt_render() {
    let mut deps = no_deps();
    deps.apt.push(("foo".to_owned(), pkg(Some("1.2"), vec![], vec![])));
    deps.apt.push(("bar".to_owned(), pkg(None, vec![], vec![])));
    let cmd = resolve(&targets(vec!["x86_64-unknown-linux-gnu"]), &deps);
    assert_eq!(cmd.unwrap(), "sudo apt-get install foo=1.2 bar");
}

#[test]
fn stop_at_first_match_yields_none() {
    let mut deps = no_deps();
    deps.homebrew.push(("pkg".to_owned(), pkg(None, vec![], vec![])));
    let cmd = resolve(
        &targets(vec!["x86_64-unknown-linux-gnu", "aarch64-apple-darwin"]),
        &deps,
    );
    assert!(cmd.is_none());
}

#[test]
fn musl_appends_toolchain_helper() {
    let mut deps = no_deps();
    deps.apt.push(("cmake".to_owned(), pkg(None, vec![], vec![])));
    let cmd = resolve(&targets(vec!["x86_64-unknown-linux-musl"]), &deps).unwrap();
    assert_eq!(cmd, "sudo apt-get install cmake musl-tools");
    assert_eq!(cmd.matches("musl-tools").count(), 1);
}

#[test]
fn musl_with_no_declared_packages_still_yields_helper() {
    let cmd = resolve(&targets(vec!["aarch64-unknown-linux-musl"]), &no_deps()).unwrap();
    assert_eq!(cmd, "sudo apt-get install musl-tools");
}

#[test]
fn windows_one_line_per_package() {
    let mut deps = no_deps();
    deps.chocolatey.push(("a".to_owned(), pkg(None, vec![], vec![])));
    deps.chocolatey.push(("b".to_owned(), pkg(Some("2.0"), vec![], vec![])));
    let cmd = resolve(&targets(vec!["x86_64-pc-windows-msvc"]), &deps).unwrap();
    assert_eq!(cmd, "choco install a\nchoco install b --version=2.0");
    assert_eq!(cmd.lines().count(), 2);
}

#[test]
fn unknown_targets_are_skipped() {
    let mut deps = no_deps();
    deps.homebrew.push(("openssl".to_owned(), pkg(None, vec![], vec![])));
    deps.homebrew.push(("libssh".to_owned(), pkg(None, vec![], vec![])));
    let cmd = resolve(
        &targets(vec!["wasm32-unknown-unknown", "aarch64-apple-darwin"]),
        &deps,
    );
    assert_eq!(cmd.unwrap(), "brew install openssl libssh");
}

#[test]
fn no_known_family_yields_none() {
    let mut deps = no_deps();
    deps.apt.push(("foo".to_owned(), pkg(None, vec![], vec![])));
    let cmd = resolve(&targets(vec!["wasm32-unknown-unknown"]), &deps);
    assert!(cmd.is_none());
}

#[test]
fn empty_target_list_yields_none() {
    let cmd = resolve(&targets(vec![]), &no_deps());
    assert!(cmd.is_none());
}

#[test]
fn package_for_other_target_is_filtered_out() {
    let mut deps = no_deps();
    deps.apt.push((
        "foo".to_owned(),
        pkg(None, vec!["aarch64-unknown-linux-gnu"], vec![]),
    ));
    let cmd = resolve(&targets(vec!["x86_64-unknown-linux-gnu"]), &deps);
    assert!(cmd.is_none());
    let cmd = resolve(&targets(vec!["aarch64-unknown-linux-gnu"]), &deps);
    assert_eq!(cmd.unwrap(), "sudo apt-get install foo");
}

#[test]
fn run_stage_only_package_is_filtered_out() {
    let mut deps = no_deps();
    deps.apt.push(("foo".to_owned(), pkg(None, vec![], vec![DependencyStage::Run])));
    let cmd = resolve(&targets(vec!["x86_64-unknown-linux-gnu"]), &deps);
    assert!(cmd.is_none());
    deps.apt.push((
        "bar".to_owned(),
        pkg(None, vec![], vec![DependencyStage::Build, DependencyStage::Run]),
    ));
    let cmd = resolve(&targets(vec!["x86_64-unknown-linux-gnu"]), &deps);
    assert_eq!(cmd.unwrap(), "sudo apt-get install bar");
}
