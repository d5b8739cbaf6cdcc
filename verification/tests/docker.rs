use distenv::docker::dockerfile_info;

#[test]
fn dockerfile_info_copies_each_binary_from_its_file_name() {
    let bins = vec!["app".to_owned(), "tool".to_owned()];
    let info = dockerfile_info(&bins);
    assert_eq!(info.bins.len(), 2);
    assert_eq!(info.bins[0].source.as_str(), "./app");
    assert_eq!(info.bins[0].name.as_str(), "app");
    assert_eq!(info.bins[1].source.as_str(), "./tool");
    assert_eq!(info.bins[1].name.as_str(), "tool");
    assert_eq!(info.runner.image.as_str(), "bookworm-slim");
    assert!(info.runner.apt_deps.is_none());
}

#[test]
fn dockerfile_info_with_no_binaries() {
    let info = dockerfile_info(&vec![]);
    assert!(info.bins.is_empty());
    assert_eq!(info.runner.image.as_str(), "bookworm-slim");
}
