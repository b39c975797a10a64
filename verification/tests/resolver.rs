use vscer::index::group_by_version;
use vscer::parse::parse_extension_query_data;
use vscer::resolve::{handle_with_platform, handle_without_platform, platform_source, Resolution};
use vscer::types::{ExtVersion, SelectMode};

fn record(version: &str, platform: Option<&str>, source: &str) -> ExtVersion {
    ExtVersion {
        version: version.to_string(),
        target_platform: platform.map(|p| p.to_string()),
        file_source: source.to_string(),
    }
}

fn explicit(version: &str) -> SelectMode {
    SelectMode::SpecVersion(version.to_string())
}

fn strings(items: &[&str]) -> Vec<String> {
    items.iter().map(|s| s.to_string()).collect()
}

fn flat_catalog() -> Vec<ExtVersion> {
    vec![record("3.0", None, "s3"), record("2.0", None, "s2"), record("1.0", None, "s1")]
}

fn platform_catalog() -> Vec<ExtVersion> {
    vec![
        record("2.0", Some("win32"), "2w"),
        record("2.0", Some("linux"), "2l"),
        record("1.0", Some("win32"), "1w"),
        record("1.0", Some("linux"), "1l"),
    ]
}

#[test]
fn an_explicit_middle_version_of_three() {
    let text = r#"{"results":[{"extensions":[{"versions":[
        {"version":"3.0","files":[{"assetType":"Microsoft.VisualStudio.Services.VSIXPackage","source":"s3"}]},
        {"version":"2.0","files":[{"assetType":"Microsoft.VisualStudio.Services.VSIXPackage","source":"s2"}]},
        {"version":"1.0","files":[{"assetType":"Microsoft.VisualStudio.Services.VSIXPackage","source":"s1"}]}
    ]}]}]}"#
        .to_string();
    let records = parse_extension_query_data(text).unwrap();
    assert_eq!(records.len(), 3);
    assert!(records.iter().all(|r| r.target_platform.is_none()));
    assert_eq!(
        handle_without_platform(&records, explicit("2.0")),
        Resolution::Found("s2".to_string())
    );
}

#[test]
fn every_record_is_found_by_its_version() {
    let records = flat_catalog();
    for r in &records {
        assert_eq!(
            handle_without_platform(&records, explicit(&r.version)),
            Resolution::Found(r.file_source.clone())
        );
    }
}

#[test]
fn the_first_record_of_a_version_is_found() {
    let records = vec![record("1.0", None, "first"), record("1.0", None, "second")];
    assert_eq!(
        handle_without_platform(&records, explicit("1.0")),
        Resolution::Found("first".to_string())
    );
}

#[test]
fn a_version_that_is_not_there_is_not_found() {
    let records = vec![record("1.0", None, "s1")];
    assert_eq!(handle_without_platform(&records, explicit("9.9.9")), Resolution::NotFound);
    let index = group_by_version(vec![record("1.0", Some("win32"), "w1")]);
    assert_eq!(handle_with_platform(&index, explicit("9.9.9")), Resolution::NotFound);
    assert_eq!(handle_without_platform(&vec![], explicit("1.0")), Resolution::NotFound);
    assert_eq!(handle_with_platform(&group_by_version(vec![]), explicit("1.0")), Resolution::NotFound);
    assert_eq!(handle_without_platform(&records, explicit("1.0 ")), Resolution::NotFound);
    assert_eq!(handle_without_platform(&records, explicit("")), Resolution::NotFound);
}

#[test]
fn a_window_offers_the_first_versions() {
    let records = flat_catalog();
    assert_eq!(
        handle_without_platform(&records, SelectMode::NLatest(2)),
        Resolution::ChooseVersion(strings(&["3.0", "2.0"]))
    );
    assert_eq!(
        handle_without_platform(&records, SelectMode::NLatest(3)),
        Resolution::ChooseVersion(strings(&["3.0", "2.0", "1.0"]))
    );
    assert_eq!(
        handle_without_platform(&records, SelectMode::NLatest(10)),
        Resolution::ChooseVersion(strings(&["3.0", "2.0", "1.0"]))
    );
    assert_eq!(
        handle_without_platform(&records, SelectMode::NLatest(usize::MAX)),
        Resolution::ChooseVersion(strings(&["3.0", "2.0", "1.0"]))
    );
    assert_eq!(
        handle_without_platform(&records, SelectMode::NLatest(0)),
        Resolution::ChooseVersion(vec![])
    );
    assert_eq!(
        handle_without_platform(&vec![], SelectMode::NLatest(10)),
        Resolution::ChooseVersion(vec![])
    );
}

#[test]
fn a_window_of_one_over_two_versions_on_two_platforms() {
    let index = group_by_version(platform_catalog());
    assert_eq!(
        handle_with_platform(&index, SelectMode::NLatest(1)),
        Resolution::ChooseVersion(strings(&["2.0"]))
    );
}

#[test]
fn a_window_counts_versions_not_records() {
    let index = group_by_version(platform_catalog());
    assert_eq!(
        handle_with_platform(&index, SelectMode::NLatest(2)),
        Resolution::ChooseVersion(strings(&["2.0", "1.0"]))
    );
    assert_eq!(
        handle_with_platform(&index, SelectMode::NLatest(3)),
        Resolution::ChooseVersion(strings(&["2.0", "1.0"]))
    );
    assert_eq!(
        handle_with_platform(&index, SelectMode::NLatest(usize::MAX)),
        Resolution::ChooseVersion(strings(&["2.0", "1.0"]))
    );
    assert_eq!(
        handle_with_platform(&index, SelectMode::NLatest(0)),
        Resolution::ChooseVersion(vec![])
    );
}

#[test]
fn a_window_never_offers_more_than_it_is_wide() {
    let records = platform_catalog();
    let index = group_by_version(platform_catalog());
    for n in 0..6 {
        match handle_with_platform(&index, SelectMode::NLatest(n)) {
            Resolution::ChooseVersion(offered) => assert_eq!(offered.len(), n.min(2)),
            other => panic!("{:?}", other),
        }
        match handle_without_platform(&records, SelectMode::NLatest(n)) {
            Resolution::ChooseVersion(offered) => assert_eq!(offered.len(), n.min(4)),
            other => panic!("{:?}", other),
        }
    }
}

#[test]
fn an_explicit_version_asks_for_its_platform() {
    let index = group_by_version(platform_catalog());
    assert_eq!(
        handle_with_platform(&index, explicit("1.0")),
        Resolution::ChoosePlatform("1.0".to_string(), strings(&["win32", "linux"]))
    );
}

#[test]
fn a_version_and_a_platform_give_the_source_of_the_index() {
    let index = group_by_version(platform_catalog());
    for r in platform_catalog() {
        let platform = r.target_platform.unwrap();
        assert_eq!(platform_source(&index, &r.version, &platform), Some(r.file_source.clone()));
        assert_eq!(index[&r.version].get(&platform), Some(&r.file_source));
    }
    assert_eq!(platform_source(&index, "2.0", "darwin"), None);
    assert_eq!(platform_source(&index, "3.0", "win32"), None);
    assert_eq!(platform_source(&index, "win32", "2.0"), None);
}
