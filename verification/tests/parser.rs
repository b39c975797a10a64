use vscer::json::{parse_json, Json};
use vscer::parse::{
    extension_versions, parse_extension_query_data, read_version, text_of, ParseError,
    PACKAGE_ASSET_TYPE,
};
use vscer::types::ExtVersion;

fn record(version: &str, platform: Option<&str>, source: &str) -> ExtVersion {
    ExtVersion {
        version: version.to_string(),
        target_platform: platform.map(|p| p.to_string()),
        file_source: source.to_string(),
    }
}

fn text(s: &str) -> Json {
    Json::Str(s.to_string())
}

fn object(members: Vec<(&str, Json)>) -> Json {
    Json::Object(members.into_iter().map(|(k, v)| (k.to_string(), v)).collect())
}

fn file(asset_type: &str, source: &str) -> Json {
    object(vec![("assetType", text(asset_type)), ("source", text(source))])
}

fn version_object(version: &str, platform: Option<&str>, files: Vec<Json>) -> Json {
    let mut members = vec![("version", text(version))];
    if let Some(p) = platform {
        members.push(("targetPlatform", text(p)));
    }
    members.push(("files", Json::Array(files)));
    object(members)
}

fn response(versions: Json) -> Json {
    object(vec![(
        "results",
        Json::Array(vec![object(vec![(
            "extensions",
            Json::Array(vec![object(vec![("versions", versions)])]),
        )])]),
    )])
}

const THREE_VERSIONS: &str = r#"{
  "results": [
    {
      "extensions": [
        {
          "extensionName": "ruff",
          "versions": [
            {
              "version": "3.0",
              "flags": "validated",
              "files": [
                {"assetType": "Microsoft.VisualStudio.Services.Icons.Default", "source": "https://host/3.0/icon"},
                {"assetType": "Microsoft.VisualStudio.Services.VSIXPackage", "source": "https://host/3.0/vsix"}
              ]
            },
            {
              "version": "2.0",
              "files": [
                {"assetType": "Microsoft.VisualStudio.Services.VSIXPackage", "source": "https://host/2.0/vsix"}
              ]
            },
            {
              "version": "1.0",
              "files": [
                {"assetType": "Microsoft.VisualStudio.Services.VSIXPackage", "source": "https://host/1.0/vsix"},
                {"assetType": "Microsoft.VisualStudio.Services.VSIXPackage", "source": "https://host/1.0/other"}
              ]
            }
          ]
        }
      ],
      "resultMetadata": []
    }
  ]
}"#;

#[test]
fn records_come_in_the_order_of_the_catalog() {
    let parsed = parse_extension_query_data(THREE_VERSIONS.to_string());
    assert_eq!(
        parsed,
        Ok(vec![
            record("3.0", None, "https://host/3.0/vsix"),
            record("2.0", None, "https://host/2.0/vsix"),
            record("1.0", None, "https://host/1.0/vsix"),
        ])
    );
}

#[test]
fn parsing_the_same_text_again_gives_the_same_records() {
    let first = parse_extension_query_data(THREE_VERSIONS.to_string());
    let second = parse_extension_query_data(THREE_VERSIONS.to_string());
    assert!(first.is_ok());
    assert_eq!(first, second);
}

#[test]
fn the_first_file_of_the_package_type_wins() {
    let parsed = parse_extension_query_data(THREE_VERSIONS.to_string()).unwrap();
    assert_eq!(parsed[2].file_source, "https://host/1.0/vsix");
}

#[test]
fn the_asset_type_of_a_package() {
    assert_eq!(PACKAGE_ASSET_TYPE, "Microsoft.VisualStudio.Services.VSIXPackage");
}

#[test]
fn empty_versions_array_gives_no_records() {
    let text = r#"{"results":[{"extensions":[{"versions":[]}]}]}"#.to_string();
    assert_eq!(parse_extension_query_data(text), Ok(vec![]));
}

#[test]
fn versions_without_a_package_give_no_records() {
    let text = r#"{"results":[{"extensions":[{"versions":[
        {"version":"2.0","files":[{"assetType":"Microsoft.VisualStudio.Services.Icons.Default","source":"m2"}]},
        {"version":"1.0","files":[]}
    ]}]}]}"#
        .to_string();
    assert_eq!(parse_extension_query_data(text), Ok(vec![]));
}

#[test]
fn a_version_without_a_package_is_left_out() {
    let text = r#"{"results":[{"extensions":[{"versions":[
        {"version":"3.0","files":[{"assetType":"Microsoft.VisualStudio.Services.VSIXPackage","source":"s3"}]},
        {"version":"2.0","files":[{"assetType":"Microsoft.VisualStudio.Services.Icons.Default","source":"m2"}]},
        {"version":"1.0","files":[{"assetType":"Microsoft.VisualStudio.Services.VSIXPackage","source":"s1"}]}
    ]}]}]}"#
        .to_string();
    assert_eq!(
        parse_extension_query_data(text),
        Ok(vec![record("3.0", None, "s3"), record("1.0", None, "s1")])
    );
}

#[test]
fn the_platform_is_carried_as_it_is() {
    let text = r#"{"results":[{"extensions":[{"versions":[
        {"version":"1.0","targetPlatform":"Win32-x64 ","files":[{"assetType":"Microsoft.VisualStudio.Services.VSIXPackage","source":"w"}]},
        {"version":"1.0","targetPlatform":null,"files":[{"assetType":"Microsoft.VisualStudio.Services.VSIXPackage","source":"n"}]},
        {"version":"1.0","targetPlatform":7,"files":[{"assetType":"Microsoft.VisualStudio.Services.VSIXPackage","source":"s"}]}
    ]}]}]}"#
        .to_string();
    assert_eq!(
        parse_extension_query_data(text),
        Ok(vec![
            record("1.0", Some("Win32-x64 "), "w"),
            record("1.0", None, "n"),
            record("1.0", None, "s"),
        ])
    );
}

#[test]
fn text_that_is_no_json_is_malformed() {
    for text in ["not json", "", "{\"results\": [", "{\"results\": []} trailing"] {
        assert_eq!(
            parse_extension_query_data(text.to_string()),
            Err(ParseError::MalformedResponse)
        );
    }
}

#[test]
fn a_response_without_the_path_has_no_records() {
    for text in [
        "{}",
        "null",
        "[]",
        "42",
        r#"{"results":[]}"#,
        r#"{"results":{}}"#,
        r#"{"results":[{}]}"#,
        r#"{"results":[{"extensions":[]}]}"#,
        r#"{"results":[{"extensions":[{}]}]}"#,
        r#"{"results":[{"extensions":[{"versions":null}]}]}"#,
        r#"{"results":[{"extensions":[{"versions":{"version":"1.0"}}]}]}"#,
        r#"{"results":[{"extensions":[{"versions":"1.0"}]}]}"#,
    ] {
        assert_eq!(parse_extension_query_data(text.to_string()), Ok(vec![]), "{}", text);
    }
}

#[test]
fn only_the_first_result_and_extension_count() {
    let text = r#"{"results":[
        {"extensions":[
            {"versions":[{"version":"1.0","files":[{"assetType":"Microsoft.VisualStudio.Services.VSIXPackage","source":"first"}]}]},
            {"versions":[{"version":"2.0","files":[{"assetType":"Microsoft.VisualStudio.Services.VSIXPackage","source":"second"}]}]}
        ]},
        {"extensions":[
            {"versions":[{"version":"3.0","files":[{"assetType":"Microsoft.VisualStudio.Services.VSIXPackage","source":"third"}]}]}
        ]}
    ]}"#
        .to_string();
    assert_eq!(parse_extension_query_data(text), Ok(vec![record("1.0", None, "first")]));
}

#[test]
fn a_version_without_files_is_an_unknown_schema() {
    for versions in [
        r#"[{"version":"1.0"}]"#,
        r#"[{"version":"1.0","files":null}]"#,
        r#"[{"version":"1.0","files":{}}]"#,
        r#"["1.0"]"#,
        r#"[null]"#,
    ] {
        let text = format!(r#"{{"results":[{{"extensions":[{{"versions":{}}}]}}]}}"#, versions);
        assert_eq!(parse_extension_query_data(text), Err(ParseError::UnknownSchema), "{}", versions);
    }
}

#[test]
fn a_file_without_an_asset_type_is_an_unknown_schema() {
    for files in [
        r#"[{"source":"s"}]"#,
        r#"[{"assetType":1,"source":"s"}]"#,
        r#"[{"assetType":"Microsoft.VisualStudio.Services.VSIXPackage","source":"s"},{"source":"t"}]"#,
        r#"["Microsoft.VisualStudio.Services.VSIXPackage"]"#,
    ] {
        let text = format!(
            r#"{{"results":[{{"extensions":[{{"versions":[{{"version":"1.0","files":{}}}]}}]}}]}}"#,
            files
        );
        assert_eq!(parse_extension_query_data(text), Err(ParseError::UnknownSchema), "{}", files);
    }
}

#[test]
fn a_package_without_version_or_source_is_an_unknown_schema() {
    for version in [
        r#"{"files":[{"assetType":"Microsoft.VisualStudio.Services.VSIXPackage","source":"s"}]}"#,
        r#"{"version":1,"files":[{"assetType":"Microsoft.VisualStudio.Services.VSIXPackage","source":"s"}]}"#,
        r#"{"version":"1.0","files":[{"assetType":"Microsoft.VisualStudio.Services.VSIXPackage"}]}"#,
        r#"{"version":"1.0","files":[{"assetType":"Microsoft.VisualStudio.Services.VSIXPackage","source":null}]}"#,
    ] {
        let text =
            format!(r#"{{"results":[{{"extensions":[{{"versions":[{}]}}]}}]}}"#, version);
        assert_eq!(parse_extension_query_data(text), Err(ParseError::UnknownSchema), "{}", version);
    }
}

#[test]
fn what_is_not_read_may_be_missing() {
    // no package: the version string is not read; a later file's source is not read either
    let text = r#"{"results":[{"extensions":[{"versions":[
        {"files":[{"assetType":"Microsoft.VisualStudio.Services.Icons.Default"}]},
        {"version":"1.0","files":[
            {"assetType":"Microsoft.VisualStudio.Services.VSIXPackage","source":"s"},
            {"assetType":"Microsoft.VisualStudio.Services.VSIXPackage"}
        ]}
    ]}]}]}"#
        .to_string();
    assert_eq!(parse_extension_query_data(text), Ok(vec![record("1.0", None, "s")]));
}

#[test]
fn one_unknown_version_fails_the_whole_response() {
    let text = r#"{"results":[{"extensions":[{"versions":[
        {"version":"2.0","files":[{"assetType":"Microsoft.VisualStudio.Services.VSIXPackage","source":"s2"}]},
        {"version":"1.0"}
    ]}]}]}"#
        .to_string();
    assert_eq!(parse_extension_query_data(text), Err(ParseError::UnknownSchema));
}

#[test]
fn json_text_becomes_a_tree_of_values() {
    let parsed = parse_json(r#"{"b":[1,-2.5,"x",true,null,{"c":"é\n"}],"a":false}"#);
    assert_eq!(
        parsed,
        Some(object(vec![
            ("a", Json::Bool(false)),
            (
                "b",
                Json::Array(vec![
                    Json::Number("1".to_string()),
                    Json::Number("-2.5".to_string()),
                    text("x"),
                    Json::Bool(true),
                    Json::Null,
                    object(vec![("c", text("\u{e9}\n"))]),
                ])
            ),
        ]))
    );
    assert_eq!(parse_json("{"), None);
    assert_eq!(parse_json("\"text\""), Some(text("text")));
}

#[test]
fn a_repeated_member_of_the_text_counts_once() {
    let parsed = parse_json(r#"{"a":1,"a":2}"#);
    assert_eq!(parsed, Some(object(vec![("a", Json::Number("2".to_string()))])));
}

#[test]
fn members_and_elements_of_a_value() {
    let value = object(vec![
        ("name", text("first")),
        ("list", Json::Array(vec![Json::Null, Json::Bool(true)])),
        ("name", text("second")),
    ]);
    assert_eq!(value.get("name"), Some(&text("first")));
    assert_eq!(value.get("list").and_then(|l| l.at(1)), Some(&Json::Bool(true)));
    assert_eq!(value.get("list").and_then(|l| l.at(2)), None);
    assert_eq!(value.get("missing"), None);
    assert_eq!(value.at(0), None);
    assert_eq!(text("x").get("name"), None);
    assert_eq!(text("x").as_str(), Some(&"x".to_string()));
    assert_eq!(Json::Null.as_str(), None);
    assert_eq!(Json::Array(vec![]).as_array(), Some(&vec![]));
    assert_eq!(value.as_array(), None);
    assert_eq!(text_of(&value, "name"), Some(&"first".to_string()));
    assert_eq!(text_of(&value, "list"), None);
    assert_eq!(text_of(&value, "missing"), None);
}

#[test]
fn records_of_a_response_given_as_values() {
    let root = response(Json::Array(vec![
        version_object(
            "2.0",
            Some("linux-x64"),
            vec![file("other", "o"), file(PACKAGE_ASSET_TYPE, "l2")],
        ),
        version_object("1.5", None, vec![file("other", "o")]),
        version_object("1.0", None, vec![file(PACKAGE_ASSET_TYPE, "s1")]),
    ]));
    assert_eq!(
        extension_versions(&root),
        Ok(vec![record("2.0", Some("linux-x64"), "l2"), record("1.0", None, "s1")])
    );
    assert_eq!(extension_versions(&response(Json::Null)), Ok(vec![]));
    assert_eq!(extension_versions(&Json::Null), Ok(vec![]));
    assert_eq!(
        extension_versions(&response(Json::Array(vec![Json::Null]))),
        Err(ParseError::UnknownSchema)
    );
}

#[test]
fn one_version_object() {
    assert_eq!(
        read_version(&version_object("1.0", Some("web"), vec![file(PACKAGE_ASSET_TYPE, "s")])),
        Ok(Some(record("1.0", Some("web"), "s")))
    );
    assert_eq!(read_version(&version_object("1.0", None, vec![])), Ok(None));
    assert_eq!(
        read_version(&version_object("1.0", None, vec![file("a", "s"), file("b", "t")])),
        Ok(None)
    );
    assert_eq!(read_version(&object(vec![("version", text("1.0"))])), Err(ParseError::UnknownSchema));
    assert_eq!(
        read_version(&version_object("1.0", None, vec![object(vec![("source", text("s"))])])),
        Err(ParseError::UnknownSchema)
    );
}

#[test]
fn each_error_says_what_went_wrong() {
    assert_eq!(ParseError::MalformedResponse.message(), "the catalog's response is not JSON");
    assert_eq!(ParseError::UnknownSchema.message(), "a version of the catalog cannot be read");
}
