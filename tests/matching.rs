use fast_staged::{
    config_candidates, match_files_to_commands, match_files_with, package_json_section,
    parse_groups_from_config,
    select_config_source, staged_files, AppError, Config, ConfigSource, ExecutionOrder, GroupConfig,
};

fn group(
    patterns: Vec<(&str, Vec<&str>)>,
    timeout: Option<&str>,
    order: Option<ExecutionOrder>,
) -> GroupConfig {
    GroupConfig {
        timeout: timeout.map(|t| t.to_string()),
        execution_order: order,
        patterns: patterns
            .into_iter()
            .map(|(p, cmds)| (p.to_string(), cmds.into_iter().map(|c| c.to_string()).collect()))
            .collect(),
    }
}

fn files(names: &[&str]) -> Vec<String> {
    names.iter().map(|n| n.to_string()).collect()
}

#[test]
fn scenario_a_one_js_file_one_work_item() {
    let config = Config {
        timeout: None,
        groups: vec![(
            "lint".to_string(),
            group(vec![("*.js", vec!["eslint $FILE"])], None, Some(ExecutionOrder::Parallel)),
        )],
    };
    let items = match_files_to_commands(&config, &files(&["a.js"])).unwrap();
    assert_eq!(items.len(), 1);
    assert_eq!(items[0].filename, "a.js");
    assert_eq!(items[0].command, "eslint $FILE");
    assert_eq!(items[0].group_name, "lint");
    assert_eq!(items[0].execution_order, ExecutionOrder::Parallel);
}

#[test]
fn glob_rejects_other_extensions() {
    let config = Config {
        timeout: None,
        groups: vec![("lint".to_string(), group(vec![("*.js", vec!["eslint"])], None, None))],
    };
    let items = match_files_to_commands(&config, &files(&["a.js", "b.ts", "c.js"])).unwrap();
    let names: Vec<&str> = items.iter().map(|i| i.filename.as_str()).collect();
    assert_eq!(names, vec!["a.js", "c.js"]);
}

#[test]
fn first_group_and_first_pattern_win() {
    let config = Config {
        timeout: Some("30s".to_string()),
        groups: vec![
            (
                "fmt".to_string(),
                group(
                    vec![("*.rs", vec!["rustfmt", "touch"]), ("src/*.rs", vec!["never"])],
                    None,
                    Some(ExecutionOrder::Sequential),
                ),
            ),
            ("lint".to_string(), group(vec![("*.rs", vec!["clippy"])], Some("5s"), None)),
        ],
    };
    let items = match_files_to_commands(&config, &files(&["main.rs"])).unwrap();
    let cmds: Vec<&str> = items.iter().map(|i| i.command.as_str()).collect();
    assert_eq!(cmds, vec!["rustfmt", "touch"]);
    assert!(items.iter().all(|i| i.group_name == "fmt"));
    assert!(items.iter().all(|i| i.timeout.as_deref() == Some("30s")));
    assert!(items.iter().all(|i| i.execution_order == ExecutionOrder::Sequential));
}

#[test]
fn no_files_matched_lists_every_pattern() {
    let config = Config {
        timeout: None,
        groups: vec![
            ("a".to_string(), group(vec![("*.js", vec!["x"])], None, None)),
            ("b".to_string(), group(vec![("*.go", vec!["y"]), ("*.py", vec!["z"])], None, None)),
        ],
    };
    match match_files_to_commands(&config, &files(&["README.md"])) {
        Err(AppError::NoFilesMatched { patterns }) => {
            assert_eq!(patterns, vec!["*.js", "*.go", "*.py"]);
        }
        other => panic!("unexpected: {:?}", other),
    }
}

#[test]
fn no_files_is_not_a_match_error() {
    let config = Config {
        timeout: None,
        groups: vec![("a".to_string(), group(vec![("*.js", vec!["x"])], None, None))],
    };
    let items = match_files_to_commands(&config, &[]).unwrap();
    assert!(items.is_empty());
}

#[test]
fn table_decides_matching() {
    let config = Config {
        timeout: None,
        groups: vec![
            ("a".to_string(), group(vec![("p", vec!["one"])], None, None)),
            ("b".to_string(), group(vec![("q", vec!["two", "three"])], None, None)),
        ],
    };
    let table = vec![vec![vec![false], vec![true]], vec![vec![true], vec![true]]];
    let items = match_files_with(&config, &files(&["f1", "f2"]), &table).unwrap();
    let got: Vec<(&str, &str)> =
        items.iter().map(|i| (i.filename.as_str(), i.command.as_str())).collect();
    assert_eq!(got, vec![("f1", "two"), ("f1", "three"), ("f2", "one")]);
}

#[test]
fn groups_inherit_default_timeout_and_parallel_order() {
    let config = Config {
        timeout: Some("1m".to_string()),
        groups: vec![
            ("a".to_string(), group(vec![("*", vec!["x"])], None, None)),
            ("b".to_string(), group(vec![("*", vec!["y"])], Some("2s"), Some(ExecutionOrder::Sequential))),
        ],
    };
    let groups = parse_groups_from_config(&config);
    assert_eq!(groups.len(), 2);
    assert_eq!(groups[0].name, "a");
    assert_eq!(groups[0].timeout.as_deref(), Some("1m"));
    assert_eq!(groups[0].execution_order, ExecutionOrder::Parallel);
    assert_eq!(groups[1].timeout.as_deref(), Some("2s"));
    assert_eq!(groups[1].execution_order, ExecutionOrder::Sequential);
    assert_eq!(groups[1].patterns, vec![("*".to_string(), vec!["y".to_string()])]);
}

#[test]
fn scenario_d_no_staged_files() {
    assert!(matches!(staged_files(Vec::new()), Err(AppError::NoStagedFiles)));
    assert_eq!(staged_files(files(&["a.js"])).unwrap(), files(&["a.js"]));
}

#[test]
fn config_source_takes_first_present() {
    let paths: Vec<String> =
        config_candidates().iter().map(|n| format!("/repo/{}", n)).collect();
    assert_eq!(paths[0], "/repo/.fast-staged.toml");
    assert_eq!(paths[4], "/repo/package.json");
    match select_config_source(&paths, &vec![false, false, true, true, true]) {
        Ok(ConfigSource::JsonFile(p)) => assert_eq!(p, "/repo/.fast-staged.json"),
        other => panic!("unexpected: {:?}", other),
    }
    match select_config_source(&paths, &vec![false, false, false, false, true]) {
        Ok(ConfigSource::PackageJson(p)) => assert_eq!(p, "/repo/package.json"),
        other => panic!("unexpected: {:?}", other),
    }
    match select_config_source(&paths, &vec![false; 5]) {
        Err(AppError::ConfigNotFound { checked_paths }) => assert_eq!(checked_paths, paths),
        other => panic!("unexpected: {:?}", other),
    }
}

#[test]
fn package_json_section_is_found() {
    let text = r#"{"name": "x", "fast-staged": {"lint": {"patterns": {"*.js": ["eslint"]}}}}"#;
    let section = package_json_section("/repo/package.json", text).unwrap();
    assert!(section.get("lint").is_some());
}

#[test]
fn package_json_without_section_is_invalid() {
    match package_json_section("/repo/package.json", r#"{"name": "x"}"#) {
        Err(AppError::ConfigInvalid { path, details }) => {
            assert_eq!(path, "/repo/package.json");
            assert_eq!(details, "No 'fast-staged' section found in package.json");
        }
        other => panic!("unexpected: {:?}", other),
    }
}

#[test]
fn package_json_that_is_not_json_is_invalid() {
    match package_json_section("/repo/package.json", "{ not json") {
        Err(AppError::ConfigInvalid { details, .. }) => {
            assert!(details.starts_with("Invalid JSON in package.json: "));
            assert!(details.len() > "Invalid JSON in package.json: ".len());
        }
        other => panic!("unexpected: {:?}", other),
    }
}
