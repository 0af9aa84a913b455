use local_mlx::model_discovery::{
    context_length, discover_models_from_cache, discover_models_via_api, display_name,
    find_model_files, models_url, read_context_length, CacheEntry, ConfigFile, Snapshot,
};

fn strings(list: &[&str]) -> Vec<String> {
    list.iter().map(|s| s.to_string()).collect()
}

fn snapshot(path: &str, config: ConfigFile, files: &[&str]) -> Snapshot {
    Snapshot {
        path: path.to_string(),
        config,
        files: strings(files),
    }
}

fn entry(dir_name: &str, snapshots: Option<Vec<Snapshot>>) -> CacheEntry {
    CacheEntry {
        dir_name: dir_name.to_string(),
        snapshots,
    }
}

fn config(text: &str) -> ConfigFile {
    ConfigFile::Text(text.to_string())
}

#[test]
fn names_follow_the_last_slash() {
    assert_eq!(display_name("org/sub/name"), "name");
    assert_eq!(display_name("name"), "name");
    assert_eq!(display_name("org/"), "");
    assert_eq!(display_name(""), "");
    assert_eq!(
        models_url("http://127.0.0.1:1"),
        "http://127.0.0.1:1/v1/models"
    );
}

#[test]
fn listed_models_are_discovered() {
    let models = discover_models_via_api(200, "200 OK", "", Some(strings(&["org/a", "b"])))
        .expect("models");
    assert_eq!(models.len(), 2);
    assert_eq!(models[0].id, "org/a");
    assert_eq!(models[0].display_name, "a");
    assert_eq!(models[0].max_tokens, 32768);
    assert!(models[0].supports_tools);
    assert!(!models[0].supports_images);
    assert_eq!(models[0].local_path, None);
    assert_eq!(models[1].id, "b");
    assert_eq!(
        discover_models_via_api(299, "", "", None).unwrap_err(),
        "Failed to parse /v1/models response"
    );
    assert_eq!(
        discover_models_via_api(300, "300 Multiple Choices", "no", Some(Vec::new())).unwrap_err(),
        "Failed to list models: HTTP 300 Multiple Choices - no"
    );
    assert_eq!(
        discover_models_via_api(199, "199", "", None).unwrap_err(),
        "Failed to list models: HTTP 199 - "
    );
}

#[test]
fn context_windows_are_read_from_the_configuration() {
    let read = |text: &str| read_context_length(text).expect("json");
    assert_eq!(read(r#"{"max_position_embeddings": 40960}"#), 40960);
    assert_eq!(
        read(r#"{"max_seq_length": 1, "n_positions": 2, "max_position_embeddings": 3}"#),
        3
    );
    assert_eq!(read(r#"{"max_seq_length": 1, "n_positions": 2}"#), 2);
    assert_eq!(read(r#"{"max_seq_length": 1}"#), 1);
    assert_eq!(read(r#"{"max_position_embeddings": "9", "n_positions": -1}"#), 32768);
    assert_eq!(read("[]"), 32768);
    let error = read_context_length("{").unwrap_err();
    let expected = serde_json::from_str::<serde_json::Value>("{").unwrap_err();
    assert_eq!(error.message, expected.to_string());
    assert_eq!(context_length(None, None, None), 32768);
    assert_eq!(context_length(None, Some(5), Some(6)), 5);
}

#[test]
fn the_first_files_are_found() {
    assert_eq!(find_model_files(&Vec::new()), (None, None));
    // The first snapshot that has both is taken, whatever others have one.
    let snapshots = vec![
        snapshot("/s0", ConfigFile::Missing, &["a.txt"]),
        snapshot("/s1", ConfigFile::Unreadable, &["safetensors"]),
        snapshot("/s2", ConfigFile::Missing, &["m.safetensors"]),
        snapshot("/s3", config("{}"), &["x", "m.safetensors", "n.safetensors"]),
        snapshot("/s4", config("{}"), &["m.safetensors"]),
    ];
    assert_eq!(find_model_files(&snapshots), (Some(3), Some((3, 1))));
    // Where none has both, the first with each.
    let snapshots = vec![
        snapshot("/s0", config("{}"), &["a.txt"]),
        snapshot("/s1", ConfigFile::Missing, &["m.safetensors"]),
        snapshot("/s2", config("{}"), &[]),
    ];
    assert_eq!(find_model_files(&snapshots), (Some(0), Some((1, 0))));
    let snapshots = vec![snapshot("/s0", config("{}"), &["a.txt"])];
    assert_eq!(find_model_files(&snapshots), (Some(0), None));
}

#[test]
fn cached_models_are_discovered() {
    let models = discover_models_from_cache(&vec![
        entry(
            "models--mlx-community--Qwen3--6bit",
            Some(vec![snapshot(
                "/hub/q/1",
                config(r#"{"max_position_embeddings": 262144}"#),
                &["config.json", "model-1.safetensors"],
            )]),
        ),
        // The weights are missing.
        entry(
            "models--org--half",
            Some(vec![snapshot("/hub/h/1", config("{}"), &["config.json"])]),
        ),
        entry("models--org--none", None),
        // Not a model.
        entry(
            "datasets--org--d",
            Some(vec![snapshot("/d", config("{}"), &["d.safetensors"])]),
        ),
        // The context window is that of the snapshot with the weights.
        entry(
            "models--two",
            Some(vec![
                snapshot("/hub/t/1", config(r#"{"n_positions": 1}"#), &["config.json"]),
                snapshot("/hub/t/2", config(r#"{"n_positions": 2}"#), &["w.safetensors"]),
            ]),
        ),
        // The configuration is broken, and of another snapshot.
        entry(
            "models--solo",
            Some(vec![
                snapshot("/hub/s/1", config("{"), &[]),
                snapshot("/hub/s/2", ConfigFile::Missing, &["w.safetensors"]),
            ]),
        ),
        entry(
            "models--u--v",
            Some(vec![snapshot(
                "/hub/u/1",
                ConfigFile::Unreadable,
                &["w.safetensors"],
            )]),
        ),
    ]);
    let found: Vec<(&str, &str, u64, Option<&str>)> = models
        .iter()
        .map(|m| {
            (
                m.id.as_str(),
                m.display_name.as_str(),
                m.max_tokens,
                m.local_path.as_deref(),
            )
        })
        .collect();
    assert_eq!(
        found,
        [
            (
                "mlx-community/Qwen3/6bit",
                "6bit",
                262144,
                Some("/hub/q/1")
            ),
            ("two", "two", 2, Some("/hub/t/2")),
            ("solo", "solo", 32768, Some("/hub/s/2")),
            ("u/v", "v", 32768, Some("/hub/u/1")),
        ]
    );
    assert!(models.iter().all(|m| m.supports_tools && !m.supports_images));
    assert!(discover_models_from_cache(&Vec::new()).is_empty());
}
