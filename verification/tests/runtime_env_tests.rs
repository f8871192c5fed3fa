use scpf::runtime_env::{join_path, resolve_runtime_env_paths, RuntimeEnvContext};

fn existing(files: &[String]) -> impl Fn(&str) -> bool + '_ {
    move |p: &str| files.iter().any(|f| f == p)
}

#[test]
fn resolves_env_files_in_priority_order_and_dedupes_ancestor_matches() {
    let root = "/tmp/r".to_string();
    let explicit_env = join_path(&root, "custom.env", '/');
    let runtime_dir = join_path(&root, "runtime", '/');
    let project_root = join_path(&root, "project", '/');
    let config_dir = join_path(&root, "config", '/');
    let data_local_dir = join_path(&root, "data-local", '/');
    let current_dir = join_path(&join_path(&project_root, "workspace", '/'), "nested", '/');

    let config_env = join_path(&join_path(&config_dir, "smartcontractpatternfinder", '/'), ".env", '/');
    let data_env = join_path(&join_path(&data_local_dir, "com.teycir.scpf.desktop", '/'), ".env", '/');
    let files = vec![
        explicit_env.clone(),
        join_path(&runtime_dir, ".env", '/'),
        join_path(&project_root, ".env", '/'),
        config_env.clone(),
        data_env.clone(),
    ];

    let context = RuntimeEnvContext {
        explicit_env_file: Some(explicit_env.clone()),
        project_root: Some(project_root.clone()),
        runtime_dir: Some(runtime_dir.clone()),
        config_dir: Some(config_dir.clone()),
        data_local_dir: Some(data_local_dir.clone()),
        current_dir: Some(current_dir),
        ..RuntimeEnvContext::default()
    };

    let paths = resolve_runtime_env_paths(&context, '/', &existing(&files));

    assert_eq!(
        paths.env_files,
        vec![
            explicit_env,
            join_path(&runtime_dir, ".env", '/'),
            join_path(&project_root, ".env", '/'),
            config_env,
            data_env,
        ]
    );
}

#[test]
fn preferred_env_file_favors_runtime_then_project_then_current_dir_then_data_local() {
    let runtime_dir = "/tmp/r/runtime".to_string();
    let project_root = "/tmp/r/project".to_string();
    let current_dir = "/tmp/r/workspace".to_string();
    let data_local_dir = "/tmp/r/data-local".to_string();
    let nothing: Vec<String> = Vec::new();

    let with_runtime = RuntimeEnvContext {
        runtime_dir: Some(runtime_dir.clone()),
        project_root: Some(project_root.clone()),
        data_local_dir: Some(data_local_dir.clone()),
        ..RuntimeEnvContext::default()
    };
    assert_eq!(
        resolve_runtime_env_paths(&with_runtime, '/', &existing(&nothing)).preferred_env_file,
        "/tmp/r/runtime/.env"
    );

    let with_project_only = RuntimeEnvContext {
        project_root: Some(project_root.clone()),
        data_local_dir: Some(data_local_dir.clone()),
        ..RuntimeEnvContext::default()
    };
    assert_eq!(
        resolve_runtime_env_paths(&with_project_only, '/', &existing(&nothing)).preferred_env_file,
        "/tmp/r/project/.env"
    );

    let with_data_local_only = RuntimeEnvContext {
        current_dir: Some(current_dir.clone()),
        data_local_dir: Some(data_local_dir.clone()),
        ..RuntimeEnvContext::default()
    };
    assert_eq!(
        resolve_runtime_env_paths(&with_data_local_only, '/', &existing(&nothing)).preferred_env_file,
        "/tmp/r/workspace/.env"
    );

    let with_data_local_fallback = RuntimeEnvContext {
        data_local_dir: Some(data_local_dir.clone()),
        ..RuntimeEnvContext::default()
    };
    assert_eq!(
        resolve_runtime_env_paths(&with_data_local_fallback, '/', &existing(&nothing)).preferred_env_file,
        "/tmp/r/data-local/com.teycir.scpf.desktop/.env"
    );
}

#[test]
fn join_path_adds_one_separator() {
    assert_eq!(join_path("/a", "b", '/'), "/a/b");
    assert_eq!(join_path("/a/", "b", '/'), "/a/b");
    assert_eq!(join_path("", "b", '/'), "b");
}
