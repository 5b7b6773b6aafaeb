use env_plus::EnvLoader;

#[test]
fn new_has_the_defaults() {
    let loader = EnvLoader::new();
    assert_eq!(loader.file(), "./.env_plus");
    assert_eq!(loader.comment(), "//");
    assert_eq!(loader.delimiter(), "=");
    assert!(!loader.overwrites());
}

#[test]
fn change_file_replaces_the_file_only() {
    let loader = EnvLoader::new().change_file(String::from("./my_special_file.extension"));
    assert_eq!(loader.file(), "./my_special_file.extension");
    assert_eq!(loader.comment(), "//");
    assert_eq!(loader.delimiter(), "=");
    assert!(!loader.overwrites());
}

#[test]
fn change_comment_replaces_the_comment_only() {
    let loader = EnvLoader::new().change_comment(String::from("--"));
    assert_eq!(loader.file(), "./.env_plus");
    assert_eq!(loader.comment(), "--");
    assert_eq!(loader.delimiter(), "=");
    assert!(!loader.overwrites());
}

#[test]
fn change_delimiter_replaces_the_delimiter_only() {
    let loader = EnvLoader::new().change_delimiter(String::from("==="));
    assert_eq!(loader.file(), "./.env_plus");
    assert_eq!(loader.comment(), "//");
    assert_eq!(loader.delimiter(), "===");
    assert!(!loader.overwrites());
}

#[test]
fn overwrite_envs_replaces_the_flag_only() {
    let loader = EnvLoader::new().overwrite_envs(true);
    assert_eq!(loader.file(), "./.env_plus");
    assert_eq!(loader.comment(), "//");
    assert_eq!(loader.delimiter(), "=");
    assert!(loader.overwrites());
    assert!(!loader.overwrite_envs(false).overwrites());
}

#[test]
fn setters_chain_and_the_last_one_wins() {
    let loader = EnvLoader::new()
        .change_delimiter(String::from("||"))
        .change_comment(String::from("@"))
        .change_file(String::from("./special.env"))
        .change_comment(String::from("#"))
        .overwrite_envs(true);
    assert_eq!(loader.file(), "./special.env");
    assert_eq!(loader.comment(), "#");
    assert_eq!(loader.delimiter(), "||");
    assert!(loader.overwrites());
}

#[test]
fn setters_take_empty_strings() {
    let loader = EnvLoader::new()
        .change_delimiter(String::new())
        .change_comment(String::new())
        .change_file(String::new());
    assert_eq!(loader.file(), "");
    assert_eq!(loader.comment(), "");
    assert_eq!(loader.delimiter(), "");
}

#[test]
fn a_clone_has_the_same_settings() {
    let loader = EnvLoader::new()
        .change_delimiter(String::from(":"))
        .change_file(String::from("a.env"))
        .overwrite_envs(true);
    let copy = loader.clone();
    assert_eq!(copy.file(), loader.file());
    assert_eq!(copy.comment(), loader.comment());
    assert_eq!(copy.delimiter(), loader.delimiter());
    assert_eq!(copy.overwrites(), loader.overwrites());
}
