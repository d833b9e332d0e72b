use ini_diff::config::{Action, Config};

fn words(line: &[&str]) -> Vec<String> {
    line.iter().map(|w| w.to_string()).collect()
}

fn config(base: &str, target: &str, action: Action) -> Config {
    Config { base_path: base.to_string(), target_path: target.to_string(), action }
}

#[test]
fn two_paths_default_to_check() {
    assert_eq!(
        Config::from_args(&words(&["tool", "base.ini", "target.ini"])),
        Ok(config("base.ini", "target.ini", Action::Check))
    );
}

#[test]
fn merge_flag_anywhere() {
    let expected = Ok(config("b", "t", Action::Merge));
    assert_eq!(Config::from_args(&words(&["tool", "--merge", "b", "t"])), expected);
    assert_eq!(Config::from_args(&words(&["tool", "b", "--merge", "t"])), expected);
    assert_eq!(Config::from_args(&words(&["tool", "b", "t", "--merge"])), expected);
}

#[test]
fn last_flag_decides() {
    assert_eq!(
        Config::from_args(&words(&["tool", "--merge", "b", "--check", "t"])),
        Ok(config("b", "t", Action::Check))
    );
    assert_eq!(
        Config::from_args(&words(&["tool", "--check", "b", "t", "--merge"])),
        Ok(config("b", "t", Action::Merge))
    );
}

#[test]
fn program_name_is_passed_over() {
    assert_eq!(
        Config::from_args(&words(&["--merge", "b", "t"])),
        Ok(config("b", "t", Action::Check))
    );
}

#[test]
fn missing_base() {
    let message = Err("Missing base_file argument".to_string());
    assert_eq!(Config::from_args(&words(&[])), message);
    assert_eq!(Config::from_args(&words(&["tool"])), message);
    assert_eq!(Config::from_args(&words(&["tool", "--merge"])), message);
}

#[test]
fn missing_target() {
    let message = Err("Missing target_file argument".to_string());
    assert_eq!(Config::from_args(&words(&["tool", "b"])), message);
    assert_eq!(Config::from_args(&words(&["tool", "--check", "b"])), message);
}

#[test]
fn third_path_is_unexpected() {
    assert_eq!(
        Config::from_args(&words(&["tool", "b", "t", "extra"])),
        Err("Unexpected argument: extra".to_string())
    );
    assert_eq!(
        Config::from_args(&words(&["tool", "b", "t", "first", "second", "--merge"])),
        Err("Unexpected argument: first".to_string())
    );
}

#[test]
fn unknown_flag_is_a_path() {
    assert_eq!(
        Config::from_args(&words(&["tool", "--verbose", "t"])),
        Ok(config("--verbose", "t", Action::Check))
    );
}
