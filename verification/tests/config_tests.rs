use minigrep::{Config, ConfigError};

fn args_of(parts: &[&str]) -> Vec<String> {
    parts.iter().map(|s| s.to_string()).collect()
}

#[test]
fn builds_from_two_arguments() {
    let args = args_of(&["prog", "needle", "notes.txt"]);
    let config = Config::build(&args, None).unwrap();
    assert_eq!(config.query, "needle");
    assert_eq!(config.file_path, "notes.txt");
    assert!(!config.ignore_case);
}

#[test]
fn toggle_set_to_one_enables_ignore_case() {
    let args = args_of(&["prog", "needle", "notes.txt"]);
    let config = Config::build(&args, Some("1".to_string())).unwrap();
    assert!(config.ignore_case);
}

#[test]
fn toggle_with_other_value_stays_case_sensitive() {
    let args = args_of(&["prog", "needle", "notes.txt"]);
    let config = Config::build(&args, Some("0".to_string())).unwrap();
    assert!(!config.ignore_case);
    let config = Config::build(&args, Some("true".to_string())).unwrap();
    assert!(!config.ignore_case);
}

#[test]
fn missing_query_is_reported() {
    let args = args_of(&["prog"]);
    assert_eq!(Config::build(&args, None).unwrap_err(), ConfigError::MissingQuery);
    let none: Vec<String> = Vec::new();
    assert_eq!(Config::build(&none, None).unwrap_err(), ConfigError::MissingQuery);
}

#[test]
fn missing_file_path_is_reported() {
    let args = args_of(&["prog", "needle"]);
    assert_eq!(Config::build(&args, None).unwrap_err(), ConfigError::MissingFilePath);
}

#[test]
fn empty_query_is_rejected() {
    let args = args_of(&["prog", "", "notes.txt"]);
    assert_eq!(Config::build(&args, None).unwrap_err(), ConfigError::EmptyQuery);
}

#[test]
fn empty_file_path_is_rejected() {
    let args = args_of(&["prog", "needle", ""]);
    assert_eq!(Config::build(&args, None).unwrap_err(), ConfigError::EmptyFilePath);
}

#[test]
fn three_positional_arguments_are_too_many() {
    let args = args_of(&["prog", "needle", "notes.txt", "extra"]);
    let err = Config::build(&args, None).unwrap_err();
    assert_eq!(err, ConfigError::TooManyArguments);
    assert_eq!(err.message(), "参数过多");
}

#[test]
fn error_messages() {
    assert_eq!(ConfigError::MissingQuery.message(), "未找到查询字符串");
    assert_eq!(ConfigError::MissingFilePath.message(), "未找到文件路径");
    assert_eq!(ConfigError::EmptyQuery.message(), "查询字符串为空");
    assert_eq!(ConfigError::EmptyFilePath.message(), "文件路径为空");
    assert_eq!(ConfigError::TooManyArguments.message(), "参数过多");
}
