use incubator::conf_path::{
    default_path, replace_with_args_path, replace_with_env_path, ArgsPathError,
};
use std::borrow::Cow;

fn args(items: &[&str]) -> Vec<String> {
    items.iter().map(|s| s.to_string()).collect()
}

#[test]
fn default_path_is_the_system_wide_file() {
    let path = default_path();
    assert_eq!(path, "/etc/app/app.conf");
    assert!(matches!(path, Cow::Borrowed(_)));
}

#[test]
fn environment_replaces_the_path_unless_it_is_empty() {
    let mut path = default_path();
    replace_with_env_path(&mut path, None);
    assert_eq!(path, "/etc/app/app.conf");
    replace_with_env_path(&mut path, Some(String::new()));
    assert_eq!(path, "/etc/app/app.conf");
    replace_with_env_path(&mut path, Some("env.conf".to_string()));
    assert_eq!(path, "env.conf");
    replace_with_env_path(&mut path, Some(String::new()));
    assert_eq!(path, "env.conf");
}

#[test]
fn command_line_gives_the_path_behind_the_flag() {
    let mut path = default_path();
    assert!(replace_with_args_path(&mut path, args(&[])).is_ok());
    assert!(replace_with_args_path(&mut path, args(&["app"])).is_ok());
    assert_eq!(path, "/etc/app/app.conf");

    assert!(replace_with_args_path(&mut path, args(&["app", "--conf", "my.conf"])).is_ok());
    assert_eq!(path, "my.conf");
    assert!(replace_with_args_path(
        &mut path,
        args(&["app", "--conf", "other.conf", "ignored"])
    )
    .is_ok());
    assert_eq!(path, "other.conf");
}

#[test]
fn command_line_errors_leave_the_path() {
    let mut path = default_path();
    match replace_with_args_path(&mut path, args(&["app", "-c", "my.conf"])) {
        Err(ArgsPathError::InvalidArgument(s)) => assert_eq!(s, "-c"),
        _ => panic!("the flag should be refused"),
    }
    match replace_with_args_path(&mut path, args(&["app", "my.conf"])) {
        Err(ArgsPathError::InvalidArgument(s)) => assert_eq!(s, "my.conf"),
        _ => panic!("the flag should be refused"),
    }
    assert!(matches!(
        replace_with_args_path(&mut path, args(&["app", "--conf"])),
        Err(ArgsPathError::EmptyString)
    ));
    assert!(matches!(
        replace_with_args_path(&mut path, args(&["app", "--conf", ""])),
        Err(ArgsPathError::EmptyString)
    ));
    assert!(matches!(
        replace_with_args_path(&mut path, args(&["app", "--conf", "", "x"])),
        Err(ArgsPathError::EmptyString)
    ));
    assert_eq!(path, "/etc/app/app.conf");
}
