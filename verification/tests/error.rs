use incubator::error::Error;

#[test]
fn error_starts_unknown_and_takes_each_part() {
    let err = Error::default();
    assert_eq!(
        format!("{:?}", err),
        "Error { code: \"UNKNOWN\", status: 500, message: \"Unknown error has happened.\" }"
    );
    let mut err = Error::new("NO_USER");
    assert_eq!(
        format!("{:?}", err),
        "Error { code: \"NO_USER\", status: 500, message: \"Unknown error has happened.\" }"
    );
    err.status(404).message("User not found");
    assert_eq!(
        format!("{:?}", err),
        "Error { code: \"NO_USER\", status: 404, message: \"User not found\" }"
    );
    err.message(String::from("gone")).status(410);
    assert_eq!(
        format!("{:?}", err),
        "Error { code: \"NO_USER\", status: 410, message: \"gone\" }"
    );
}
