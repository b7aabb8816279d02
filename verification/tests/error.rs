use cairo_mutants::error::{Error, ErrorKind};

#[test]
fn custom_takes_the_text_of_what_it_is_given() {
    assert_eq!(Error::custom("plain"), Error::Custom("plain".to_string()));
    assert_eq!(Error::custom(42), Error::Custom("42".to_string()));
    assert_eq!(Error::custom(String::from("owned")), Error::Custom("owned".to_string()));
}

#[test]
fn from_text_makes_a_custom_error() {
    let e: Error = "Some mutation tests failed".into();
    assert_eq!(e, Error::Custom("Some mutation tests failed".to_string()));
    let e: Error = String::from("owned").into();
    assert_eq!(e, Error::Custom("owned".to_string()));
}

#[test]
fn kind_of_each_variant() {
    assert_eq!(
        Error::FsInvalidPath { path: "x".to_string() }.kind(),
        ErrorKind::PreconditionFailure
    );
    assert_eq!(Error::Precondition("x".to_string()).kind(), ErrorKind::PreconditionFailure);
    assert_eq!(Error::Io("x".to_string()).kind(), ErrorKind::IoFailure);
    assert_eq!(Error::Tool("x".to_string()).kind(), ErrorKind::ToolInvocationFailure);
    assert_eq!(Error::Custom("x".to_string()).kind(), ErrorKind::Other);
}

#[test]
fn to_string_is_the_message() {
    assert_eq!(
        Error::FsInvalidPath { path: "./doesnotexist".to_string() }.to_string(),
        "Invalid path './doesnotexist'"
    );
    assert_eq!(Error::Precondition("Tests aren't passing".to_string()).to_string(), "Tests aren't passing");
    assert_eq!(Error::Io("Invalid line number".to_string()).to_string(), "Invalid line number");
    assert_eq!(Error::Tool("scarb: not found".to_string()).to_string(), "scarb: not found");
    assert_eq!(Error::Custom("".to_string()).to_string(), "");
}
