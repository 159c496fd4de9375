use pkghist::error::{Error, ErrorDetail};

#[test]
fn should_set_the_error_message() {
    let error = Error::new(ErrorDetail::FormattingError {
        msg: String::from("This error is a test"),
    });
    assert_eq!(
        error.to_string(),
        "Error: FormattingError { msg: \"This error is a test\" }"
    )
}

#[test]
fn should_set_the_error_detail() {
    let error = Error::new(ErrorDetail::InvalidFormat);
    assert_eq!(error.detail, ErrorDetail::InvalidFormat)
}

#[test]
fn should_format_correctly() {
    let error = Error::new(ErrorDetail::InvalidFormat);
    let str = error.to_string();
    assert_eq!(str, String::from("Error: InvalidFormat"))
}

#[test]
fn should_debug_format_correctly() {
    let error = Error::new(ErrorDetail::InvalidFormat);
    let str = format!("{:?}", error);
    assert_eq!(str, String::from("Error { detail: InvalidFormat }"))
}

#[test]
fn error_text_of_io_error_and_invalid_action() {
    let io = Error::new(ErrorDetail::IOError {
        msg: String::from("a \"quoted\" path"),
    });
    assert_eq!(io.to_string(), "Error: IOError { msg: \"a \\\"quoted\\\" path\" }");
    let action = Error::new(ErrorDetail::InvalidAction);
    assert_eq!(action.to_string(), "Error: InvalidAction");
}

#[test]
fn should_convert_the_io_error() {
    let e = std::io::Error::new(std::io::ErrorKind::BrokenPipe, "Pipe is broken");
    let error = Error::from(e);
    assert_eq!(
        error.detail,
        ErrorDetail::IOError {
            msg: String::from("BrokenPipe -> Pipe is broken")
        }
    )
}
