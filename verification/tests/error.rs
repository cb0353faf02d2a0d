use newcamd_lib::{NewcamdError, Result};

#[test]
fn errors_have_messages() {
    let io = NewcamdError::from(std::io::Error::new(std::io::ErrorKind::Other, "broken"));
    assert!(matches!(io, NewcamdError::Io(_)));
    assert_eq!(io.message(), "I/O error: broken");
    assert_eq!(io.message_with("gone"), "I/O error: gone");
    assert_eq!(NewcamdError::Protocol("late").message(), "Protocol error: late");
    assert_eq!(NewcamdError::AuthenticationFailed.message(), "Authentication failed");
    assert_eq!(NewcamdError::InvalidData("x".to_string()).message(), "Invalid data: x");
    assert_eq!(NewcamdError::Crypto("bad").message(), "Crypto error: bad");
}

#[test]
fn results_hold_the_errors_of_the_client() {
    let refused: Result<u8> = Err(NewcamdError::AuthenticationFailed);
    assert!(matches!(refused, Err(NewcamdError::AuthenticationFailed)));
}
