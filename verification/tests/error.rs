use gpucr::{Error, InvalidCString};

#[test]
fn messages_match_the_display_of_each_variant() {
    let cuda = Error::Cuda { code: 2, message: "out of memory".to_string() };
    assert_eq!(cuda.message(), "cuda error 2: out of memory");
    let hip = Error::Hip { code: -1, message: "bad".to_string() };
    assert_eq!(hip.message(), "hip error -1: bad");
    assert_eq!(Error::Protocol("x".to_string()).message(), "protocol error: x");
    assert_eq!(Error::Process("y".to_string()).message(), "process error: y");
    let nul = Error::CString(InvalidCString { nul_position: 3, bytes: b"abc\0d".to_vec() });
    assert_eq!(
        nul.message(),
        "invalid c string: nul byte found in provided data at position: 3"
    );
}

#[test]
fn io_errors_convert_and_read_with_their_detail() {
    let io = std::io::Error::new(std::io::ErrorKind::Other, "disk gone");
    let err: Error = io.into();
    assert!(matches!(err, Error::Io(_)));
    assert_eq!(err.message(), "io error: disk gone");
}
