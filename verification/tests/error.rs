use abstract_ns::error::{invalid_name_text, Error, IoErrorKind};

#[test]
fn send_sync() {
    fn send_sync<T: Send + Sync>(_: T) {}
    send_sync(Error::NameNotFound);
}

#[test]
fn wrap_into_io() {
    assert_eq!(Error::InvalidName("foo".to_string(), "bar").io_kind(),
        IoErrorKind::InvalidInput);
    assert_eq!(Error::TemporaryError("oh no!".to_string()).io_kind(),
        IoErrorKind::Other);
    assert_eq!(Error::NameNotFound.io_kind(),
        IoErrorKind::NotFound);
    assert_eq!(Error::NoDefaultPort.io_kind(),
        IoErrorKind::NotFound);
}

#[test]
fn errors_in_words() {
    assert_eq!(Error::NameNotFound.to_string(), "name not found");
    assert_eq!(Error::NameNotFound.description(), "name not found");
    assert_eq!(Error::InvalidName("foo".to_string(), "bar").to_string(),
        "name \"foo\" is invalid: bar");
    // the name is written as `{:?}` writes it
    assert_eq!(Error::InvalidName("fo\"o\\\n".to_string(), "bar").to_string(),
        "name \"fo\\\"o\\\\\\n\" is invalid: bar");
    assert_eq!(Error::InvalidName("fo\"o\\\n".to_string(), "bar").to_string(),
        format!("name {:?} is invalid: {}", "fo\"o\\\n", "bar"));
    assert_eq!(Error::InvalidName(String::new(), "empty").to_string(),
        "name \"\" is invalid: empty");
    assert_eq!(Error::InvalidName("foo".to_string(), "bar").description(),
        "name that you are trying to resolve is invalid");
    assert_eq!(Error::TemporaryError("oh no!".to_string()).to_string(),
        "temporary name resolution error: oh no!");
    assert_eq!(Error::TemporaryError("oh no!".to_string()).description(),
        "temporary name resolution error");
    assert_eq!(Error::NoDefaultPort.to_string(),
        "the resolver can only resolve hostname to an IP, address, \
         so port must be specified to get full address");
}

#[test]
fn shared_values_may_cross_threads() {
    fn send_sync<T: Send + Sync>() {}
    send_sync::<abstract_ns::Address>();
    send_sync::<abstract_ns::Name>();
    send_sync::<abstract_ns::IpList>();
    send_sync::<abstract_ns::Router<abstract_ns::MemResolver>>();
    send_sync::<abstract_ns::name::Error>();
}

#[test]
fn words_for_an_invalid_name() {
    assert_eq!(invalid_name_text("\"foo\"", "bar"), "name \"foo\" is invalid: bar");
    assert_eq!(invalid_name_text("", ""), "name  is invalid: ");
}
