use imq::Error;

#[test]
fn helpers_choose_their_variant() {
    assert!(matches!(Error::invalid_frame("x"), Error::InvalidFrame(_)));
    assert!(matches!(Error::incompatible("x"), Error::IncompatibleFrames(_)));
    assert!(matches!(Error::unsupported("x"), Error::UnsupportedInput(_)));
    assert!(matches!(
        Error::input_not_found("a.png"),
        Error::InputNotFound { ref path } if path == "a.png"
    ));
    assert!(matches!(
        Error::external_tool_start_failed("ffmpeg", "--ffmpeg", true, "gone"),
        Error::ExternalToolNotFound { ref option, .. } if option == "--ffmpeg"
    ));
    assert!(matches!(
        Error::external_tool_start_failed("ffmpeg", "--ffmpeg", false, "denied"),
        Error::ExternalToolStartFailed { ref source, .. } if source == "denied"
    ));
}

#[test]
fn messages_name_their_cause() {
    assert_eq!(Error::invalid_frame("x").message(), "invalid frame: x");
    assert_eq!(Error::incompatible("x").message(), "incompatible frames: x");
    assert_eq!(
        Error::unsupported("x").message(),
        "unsupported metric input: x"
    );
    assert_eq!(
        Error::UnknownMetric("m".to_string()).message(),
        "unknown metric `m`"
    );
    assert!(Error::input_not_found("a.png").message().contains("a.png"));
}
