use imq::cli::remote::{
    after_read, capture_result, check_frame_format, copy_result, extract_frame_command,
    frame_stream_failure, image_input_label, image_stream_failure, is_stdin_path, is_video_input,
    parse_input_spec, read_bounded_stderr_tail, read_limit, reject_double_stdin_specs,
    remote_frame_path, reported_frame_path, safe_kind, scp_arguments, ssh_arguments,
    still_image_transfer, stream_frame_command, video_filters, video_frame_transfer, CaptureEnd,
    FrameTransfer, ImageTransfer, InputSpec, RemoteArgs, RemoteFrameFormat, RemoteTransferMode,
    StderrTail, REMOTE_STDERR_TAIL_BYTES,
};
use imq::Dimensions;

fn remote_args() -> RemoteArgs {
    RemoteArgs {
        ssh: None,
        remote_transfer: RemoteTransferMode::Stream,
        remote_frame_format: RemoteFrameFormat::Png,
        ssh_bin: "ssh".to_string(),
        scp_bin: "scp".to_string(),
        ssh_connect_timeout: Some(5),
        ssh_batch_mode: true,
        remote_copy_dir: None,
        keep_temp: false,
        remote_max_bytes: 8,
    }
}

#[test]
fn remote_stderr_capture_retains_only_the_bounded_tail() {
    let mut input = vec![b'a'; REMOTE_STDERR_TAIL_BYTES + 1024];
    input.extend_from_slice(b"tail-marker");

    let captured = read_bounded_stderr_tail(input.as_slice(), None, REMOTE_STDERR_TAIL_BYTES);

    assert!(captured.starts_with("[stderr truncated; showing tail]\n"));
    assert!(captured.ends_with("tail-marker"));
    assert!(captured.len() <= REMOTE_STDERR_TAIL_BYTES + 64);
}

#[test]
fn tails_do_not_depend_on_the_pieces() {
    let whole = StderrTail::new(6).push(b"abcdefghij").finish(None);
    let pieces = StderrTail::new(6)
        .push(b"ab")
        .push(b"cdefg")
        .push(b"hij")
        .finish(None);
    assert_eq!(whole, pieces);
    assert_eq!(whole, "[stderr truncated; showing tail]\nefghij");
    assert_eq!(StderrTail::new(6).push(b"abc").finish(None), "abc");
    assert_eq!(
        StderrTail::new(6).push(b"abc").finish(Some("gone")),
        "[failed to read stderr: gone]\nabc"
    );
    assert_eq!(StderrTail::new(6).push(&[b'a', 0xff]).finish(None), "a\u{fffd}");
}

#[test]
fn captures_over_the_limit_are_refused() {
    assert_eq!(read_limit(8), 9);
    assert!(after_read(None, 8, 8).is_none());
    let end = after_read(None, 9, 8).unwrap();
    assert!(matches!(end, CaptureEnd::TooLong));
    let message = capture_result(&end, "ssh://example.com/image.png", " diagnostic\n").unwrap_err();
    assert_eq!(
        message,
        "remote stream exceeded --remote-max-bytes for ssh://example.com/image.png\ndiagnostic"
    );
    let end = after_read(Some("broken".to_string()), 0, 8).unwrap();
    assert!(capture_result(&end, "u", "").is_err());
    let good = CaptureEnd::Exited {
        success: true,
        status: "exit status: 0".to_string(),
    };
    assert!(capture_result(&good, "u", "x").is_ok());
    assert!(copy_result(&good, "u", "x").is_ok());
    let bad = CaptureEnd::Exited {
        success: false,
        status: "exit status: 7".to_string(),
    };
    assert_eq!(
        copy_result(&bad, "u", "copy failed marker\n").unwrap_err(),
        "scp failed for u: exit status: 7\ncopy failed marker"
    );
    let lost = CaptureEnd::WaitFailed("gone".to_string());
    assert!(copy_result(&lost, "u", "").is_err());
}

#[test]
fn command_lines_follow_the_options() {
    let options = remote_args().options();
    assert_eq!(options.max_bytes, 8);
    assert_eq!(
        ssh_arguments(&options, Some(2222), "user@host", "cat x"),
        [
            "-T",
            "-o",
            "BatchMode=yes",
            "-o",
            "ConnectTimeout=5",
            "-p",
            "2222",
            "user@host",
            "cat x"
        ]
    );
    assert_eq!(
        scp_arguments(Some(22), "host", "'/a b'", "/tmp/payload"),
        ["-P", "22", "host:'/a b'", "/tmp/payload"]
    );
    let filters = video_filters(7, Some(Dimensions { width: 64, height: 48 }));
    assert_eq!(filters, "select=eq(n\\,7),scale=64:48");
    assert_eq!(video_filters(7, None), "select=eq(n\\,7)");
    assert!(stream_frame_command("ffmpeg", "'/v'", "'f'").starts_with("ffmpeg -hide_banner"));
    let command = extract_frame_command("ffmpeg", "'/v'", "'f'", "'/tmp/x.png'");
    assert!(command.ends_with("'/tmp/x.png' && printf '%s\\n' '/tmp/x.png'"));
    assert_eq!(remote_frame_path(12, 3), "/tmp/imq-frame-12-3.png");
    assert_eq!(reported_frame_path(b" /tmp/x.png\n").unwrap(), "/tmp/x.png");
    assert!(reported_frame_path(b" \n").is_err());
    assert_eq!(safe_kind("in/put-1_\u{e9}"), "in_put-1__");
}

#[test]
fn inputs_are_told_apart() {
    assert!(is_stdin_path("-"));
    assert!(!is_stdin_path("--"));
    assert_eq!(image_input_label("-"), "stdin");
    assert_eq!(image_input_label("a.png"), "a.png");
    let local = || InputSpec::Local("/a.png".to_string());
    let input = parse_input_spec("/a.png", local(), true, &Some("host".to_string()));
    assert!(matches!(input, InputSpec::Ssh(ref remote) if remote.host == "host"));
    let input = parse_input_spec("a.png", local(), false, &Some("host".to_string()));
    assert!(input.is_local());
    assert!(is_video_input(Some("MKV")));
    assert!(!is_video_input(Some("png")));
    assert!(!is_video_input(None));
    assert!(reject_double_stdin_specs(&InputSpec::Stdin, Some(&InputSpec::Stdin)).is_err());
    assert!(reject_double_stdin_specs(&InputSpec::Stdin, Some(&local())).is_ok());
    assert!(reject_double_stdin_specs(&InputSpec::Stdin, None).is_ok());
}

#[test]
fn transfer_modes_fit_their_inputs() {
    assert!(matches!(
        still_image_transfer(RemoteTransferMode::CopyInput),
        Ok(ImageTransfer::Copy)
    ));
    assert!(still_image_transfer(RemoteTransferMode::CopyFrame).is_err());
    assert!(matches!(
        video_frame_transfer(RemoteTransferMode::CopySource),
        Ok(FrameTransfer::CopySource)
    ));
    assert!(video_frame_transfer(RemoteTransferMode::CopyInput).is_err());
    assert!(check_frame_format(RemoteFrameFormat::Png).is_ok());
    assert!(check_frame_format(RemoteFrameFormat::Rgba).is_err());
    assert!(image_stream_failure("uri", "cause").contains("uri"));
    assert!(frame_stream_failure("uri", "cause").contains("cause"));
}
