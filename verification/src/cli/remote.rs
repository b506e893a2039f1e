//! Inputs on other hosts: addresses, command lines, and captured output.

use crate::cli::CliResult;
use crate::frame::Dimensions;
use crate::strings::{char_list, lowered, to_ascii_lowercase, trim, trimmed};
use crate::text::{
    concat2, concat3, concat4, concat5, concat6, concat7, decimal, decimal_text,
    from_utf8_lossy, lossy_text, optional_text, same_text, texts,
};
use vstd::prelude::*;

verus! {

/// A file on another host.
#[derive(Debug)]
pub struct SshInput {
    /// Login name.
    pub user: Option<String>,
    /// Host name.
    pub host: String,
    /// Port.
    pub port: Option<u16>,
    /// Path on the host.
    pub path: String,
}

/// Where an input is read from.
#[derive(Debug)]
pub enum InputSpec {
    /// A local file.
    Local(String),
    /// Standard input.
    Stdin,
    /// A file on another host.
    Ssh(SshInput),
}

impl InputSpec {
    /// Tells whether this is a local file.
    pub fn is_local(&self) -> (local: bool)
        ensures
            local == (*self is Local),
    {
        match self {
            InputSpec::Local(_) => true,
            _ => false,
        }
    }

    /// Tells whether this is standard input.
    pub fn is_stdin(&self) -> (stdin: bool)
        ensures
            stdin == (*self is Stdin),
    {
        match self {
            InputSpec::Stdin => true,
            _ => false,
        }
    }
}

/// Tells whether a path stands for standard input.
pub fn is_stdin_path(path: &str) -> (yes: bool)
    ensures
        yes == (path@ == "-"@),
{
    same_text(path, "-")
}

/// Label of an image argument.
pub fn image_input_label(path: &str) -> (label: String)
    ensures
        label@ == if path@ == "-"@ {
            "stdin"@
        } else {
            path@
        },
{
    if is_stdin_path(path) {
        String::from_str("stdin")
    } else {
        String::from_str(path)
    }
}

/// Takes an argument as an input. `parsed` is what its address reads as and
/// `absolute` tells whether it is an absolute path; with a host given, absolute
/// local paths are looked for there.
pub fn parse_input_spec(raw: &str, parsed: InputSpec, absolute: bool, ssh: &Option<String>) -> (input:
    InputSpec)
    ensures
        if parsed is Local && ssh is Some && raw@ != "-"@ && absolute {
            input matches InputSpec::Ssh(remote) && remote.user is None && remote.port is None
                && remote.host@ == ssh->0@ && remote.path@ == raw@
        } else {
            input == parsed
        },
{
    if let Some(host) = ssh {
        if parsed.is_local() && !is_stdin_path(raw) && absolute {
            return InputSpec::Ssh(
                SshInput {
                    user: None,
                    host: host.clone(),
                    port: None,
                    path: String::from_str(raw),
                },
            );
        }
    }
    parsed
}

/// File extensions of videos, in lower case.
pub open spec fn is_video_name(extension: Seq<char>) -> bool {
    ||| extension == "avi"@
    ||| extension == "m4v"@
    ||| extension == "mkv"@
    ||| extension == "mov"@
    ||| extension == "mp4"@
    ||| extension == "mpeg"@
    ||| extension == "mpg"@
    ||| extension == "webm"@
    ||| extension == "wmv"@
}

/// Tells from its file extension whether an input is a video.
pub fn is_video_input(extension: Option<&str>) -> (yes: bool)
    ensures
        yes == (extension matches Some(text) && is_video_name(lowered(text@))),
{
    match extension {
        None => false,
        Some(text) => {
            let lower = to_ascii_lowercase(text);
            let name = lower.as_str();
            same_text(name, "avi") || same_text(name, "m4v") || same_text(name, "mkv")
                || same_text(name, "mov") || same_text(name, "mp4") || same_text(name, "mpeg")
                || same_text(name, "mpg") || same_text(name, "webm") || same_text(name, "wmv")
        },
    }
}

/// Refuses to read two images from standard input.
pub fn reject_double_stdin_specs(first: &InputSpec, second: Option<&InputSpec>) -> (result: CliResult<
    (),
>)
    ensures
        match result {
            Ok(_) => !(*first is Stdin && (second matches Some(other) && *other is Stdin)),
            Err(message) => *first is Stdin && (second matches Some(other) && *other is Stdin)
                && message@ == "stdin input `-` can only be used for one image argument"@,
        },
{
    if first.is_stdin() {
        if let Some(other) = second {
            if other.is_stdin() {
                return Err(
                    String::from_str("stdin input `-` can only be used for one image argument"),
                );
            }
        }
    }
    Ok(())
}

/// How remote files reach this machine.
#[derive(Debug, Clone, Copy, PartialEq, Eq, Structural)]
pub enum RemoteTransferMode {
    /// Streamed over the connection.
    Stream,
    /// The input is copied.
    CopyInput,
    /// An extracted frame is copied.
    CopyFrame,
    /// The whole source is copied.
    CopySource,
}

/// Format of streamed video frames.
#[derive(Debug, Clone, Copy, PartialEq, Eq, Structural)]
pub enum RemoteFrameFormat {
    /// PNG.
    Png,
    /// Raw RGBA.
    Rgba,
}

/// Options of remote access.
#[derive(Debug)]
pub struct RemoteOptions {
    /// Transfer mode.
    pub transfer: RemoteTransferMode,
    /// Frame format.
    pub frame_format: RemoteFrameFormat,
    /// Program for connections.
    pub ssh: String,
    /// Program for copies.
    pub scp: String,
    /// Connection timeout in seconds.
    pub connect_timeout_seconds: Option<u64>,
    /// Never ask for passwords.
    pub batch_mode: bool,
    /// Directory for copies.
    pub copy_dir: Option<String>,
    /// Keep copies.
    pub keep_temp: bool,
    /// Largest accepted stream.
    pub max_bytes: usize,
}

/// Remote access on the command line.
#[derive(Debug)]
pub struct RemoteArgs {
    /// Host for absolute local paths.
    pub ssh: Option<String>,
    /// Transfer mode.
    pub remote_transfer: RemoteTransferMode,
    /// Frame format.
    pub remote_frame_format: RemoteFrameFormat,
    /// Program for connections.
    pub ssh_bin: String,
    /// Program for copies.
    pub scp_bin: String,
    /// Connection timeout in seconds.
    pub ssh_connect_timeout: Option<u64>,
    /// Never ask for passwords.
    pub ssh_batch_mode: bool,
    /// Directory for copies.
    pub remote_copy_dir: Option<String>,
    /// Keep copies.
    pub keep_temp: bool,
    /// Largest accepted stream.
    pub remote_max_bytes: usize,
}

impl RemoteArgs {
    /// Options that the arguments ask for.
    pub fn options(&self) -> (options: RemoteOptions)
        ensures
            options.transfer == self.remote_transfer,
            options.frame_format == self.remote_frame_format,
            options.ssh@ == self.ssh_bin@,
            options.scp@ == self.scp_bin@,
            options.connect_timeout_seconds == self.ssh_connect_timeout,
            options.batch_mode == self.ssh_batch_mode,
            optional_text(options.copy_dir) == optional_text(self.remote_copy_dir),
            options.keep_temp == self.keep_temp,
            options.max_bytes == self.remote_max_bytes,
    {
        RemoteOptions {
            transfer: self.remote_transfer,
            frame_format: self.remote_frame_format,
            ssh: self.ssh_bin.clone(),
            scp: self.scp_bin.clone(),
            connect_timeout_seconds: self.ssh_connect_timeout,
            batch_mode: self.ssh_batch_mode,
            copy_dir: match &self.remote_copy_dir {
                Some(dir) => Some(dir.clone()),
                None => None,
            },
            keep_temp: self.keep_temp,
            max_bytes: self.remote_max_bytes,
        }
    }
}

/// A port as command-line arguments behind a switch.
pub open spec fn port_arguments(switch: Seq<char>, port: Option<u16>) -> Seq<Seq<char>> {
    match port {
        Some(port) => seq![switch, decimal_text(port as nat)],
        None => Seq::empty(),
    }
}

/// Arguments for running a command on another host.
pub open spec fn ssh_command_line(
    batch_mode: bool,
    timeout: Option<u64>,
    port: Option<u16>,
    target: Seq<char>,
    command: Seq<char>,
) -> Seq<Seq<char>> {
    let batch = if batch_mode {
        seq!["-o"@, "BatchMode=yes"@]
    } else {
        Seq::empty()
    };
    let wait = match timeout {
        Some(seconds) => seq!["-o"@, "ConnectTimeout="@ + decimal_text(seconds as nat)],
        None => Seq::empty(),
    };
    seq!["-T"@] + batch + wait + port_arguments("-p"@, port) + seq![target, command]
}

/// Builds the arguments for running a command on another host.
pub fn ssh_arguments(remote: &RemoteOptions, port: Option<u16>, target: &str, command: &str) -> (args:
    Vec<String>)
    ensures
        texts(args@) == ssh_command_line(
            remote.batch_mode,
            remote.connect_timeout_seconds,
            port,
            target@,
            command@,
        ),
{
    let mut args: Vec<String> = Vec::new();
    args.push(String::from_str("-T"));
    if remote.batch_mode {
        args.push(String::from_str("-o"));
        args.push(String::from_str("BatchMode=yes"));
    }
    if let Some(seconds) = remote.connect_timeout_seconds {
        args.push(String::from_str("-o"));
        args.push(concat2("ConnectTimeout=", decimal(seconds).as_str()));
    }
    if let Some(port) = port {
        args.push(String::from_str("-p"));
        args.push(decimal(port as u64));
    }
    args.push(String::from_str(target));
    args.push(String::from_str(command));
    args
}

/// Arguments for copying a file from another host.
pub open spec fn scp_command_line(
    port: Option<u16>,
    target: Seq<char>,
    quoted_path: Seq<char>,
    destination: Seq<char>,
) -> Seq<Seq<char>> {
    port_arguments("-P"@, port) + seq![target + ":"@ + quoted_path, destination]
}

/// Builds the arguments for copying a file from another host.
pub fn scp_arguments(port: Option<u16>, target: &str, quoted_path: &str, destination: &str) -> (args:
    Vec<String>)
    ensures
        texts(args@) == scp_command_line(port, target@, quoted_path@, destination@),
{
    let mut args: Vec<String> = Vec::new();
    if let Some(port) = port {
        args.push(String::from_str("-P"));
        args.push(decimal(port as u64));
    }
    args.push(concat3(target, ":", quoted_path));
    args.push(String::from_str(destination));
    args
}

/// Number of bytes to read at most: one more than accepted, so that a longer
/// stream is noticed.
pub fn read_limit(max_bytes: usize) -> (limit: u64)
    ensures
        limit == if max_bytes < u64::MAX {
            max_bytes + 1
        } else {
            u64::MAX as int
        },
{
    let max: u64 = max_bytes as u64;
    if max < u64::MAX {
        max + 1
    } else {
        u64::MAX
    }
}

/// How a captured command ended.
#[derive(Debug)]
pub enum CaptureEnd {
    /// Its output could not be read.
    ReadFailed(String),
    /// Its output is longer than accepted.
    TooLong,
    /// Waiting for it failed.
    WaitFailed(String),
    /// It exited with a status.
    Exited {
        /// Whether the status is success.
        success: bool,
        /// The status as text.
        status: String,
    },
}

/// Decides after reading whether the command has to be stopped. `None` means that
/// it is waited for.
pub fn after_read(read_error: Option<String>, length: usize, max_bytes: usize) -> (end: Option<
    CaptureEnd,
>)
    ensures
        end == match read_error {
            Some(error) => Some(CaptureEnd::ReadFailed(error)),
            None => if length > max_bytes {
                Some(CaptureEnd::TooLong)
            } else {
                None
            },
        },
{
    match read_error {
        Some(error) => Some(CaptureEnd::ReadFailed(error)),
        None => if length > max_bytes {
            Some(CaptureEnd::TooLong)
        } else {
            None
        },
    }
}

/// Message for a captured connection that did not succeed.
pub open spec fn capture_fault(end: CaptureEnd, uri: Seq<char>, stderr: Seq<char>) -> Option<
    Seq<char>,
> {
    match end {
        CaptureEnd::ReadFailed(error) => Some(
            "failed to read ssh stdout for "@ + uri + ": "@ + error@ + "\n"@ + trimmed(stderr),
        ),
        CaptureEnd::TooLong => Some(
            "remote stream exceeded --remote-max-bytes for "@ + uri + "\n"@ + trimmed(stderr),
        ),
        CaptureEnd::WaitFailed(error) => Some(
            "failed to wait for ssh command for "@ + uri + ": "@ + error@ + "\n"@ + trimmed(stderr),
        ),
        CaptureEnd::Exited { success, status } => if success {
            None
        } else {
            Some("ssh command failed for "@ + uri + ": "@ + status@ + "\n"@ + trimmed(stderr))
        },
    }
}

/// Judges a captured connection.
pub fn capture_result(end: &CaptureEnd, uri: &str, stderr: &str) -> (result: CliResult<()>)
    ensures
        match result {
            Ok(_) => capture_fault(*end, uri@, stderr@) is None,
            Err(message) => capture_fault(*end, uri@, stderr@) == Some(message@),
        },
{
    let shown = trim(stderr);
    match end {
        CaptureEnd::ReadFailed(error) => Err(
            concat6("failed to read ssh stdout for ", uri, ": ", error.as_str(), "\n", shown),
        ),
        CaptureEnd::TooLong => Err(
            concat4("remote stream exceeded --remote-max-bytes for ", uri, "\n", shown),
        ),
        CaptureEnd::WaitFailed(error) => Err(
            concat6("failed to wait for ssh command for ", uri, ": ", error.as_str(), "\n", shown),
        ),
        CaptureEnd::Exited { success, status } => if *success {
            Ok(())
        } else {
            Err(concat6("ssh command failed for ", uri, ": ", status.as_str(), "\n", shown))
        },
    }
}

/// Message for a copy that did not succeed.
pub open spec fn copy_fault(end: CaptureEnd, uri: Seq<char>, stderr: Seq<char>) -> Option<Seq<char>> {
    match end {
        CaptureEnd::WaitFailed(error) => Some(
            "failed to wait for scp from "@ + uri + ": "@ + error@ + "\n"@ + trimmed(stderr),
        ),
        CaptureEnd::Exited { success, status } => if success {
            None
        } else {
            Some("scp failed for "@ + uri + ": "@ + status@ + "\n"@ + trimmed(stderr))
        },
        _ => None,
    }
}

/// Judges a finished copy; nothing of its output is read.
pub fn copy_result(end: &CaptureEnd, uri: &str, stderr: &str) -> (result: CliResult<()>)
    ensures
        match result {
            Ok(_) => copy_fault(*end, uri@, stderr@) is None,
            Err(message) => copy_fault(*end, uri@, stderr@) == Some(message@),
        },
{
    let shown = trim(stderr);
    match end {
        CaptureEnd::WaitFailed(error) => Err(
            concat6("failed to wait for scp from ", uri, ": ", error.as_str(), "\n", shown),
        ),
        CaptureEnd::Exited { success, status } => if *success {
            Ok(())
        } else {
            Err(concat6("scp failed for ", uri, ": ", status.as_str(), "\n", shown))
        },
        _ => Ok(()),
    }
}

/// The last bytes of a stream, kept while it is read.
pub struct StderrTail {
    tail: Vec<u8>,
    truncated: bool,
    max_bytes: usize,
    seen: Ghost<Seq<u8>>,
}

/// At most the last `count` bytes.
pub open spec fn last_bytes(bytes: Seq<u8>, count: nat) -> Seq<u8> {
    if bytes.len() <= count {
        bytes
    } else {
        bytes.skip(bytes.len() - count)
    }
}

/// Text of a captured stream: notes, then the last bytes.
pub open spec fn tail_text(bytes: Seq<u8>, read_error: Option<Seq<char>>, max_bytes: nat) -> Seq<char> {
    let cut = if bytes.len() > max_bytes {
        "[stderr truncated; showing tail]\n"@
    } else {
        Seq::empty()
    };
    let failed = match read_error {
        Some(error) => "[failed to read stderr: "@ + error + "]\n"@,
        None => Seq::empty(),
    };
    cut + failed + lossy_text(last_bytes(bytes, max_bytes))
}

impl StderrTail {
    #[verifier::type_invariant]
    spec fn keeps_tail(self) -> bool {
        &&& self.tail@ == last_bytes(self.seen@, self.max_bytes as nat)
        &&& self.truncated == (self.seen@.len() > self.max_bytes)
    }

    /// All bytes that were read.
    pub closed spec fn read(self) -> Seq<u8> {
        self.seen@
    }

    /// Largest number of bytes kept.
    pub closed spec fn limit(self) -> nat {
        self.max_bytes as nat
    }

    /// Starts with nothing read.
    pub fn new(max_bytes: usize) -> (capture: Self)
        ensures
            capture.read() == Seq::<u8>::empty(),
            capture.limit() == max_bytes,
    {
        Self { tail: Vec::new(), truncated: false, max_bytes, seen: Ghost(Seq::empty()) }
    }

    /// Takes the next bytes of the stream.
    pub fn push(self, chunk: &[u8]) -> (capture: Self)
        ensures
            capture.read() == self.read() + chunk@,
            capture.limit() == self.limit(),
    {
        proof {
            use_type_invariant(&self);
        }
        let ghost seen = self.seen@ + chunk@;
        let max_bytes: usize = self.max_bytes;
        let count: usize = chunk.len();
        let old_tail = self.tail;
        if count >= max_bytes {
            let truncated = self.truncated || old_tail.len() > 0 || count > max_bytes;
            let tail = copy_from(chunk, count - max_bytes);
            assert(tail@ =~= last_bytes(seen, max_bytes as nat));
            return Self { tail, truncated, max_bytes, seen: Ghost(seen) };
        }
        let kept: usize = if old_tail.len() > max_bytes - count {
            max_bytes - count
        } else {
            old_tail.len()
        };
        let truncated = self.truncated || kept < old_tail.len();
        let mut tail = copy_from(old_tail.as_slice(), old_tail.len() - kept);
        append_bytes(&mut tail, chunk);
        assert(tail@ =~= last_bytes(seen, max_bytes as nat));
        Self { tail, truncated, max_bytes, seen: Ghost(seen) }
    }

    /// Writes the captured text.
    pub fn finish(self, read_error: Option<&str>) -> (text: String)
        ensures
            text@ == tail_text(
                self.read(),
                match read_error {
                    Some(error) => Some(error@),
                    None => None,
                },
                self.limit(),
            ),
    {
        proof {
            use_type_invariant(&self);
        }
        let mut text = String::new();
        assert(text@ =~= Seq::<char>::empty());
        if self.truncated {
            text.append("[stderr truncated; showing tail]\n");
            assert(text@ =~= "[stderr truncated; showing tail]\n"@);
        }
        let ghost first = text@;
        if let Some(error) = read_error {
            text.append(concat3("[failed to read stderr: ", error, "]\n").as_str());
        } else {
            assert(first =~= first + Seq::<char>::empty());
        }
        text.append(from_utf8_lossy(self.tail.as_slice()).as_str());
        text
    }
}

fn copy_from(bytes: &[u8], start: usize) -> (copy: Vec<u8>)
    requires
        start <= bytes@.len(),
    ensures
        copy@ == bytes@.skip(start as int),
{
    let mut copy: Vec<u8> = Vec::new();
    let mut i: usize = start;
    while i < bytes.len()
        invariant
            start <= i <= bytes@.len(),
            copy@ == bytes@.subrange(start as int, i as int),
        decreases bytes@.len() - i,
    {
        copy.push(bytes[i]);
        i += 1;
    }
    assert(copy@ =~= bytes@.skip(start as int));
    copy
}

fn append_bytes(target: &mut Vec<u8>, bytes: &[u8])
    ensures
        final(target)@ == old(target)@ + bytes@,
{
    let mut i: usize = 0;
    while i < bytes.len()
        invariant
            i <= bytes@.len(),
            target@ == old(target)@ + bytes@.take(i as int),
        decreases bytes@.len() - i,
    {
        target.push(bytes[i]);
        assert(bytes@.take(i + 1) =~= bytes@.take(i as int).push(bytes@[i as int]));
        i += 1;
    }
    assert(bytes@.take(bytes@.len() as int) =~= bytes@);
}

/// Keeps the tail of a stream that is read in one piece.
pub fn read_bounded_stderr_tail(bytes: &[u8], read_error: Option<&str>, max_bytes: usize) -> (text:
    String)
    ensures
        text@ == tail_text(
            bytes@,
            match read_error {
                Some(error) => Some(error@),
                None => None,
            },
            max_bytes as nat,
        ),
{
    let capture = StderrTail::new(max_bytes).push(bytes);
    assert(capture.read() =~= bytes@);
    capture.finish(read_error)
}

/// Largest number of bytes of error output that are kept.
pub const REMOTE_STDERR_TAIL_BYTES: usize = 65536;

/// Cutting a stream into pieces differently does not change what is captured.
pub proof fn law_tail_ignores_pieces(a: Seq<u8>, b: Seq<u8>, max_bytes: nat)
    ensures
        last_bytes(last_bytes(a, max_bytes) + b, max_bytes) == last_bytes(a + b, max_bytes),
        last_bytes(a, max_bytes).len() <= max_bytes,
{
    assert(last_bytes(last_bytes(a, max_bytes) + b, max_bytes) =~= last_bytes(a + b, max_bytes));
}

/// Characters that may stand in the name of a private directory.
pub open spec fn safe_char(c: char) -> char {
    if ('a' <= c && c <= 'z') || ('A' <= c && c <= 'Z') || ('0' <= c && c <= '9') || c == '-' || c
        == '_' {
        c
    } else {
        '_'
    }
}

/// Makes a text safe for the name of a private directory.
pub fn safe_kind(kind: &str) -> (safe: String)
    ensures
        safe@ == kind@.map_values(|c: char| safe_char(c)),
{
    let list = char_list(kind);
    let mut safe = String::new();
    let ghost whole = kind@.map_values(|c: char| safe_char(c));
    let mut i: usize = 0;
    assert(safe@ =~= whole.take(0));
    while i < list.len()
        invariant
            i <= list.len(),
            list@ == kind@,
            whole == kind@.map_values(|c: char| safe_char(c)),
            safe@ == whole.take(i as int),
        decreases list.len() - i,
    {
        let c = list[i];
        if ('a' <= c && c <= 'z') || ('A' <= c && c <= 'Z') || ('0' <= c && c <= '9') || c == '-'
            || c == '_' {
            safe.push(c);
        } else {
            safe.push('_');
        }
        assert(whole.take(i + 1) =~= whole.take(i as int).push(safe_char(c)));
        i += 1;
    }
    assert(whole.take(whole.len() as int) =~= whole);
    safe
}

/// How a still image is fetched.
#[derive(Debug, Clone, Copy, PartialEq, Eq, Structural)]
pub enum ImageTransfer {
    /// Streamed.
    Stream,
    /// Copied.
    Copy,
}

/// Decides how a still image is fetched.
pub fn still_image_transfer(mode: RemoteTransferMode) -> (result: CliResult<ImageTransfer>)
    ensures
        match result {
            Ok(transfer) => (mode is Stream && transfer is Stream) || (mode is CopyInput
                && transfer is Copy),
            Err(message) => (mode is CopyFrame || mode is CopySource) && message@
                == "remote transfer mode is not valid for still image input"@,
        },
{
    match mode {
        RemoteTransferMode::Stream => Ok(ImageTransfer::Stream),
        RemoteTransferMode::CopyInput => Ok(ImageTransfer::Copy),
        _ => Err(String::from_str("remote transfer mode is not valid for still image input")),
    }
}

/// How a video frame is fetched.
#[derive(Debug, Clone, Copy, PartialEq, Eq, Structural)]
pub enum FrameTransfer {
    /// The frame is streamed.
    Stream,
    /// The extracted frame is copied.
    CopyFrame,
    /// The whole video is copied.
    CopySource,
}

/// Decides how a video frame is fetched.
pub fn video_frame_transfer(mode: RemoteTransferMode) -> (result: CliResult<FrameTransfer>)
    ensures
        match result {
            Ok(transfer) => (mode is Stream && transfer is Stream) || (mode is CopyFrame
                && transfer is CopyFrame) || (mode is CopySource && transfer is CopySource),
            Err(message) => mode is CopyInput && message@
                == "copy-input is not allowed for video inputs; use copy-frame or copy-source explicitly"@,
        },
{
    match mode {
        RemoteTransferMode::Stream => Ok(FrameTransfer::Stream),
        RemoteTransferMode::CopyFrame => Ok(FrameTransfer::CopyFrame),
        RemoteTransferMode::CopySource => Ok(FrameTransfer::CopySource),
        RemoteTransferMode::CopyInput => Err(
            String::from_str(
                "copy-input is not allowed for video inputs; use copy-frame or copy-source explicitly",
            ),
        ),
    }
}

/// Message for a failed image stream.
pub fn image_stream_failure(uri: &str, error: &str) -> (message: String)
    ensures
        message@ == "remote stream failed for "@ + uri@
            + ".\ncopy fallback is disabled by default.\nUse --remote-transfer copy-input to copy the input explicitly.\n"@
            + error@,
{
    concat4(
        "remote stream failed for ",
        uri,
        ".\ncopy fallback is disabled by default.\nUse --remote-transfer copy-input to copy the input explicitly.\n",
        error,
    )
}

/// Message for a failed frame stream.
pub fn frame_stream_failure(uri: &str, error: &str) -> (message: String)
    ensures
        message@ == "remote stream failed for "@ + uri@
            + ".\ncopy fallback is disabled by default.\nUse --remote-transfer copy-frame to copy extracted frames, or --remote-transfer copy-source to copy the source file explicitly.\n"@
            + error@,
{
    concat4(
        "remote stream failed for ",
        uri,
        ".\ncopy fallback is disabled by default.\nUse --remote-transfer copy-frame to copy extracted frames, or --remote-transfer copy-source to copy the source file explicitly.\n",
        error,
    )
}

/// Video filters that pick one frame and scale it.
pub open spec fn frame_filters(frame_index: nat, scale: Option<Dimensions>) -> Seq<char> {
    let pick = "select=eq(n\\,"@ + decimal_text(frame_index) + ")"@;
    match scale {
        None => pick,
        Some(size) => pick + ",scale="@ + decimal_text(size.width as nat) + ":"@ + decimal_text(
            size.height as nat,
        ),
    }
}

/// Writes the video filters that pick one frame and scale it.
pub fn video_filters(frame_index: u64, scale: Option<Dimensions>) -> (filters: String)
    ensures
        filters@ == frame_filters(frame_index as nat, scale),
{
    let mut filters = concat3("select=eq(n\\,", decimal(frame_index).as_str(), ")");
    if let Some(size) = scale {
        filters.append(",scale=");
        filters.append(decimal(size.width as u64).as_str());
        filters.append(":");
        filters.append(decimal(size.height as u64).as_str());
    }
    filters
}

/// Refuses frame formats that are not available yet.
pub fn check_frame_format(format: RemoteFrameFormat) -> (result: CliResult<()>)
    ensures
        match result {
            Ok(_) => format is Png,
            Err(message) => format is Rgba && message@
                == "--remote-frame-format rgba is reserved for a future raw RGBA remote path"@,
        },
{
    match format {
        RemoteFrameFormat::Png => Ok(()),
        RemoteFrameFormat::Rgba => Err(
            String::from_str(
                "--remote-frame-format rgba is reserved for a future raw RGBA remote path",
            ),
        ),
    }
}

/// Writes the remote command that streams one frame as PNG. The arguments are
/// already quoted for the shell.
pub fn stream_frame_command(ffmpeg: &str, path: &str, filters: &str) -> (command: String)
    ensures
        command@ == ffmpeg@ + " -hide_banner -loglevel error -i "@ + path@ + " -vf "@ + filters@
            + " -vsync 0 -frames:v 1 -f image2pipe -vcodec png pipe:1"@,
{
    concat6(
        ffmpeg,
        " -hide_banner -loglevel error -i ",
        path,
        " -vf ",
        filters,
        " -vsync 0 -frames:v 1 -f image2pipe -vcodec png pipe:1",
    )
}

/// Writes the remote command that extracts one frame into a file and prints the
/// file's path. The arguments are already quoted for the shell.
pub fn extract_frame_command(ffmpeg: &str, path: &str, filters: &str, target: &str) -> (command:
    String)
    ensures
        command@ == ffmpeg@ + " -hide_banner -loglevel error -i "@ + path@ + " -vf "@ + filters@
            + " -vsync 0 -frames:v 1 -f image2 -vcodec png "@ + target@ + " && printf '%s\\n' "@
            + target@,
{
    let mut command = concat7(
        ffmpeg,
        " -hide_banner -loglevel error -i ",
        path,
        " -vf ",
        filters,
        " -vsync 0 -frames:v 1 -f image2 -vcodec png ",
        target,
    );
    command.append(" && printf '%s\\n' ");
    command.append(target);
    command
}

/// Path of an extracted frame on the other host.
pub fn remote_frame_path(process_id: u32, frame_index: u64) -> (path: String)
    ensures
        path@ == "/tmp/imq-frame-"@ + decimal_text(process_id as nat) + "-"@ + decimal_text(
            frame_index as nat,
        ) + ".png"@,
{
    concat5(
        "/tmp/imq-frame-",
        decimal(process_id as u64).as_str(),
        "-",
        decimal(frame_index).as_str(),
        ".png",
    )
}

/// Takes the path that a remote extraction printed.
pub fn reported_frame_path(output: &[u8]) -> (result: CliResult<String>)
    ensures
        match result {
            Ok(path) => path@ == trimmed(lossy_text(output@)) && path@.len() > 0,
            Err(message) => trimmed(lossy_text(output@)).len() == 0 && message@
                == "remote frame extraction did not report a temporary frame path"@,
        },
{
    let text = from_utf8_lossy(output);
    let path = trim(text.as_str());
    if path.is_empty() {
        return Err(
            String::from_str("remote frame extraction did not report a temporary frame path"),
        );
    }
    Ok(String::from_str(path))
}

/// The tail of what was read is its end, as many bytes as are kept; when that is all of
/// it nothing is said to be missing, and otherwise a note says so.
pub proof fn law_tail_is_the_end(
    bytes: Seq<u8>,
    max_bytes: nat,
    before: Seq<u8>,
    error: Seq<char>,
)
    ensures
        last_bytes(bytes, max_bytes).len() == if bytes.len() < max_bytes {
            bytes.len()
        } else {
            max_bytes
        },
        bytes.take(bytes.len() - last_bytes(bytes, max_bytes).len()) + last_bytes(bytes, max_bytes)
            == bytes,
        bytes.len() <= max_bytes ==> tail_text(bytes, None, max_bytes) == lossy_text(bytes),
        bytes.len() == max_bytes && before.len() > 0 ==> tail_text(before + bytes, None, max_bytes)
            == "[stderr truncated; showing tail]\n"@ + lossy_text(bytes),
        bytes.len() <= max_bytes ==> tail_text(bytes, Some(error), max_bytes)
            == "[failed to read stderr: "@ + error + "]\n"@ + lossy_text(bytes),
{
    let kept = last_bytes(bytes, max_bytes);
    assert(bytes.take(bytes.len() - kept.len()) + kept =~= bytes);
    let none = Seq::<char>::empty();
    assert(none + none + lossy_text(kept) =~= lossy_text(kept));
    let failed = "[failed to read stderr: "@ + error + "]\n"@;
    assert(none + failed + lossy_text(kept) =~= failed + lossy_text(kept));
    if bytes.len() == max_bytes && before.len() > 0 {
        let note = "[stderr truncated; showing tail]\n"@;
        assert(last_bytes(before + bytes, max_bytes) =~= bytes);
        assert(note + none + lossy_text(bytes) =~= note + lossy_text(bytes));
    }
}

/// A safe name keeps letters, digits, `-` and `_`, and has an underscore for every other
/// character.
pub proof fn law_safe_names(c: char)
    ensures
        safe_char(c) == c <==> 0x61 <= c as u32 <= 0x7a || 0x41 <= c as u32 <= 0x5a || 0x30
            <= c as u32 <= 0x39 || c == '-' || c == '_',
        safe_char(c) != c ==> safe_char(c) == '_',
        safe_char(safe_char(c)) == safe_char(c),
{
}

/// A command over ssh ends with the target and the command, asks for no terminal, and
/// carries batch mode, timeout, and port exactly when they are set.
pub proof fn law_ssh_command_lines(
    batch_mode: bool,
    timeout: Option<u64>,
    port: Option<u16>,
    target: Seq<char>,
    command: Seq<char>,
)
    ensures
        ({
            let line = ssh_command_line(batch_mode, timeout, port, target, command);
            let batch: int = if batch_mode {
                2
            } else {
                0
            };
            let wait: int = if timeout is Some {
                2
            } else {
                0
            };
            let own: int = if port is Some {
                2
            } else {
                0
            };
            &&& line.len() == 3 + batch + wait + own
            &&& line[0] == "-T"@
            &&& batch_mode ==> line[1] == "-o"@ && line[2] == "BatchMode=yes"@
            &&& timeout matches Some(seconds) ==> line[1 + batch] == "-o"@ && line[2 + batch]
                == "ConnectTimeout="@ + decimal_text(seconds as nat)
            &&& port matches Some(number) ==> line[1 + batch + wait] == "-p"@ && line[2 + batch
                + wait] == decimal_text(number as nat)
            &&& line[line.len() - 2] == target
            &&& line.last() == command
        }),
{
}

/// A copy over scp names the remote path behind its host and ends with the destination.
pub proof fn law_scp_command_lines(
    port: Option<u16>,
    target: Seq<char>,
    quoted_path: Seq<char>,
    destination: Seq<char>,
)
    ensures
        ({
            let line = scp_command_line(port, target, quoted_path, destination);
            &&& line.len() == if port is Some {
                4
            } else {
                2int
            }
            &&& port matches Some(number) ==> line[0] == "-P"@ && line[1] == decimal_text(
                number as nat,
            )
            &&& line[line.len() - 2] == target.push(':') + quoted_path
            &&& line.last() == destination
        }),
{
    reveal_strlit(":");
    assert(target + ":"@ + quoted_path =~= target.push(':') + quoted_path);
}

/// A captured command succeeds exactly when it was read to its end within the limit and
/// exited with success; every failure is reported with what it wrote to its error output.
pub proof fn law_captures_that_succeed(end: CaptureEnd, uri: Seq<char>, stderr: Seq<char>)
    ensures
        capture_fault(end, uri, stderr) is None <==> (end matches CaptureEnd::Exited {
            success,
            ..
        } && success),
        copy_fault(end, uri, stderr) is Some <==> end is WaitFailed || (
        end matches CaptureEnd::Exited { success, .. } && !success),
        capture_fault(end, uri, stderr) matches Some(message) ==> message.len() >= trimmed(
            stderr,
        ).len() && message.skip(message.len() - trimmed(stderr).len()) == trimmed(stderr),
{
    if let Some(message) = capture_fault(end, uri, stderr) {
        assert(message.skip(message.len() - trimmed(stderr).len()) =~= trimmed(stderr));
    }
}

/// The filter of a frame names its index, and the size where one is asked for.
pub proof fn law_frame_filters(frame_index: nat, size: Dimensions)
    ensures
        frame_filters(frame_index, None) == "select=eq(n\\,"@ + decimal_text(frame_index)
            + seq![')'],
        frame_filters(frame_index, Some(size)) == frame_filters(frame_index, None) + ",scale="@
            + decimal_text(size.width as nat) + seq![':'] + decimal_text(size.height as nat),
{
    reveal_strlit(")");
    reveal_strlit(":");
    assert(")"@ =~= seq![')']);
    assert(":"@ =~= seq![':']);
}

} // verus!
