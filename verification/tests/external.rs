use imq::external::{
    float_tokens, output_tokens, parse_first_float, ExternalMetricCommand, ExternalMetricExit,
    ExternalMetricParser,
};
use imq::metrics::{Direction, Score};
use imq::Error;

fn score(value: f64) -> Score {
    Score::from_bits(value.to_bits())
}

fn values_of(text: &str) -> Vec<Option<Score>> {
    float_tokens(text)
        .iter()
        .map(|token| token.parse::<f64>().ok().map(score))
        .collect()
}

fn command() -> ExternalMetricCommand {
    ExternalMetricCommand::first_float(
        "tool".to_string(),
        vec!["--ref".into(), "{reference}".into(), "{distorted}".into()],
        "vmaf".to_string(),
        "unitless".to_string(),
        Direction::HigherIsBetter,
    )
}

fn exit(success: bool, stdout: &str) -> ExternalMetricExit {
    ExternalMetricExit {
        success,
        status: "exit status: 3".to_string(),
        status_code: Some(3),
        stdout: stdout.as_bytes().to_vec(),
        stderr: b"noise\xff".to_vec(),
    }
}

#[test]
fn extracts_first_float() {
    assert_eq!(
        parse_first_float(&values_of("score: 97.5\n")).unwrap(),
        score(97.5)
    );
}

#[test]
fn expands_placeholders() {
    let args = command().expanded_args("a.mp4", "b.mp4");
    assert_eq!(args, vec!["--ref", "a.mp4", "b.mp4"]);
}

#[test]
fn number_tokens_skip_what_is_no_number() {
    assert_eq!(float_tokens("e - +1.5e3,x-2;."), ["e", "+1.5e3", "-2"]);
    let error = parse_first_float(&values_of("nothing here")).unwrap_err();
    assert!(matches!(error, Error::UnsupportedInput(_)));
    assert!(parse_first_float(&vec![None, Some(score(f64::INFINITY))]).is_err());
}

#[test]
fn a_finished_run_carries_its_metric() {
    let command = command();
    let stdout = "vmaf 93.25\n";
    let run = command
        .finish(vec!["x".to_string()], exit(true, stdout), &values_of(stdout))
        .unwrap();
    let metric = run.metric.unwrap();
    assert_eq!(metric.score, score(93.25));
    assert_eq!(metric.name, "vmaf");
    assert_eq!(run.program, "tool");
    assert_eq!(run.status_code, Some(3));
    assert_eq!(run.stdout, stdout);
    assert_eq!(run.stderr, "noise\u{fffd}");
    assert_eq!(output_tokens(b"\xff1.5 x"), ["1.5"]);
    let error = command.finish(vec![], exit(false, stdout), &values_of(stdout));
    assert!(matches!(error, Err(Error::ProcessFailed { .. })));
    assert_eq!(
        error.unwrap_err().message(),
        "process `tool` failed with status exit status: 3: noise\u{fffd}"
    );
    let raw = ExternalMetricCommand {
        parser: ExternalMetricParser::RawOnly,
        ..command
    };
    assert!(raw.finish(vec![], exit(true, "none"), &vec![]).unwrap().metric.is_none());
}
