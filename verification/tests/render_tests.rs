use indev::actions::BindOptions;
use indev::render::parse;
use indev::render::parse_bytes;
use indev::render::sink_plan;
use indev::render::worker_run;
use indev::render::worker_step;
use indev::render::DecodeError;
use indev::render::SinkPlan;
use indev::render::WorkerExit;
use indev::render::WorkerStep;

fn key_press_record() -> [u8; 24] {
    [
        0xe8, 0x03, 0x00, 0x00, 0x00, 0x00, 0x00, 0x00, 0x00, 0x00, 0x00, 0x00, 0x01, 0x00, 0x00,
        0x00, 0x01, 0x00, 0x1e, 0x00, 0x00, 0x00, 0x00, 0x00,
    ]
}

#[test]
fn renders_raw_bytes_in_decimal() {
    let line = parse_bytes(&key_press_record(), b"TS");
    assert_eq!(
        String::from_utf8(line).unwrap(),
        "[TS] {[232, 3, 0, 0, 0, 0, 0, 0, 0, 0, 0, 0, 1, 0, 0, 0, 1, 0, 30, 0, 0, 0, 0, 0]}\r\n"
    );
}

#[test]
fn parse_obeys_the_raw_flag() {
    let raw = parse(&key_press_record(), true, b"T").unwrap();
    assert!(String::from_utf8(raw).unwrap().contains("[232, 3"));
    let decoded = parse(&key_press_record(), false, b"T").unwrap();
    assert!(String::from_utf8(decoded).unwrap().contains("EV_KEY"));
}

#[test]
fn a_short_read_stops_the_worker() {
    let step = worker_step(10, &key_press_record(), true, b"T");
    assert!(matches!(step, WorkerStep::Stop(WorkerExit::ShortRead)));
}

#[test]
fn a_full_read_emits_a_line() {
    let step = worker_step(24, &key_press_record(), true, b"T");
    match step {
        WorkerStep::Emit(line) => {
            assert!(String::from_utf8(line).unwrap().starts_with("[T] {"));
        }
        _ => panic!("expected a line"),
    }
}

#[test]
fn an_unknown_type_stops_a_decoding_worker() {
    let mut b = key_press_record();
    b[16] = 0x06;
    let step = worker_step(24, &b, false, b"T");
    assert!(matches!(
        step,
        WorkerStep::Stop(WorkerExit::BadRecord(DecodeError::UnknownType))
    ));
    // the same record is fine for a raw worker
    assert!(matches!(worker_step(24, &b, true, b"T"), WorkerStep::Emit(_)));
}

#[test]
fn a_truncated_stream_does_not_touch_a_sibling() {
    // Two independent streams: one ends mid-record, one holds two whole
    // records.  The truncated worker stops after its one whole record; the
    // sibling still emits both of its lines.
    let rec = key_press_record();
    let mut truncated: Vec<u8> = rec.to_vec();
    truncated.extend_from_slice(&rec[0..6]);
    let mut whole: Vec<u8> = rec.to_vec();
    whole.extend_from_slice(&rec);

    let (lines_a, exit_a) = worker_run(&truncated, true, b"A");
    let (lines_b, exit_b) = worker_run(&whole, true, b"B");
    assert_eq!(lines_a.len(), 1);
    assert_eq!(exit_a, WorkerExit::ShortRead);
    assert_eq!(lines_b.len(), 2);
    assert_eq!(exit_b, WorkerExit::ShortRead);
    assert!(String::from_utf8(lines_b[0].clone()).unwrap().starts_with("[B] {"));
}

#[test]
fn an_empty_stream_is_a_short_read() {
    let (lines, exit) = worker_run(b"", false, b"T");
    assert!(lines.is_empty());
    assert_eq!(exit, WorkerExit::ShortRead);
}

#[test]
fn a_bad_record_stops_the_decoding_replay() {
    let mut stream = key_press_record().to_vec();
    let mut bad = key_press_record();
    bad[16] = 0x06;
    stream.extend_from_slice(&bad);
    stream.extend_from_slice(&key_press_record());
    let (lines, exit) = worker_run(&stream, false, b"T");
    assert_eq!(lines.len(), 1);
    assert_eq!(exit, WorkerExit::BadRecord(DecodeError::UnknownType));
}

fn opts(stdout: bool, overwrite: bool, with_date: bool, path: Option<&[u8]>) -> BindOptions {
    BindOptions {
        raw: false,
        stdout,
        overwrite,
        with_date,
        path: path.map(|p| p.to_vec()),
    }
}

#[test]
fn terminal_output_needs_no_file() {
    assert!(matches!(
        sink_plan(&opts(true, false, false, None), b"today"),
        SinkPlan::Terminal
    ));
}

#[test]
fn an_overwriting_sink_truncates() {
    // {raw=false, file, overwrite}: the plan truncates the named log file.
    match sink_plan(&opts(false, true, false, Some(b"out.log")), b"") {
        SinkPlan::File { path, truncate } => {
            assert_eq!(path, b"logs/out.log".to_vec());
            assert!(truncate);
        }
        _ => panic!("expected a file sink"),
    }
}

#[test]
fn an_appending_sink_keeps_prior_content() {
    // {append instead of overwrite}: the plan opens the same file without
    // truncating it.
    match sink_plan(&opts(false, false, false, Some(b"out.log")), b"") {
        SinkPlan::File { path, truncate } => {
            assert_eq!(path, b"logs/out.log".to_vec());
            assert!(!truncate);
        }
        _ => panic!("expected a file sink"),
    }
}

#[test]
fn a_date_stamped_sink_always_appends() {
    match sink_plan(&opts(false, true, true, Some(b"out.log")), b"2024-05-06-") {
        SinkPlan::File { path, truncate } => {
            assert_eq!(path, b"logs/2024-05-06-out.log".to_vec());
            assert!(!truncate);
        }
        _ => panic!("expected a file sink"),
    }
}
