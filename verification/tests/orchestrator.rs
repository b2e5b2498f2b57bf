use jbzip2::adapter::LineVerdict;
use jbzip2::envelope::EnvelopeConfig;
use jbzip2::envelope::Profile;
use jbzip2::error::StreamError;
use jbzip2::metrics::RunMetrics;
use jbzip2::orchestrator::Action;
use jbzip2::orchestrator::Orchestrator;
use jbzip2::orchestrator::Phase;

/// What a run over an in-memory stream came to.
struct Outcome {
    payloads: Vec<Vec<u8>>,
    output: Vec<u8>,
    metrics: RunMetrics,
    phase: Phase,
    failure: Option<StreamError>,
    cycles: u64,
}

/// Stands in for the transformer: one unit per record, the value of `id`
/// where the record has one and a failure where it has not.
fn select_id(payload: &[u8], wrapped: bool, separator: &[u8]) -> Vec<Option<Vec<u8>>> {
    let inner = if wrapped { &payload[1..payload.len() - 1] } else { payload };
    let text = String::from_utf8(inner.to_vec()).unwrap();
    let separator = String::from_utf8(separator.to_vec()).unwrap();
    let mut units = Vec::new();
    for record in text.split(separator.as_str()) {
        match record.strip_prefix("{\"id\":").and_then(|r| r.strip_suffix("}")) {
            Some(id) => units.push(Some(id.as_bytes().to_vec())),
            None => units.push(None),
        }
    }
    units
}

fn run(
    stream: &[u8],
    profile: Profile,
    buffer_size: usize,
    continue_on_error: bool,
    read_limit: usize,
) -> Outcome {
    let config = EnvelopeConfig::resolve(profile, None, None, None).unwrap();
    let separator = config.delimiter().to_vec();
    let wrap = profile.wraps_as_array();
    let mut run =
        Orchestrator::new(config, separator.clone(), buffer_size, wrap, continue_on_error).unwrap();
    let mut position: usize = 0;
    let mut payloads = Vec::new();
    let mut output = Vec::new();
    let mut action = run.first_action();
    loop {
        action = match action {
            Action::Read { max_bytes } => {
                assert!(max_bytes >= 1);
                let n = max_bytes.min(read_limit).min(stream.len() - position);
                let chunk = &stream[position..position + n];
                position += n;
                run.on_read(chunk)
            }
            Action::Transform { payload } => {
                let mut aborted = false;
                for unit in select_id(&payload, wrap, &separator) {
                    match run.on_line(unit.is_some()) {
                        LineVerdict::Forward => {
                            output.extend_from_slice(&unit.unwrap());
                            output.push(b'\n');
                        }
                        LineVerdict::Skip => {}
                        LineVerdict::Abort => {
                            aborted = true;
                            break;
                        }
                    }
                }
                payloads.push(payload);
                if aborted {
                    break;
                }
                run.on_transform_end(0)
            }
            Action::Finish | Action::Fail(_) => break,
        };
    }
    Outcome {
        payloads,
        output,
        metrics: run.metrics(),
        phase: run.phase(),
        failure: run.failure(),
        cycles: run.cycles(),
    }
}

const ARRAY_STREAM: &[u8] = b"[\n{\"id\":1},\n{\"id\":2}\n]";

const LINE_STREAM: &[u8] = b"{\"id\":1}\n{\"id\":2}\n";

#[test]
fn there_is_no_run_with_a_buffer_of_no_bytes() {
    let config = EnvelopeConfig::resolve(Profile::Jsonl, None, None, None).unwrap();
    assert!(Orchestrator::new(config, b"\n".to_vec(), 0, false, false).is_none());
}

#[test]
fn a_new_run_reads_the_prefix_first() {
    let config = EnvelopeConfig::resolve(Profile::Wikidump, None, None, None).unwrap();
    let run = Orchestrator::new(config, b",\n".to_vec(), 100, true, false).unwrap();
    assert_eq!(run.phase(), Phase::Reading);
    assert_eq!(run.read_size(), 2);
    assert!(matches!(run.first_action(), Action::Read { max_bytes: 2 }));
    assert_eq!(run.metrics(), RunMetrics::new());
    assert_eq!(run.failure(), None);
    assert_eq!(run.cycles(), 0);
}

#[test]
fn a_new_run_without_prefix_asks_for_a_full_buffer() {
    let config = EnvelopeConfig::resolve(Profile::Jsonl, None, None, None).unwrap();
    let run = Orchestrator::new(config, b"\n".to_vec(), 100, false, false).unwrap();
    assert!(matches!(run.first_action(), Action::Read { max_bytes: 100 }));
}

#[test]
fn scenario_array_wrapped() {
    let out = run(ARRAY_STREAM, Profile::Wikidump, 500000, false, usize::MAX);
    assert_eq!(out.output, b"1\n2\n".to_vec());
    assert_eq!(out.payloads, vec![b"[{\"id\":1},\n{\"id\":2}]".to_vec()]);
    assert_eq!(out.phase, Phase::Finished);
    assert_eq!(out.failure, None);
    assert_eq!(out.cycles, 1);
    assert_eq!(
        out.metrics,
        RunMetrics { total_bytes: 20, entities_total: 2, entities_filtered_out: 0, errors: 0 }
    );
}

#[test]
fn scenario_line_delimited() {
    let out = run(LINE_STREAM, Profile::Jsonl, 500000, false, usize::MAX);
    assert_eq!(out.output, b"1\n2\n".to_vec());
    assert_eq!(out.payloads, vec![b"{\"id\":1}\n{\"id\":2}".to_vec()]);
    assert_eq!(out.phase, Phase::Finished);
    assert_eq!(
        out.metrics,
        RunMetrics { total_bytes: 18, entities_total: 2, entities_filtered_out: 0, errors: 0 }
    );
}

#[test]
fn scenario_small_buffer_matches_the_single_buffer() {
    let mut stream = b"[\n".to_vec();
    let mut expected = Vec::new();
    let mut id: u32 = 1;
    while id <= 40 {
        if id > 1 {
            stream.extend_from_slice(b",\n");
        }
        stream.extend_from_slice(format!("{{\"id\":{}}}", id * 7).as_bytes());
        expected.extend_from_slice(format!("{}\n", id * 7).as_bytes());
        id += 1;
    }
    stream.extend_from_slice(b"\n]");
    let single = run(&stream, Profile::Wikidump, 500000, false, usize::MAX);
    assert_eq!(single.output, expected);
    assert_eq!(single.cycles, 1);
    assert_eq!(single.phase, Phase::Finished);
    // The longest record has 10 bytes; sizes at which a cycle's text ends
    // with the delimiter are left out, since trimming drops that delimiter.
    let sizes: [usize; 6] = [13, 17, 23, 29, 64, 100];
    for size in sizes {
        let small = run(&stream, Profile::Wikidump, size, false, usize::MAX);
        assert_eq!(small.phase, Phase::Finished, "buffer of {}", size);
        assert!(small.cycles > 1, "buffer of {}", size);
        assert_eq!(small.output, single.output, "buffer of {}", size);
        assert_eq!(small.metrics.entities_total, 40);
        assert_eq!(small.metrics.total_bytes, single.metrics.total_bytes);
        assert_eq!(rejoined(&small.payloads), rejoined(&single.payloads), "buffer of {}", size);
        for limit in [1usize, 3, 7] {
            let short = run(&stream, Profile::Wikidump, size, false, limit);
            assert_eq!(short.payloads, small.payloads, "buffer of {}, reads of {}", size, limit);
            assert_eq!(short.output, single.output);
        }
    }
}

/// The batches of a run without their brackets, a delimiter between each
/// two.
fn rejoined(payloads: &[Vec<u8>]) -> Vec<u8> {
    let mut text = Vec::new();
    for (k, payload) in payloads.iter().enumerate() {
        if k > 0 {
            text.extend_from_slice(b",\n");
        }
        text.extend_from_slice(&payload[1..payload.len() - 1]);
    }
    text
}

#[test]
fn short_reads_fill_the_buffer_before_it_is_split() {
    let whole = run(ARRAY_STREAM, Profile::Wikidump, 500000, false, usize::MAX);
    let mut limit: usize = 1;
    while limit <= 8 {
        let out = run(ARRAY_STREAM, Profile::Wikidump, 500000, false, limit);
        assert_eq!(out.output, whole.output);
        assert_eq!(out.payloads, whole.payloads);
        assert_eq!(out.cycles, 1);
        assert_eq!(out.metrics, whole.metrics);
        limit += 1;
    }
}

#[test]
fn scenario_continue_on_error() {
    let stream = b"[\n{\"id\":1},\n{\"name\":\"x\"},\n{\"id\":3}\n]";
    let out = run(stream, Profile::Wikidump, 500000, true, usize::MAX);
    assert_eq!(out.phase, Phase::Finished);
    assert_eq!(out.failure, None);
    assert_eq!(out.output, b"1\n3\n".to_vec());
    assert_eq!(out.metrics.errors, 1);
    assert_eq!(out.metrics.entities_total, 2);
}

#[test]
fn a_failure_ends_the_run_that_does_not_continue_on_errors() {
    let stream = b"[\n{\"id\":1},\n{\"name\":\"x\"},\n{\"id\":3}\n]";
    let out = run(stream, Profile::Wikidump, 500000, false, usize::MAX);
    assert_eq!(out.phase, Phase::Failed);
    assert_eq!(out.failure, Some(StreamError::TransformFailure));
    assert_eq!(out.output, b"1\n".to_vec());
    assert_eq!(out.metrics.errors, 0);
    assert_eq!(out.metrics.entities_total, 1);
}

#[test]
fn a_stream_without_its_suffix_is_malformed() {
    let out = run(b"[\n{\"id\":1},\n{\"id\":2}", Profile::Wikidump, 500000, false, usize::MAX);
    assert_eq!(out.phase, Phase::Failed);
    assert_eq!(out.failure, Some(StreamError::MalformedStream));
    assert_eq!(out.output, Vec::<u8>::new());
}

#[test]
fn an_empty_stream_is_malformed() {
    let out = run(b"", Profile::Wikidump, 500000, false, usize::MAX);
    assert_eq!(out.failure, Some(StreamError::MalformedStream));
    let out = run(b"", Profile::Jsonl, 500000, false, usize::MAX);
    assert_eq!(out.failure, Some(StreamError::MalformedStream));
    assert_eq!(out.cycles, 0);
}

#[test]
fn a_stream_that_ends_inside_its_prefix_is_malformed() {
    let out = run(b"[", Profile::Wikidump, 500000, false, usize::MAX);
    assert_eq!(out.failure, Some(StreamError::MalformedStream));
    assert_eq!(out.metrics.total_bytes, 0);
}

#[test]
fn a_record_larger_than_the_buffer_is_oversized() {
    let out = run(b"[\n{\"id\":123456789},\n{\"id\":2}\n]", Profile::Wikidump, 10, false, usize::MAX);
    assert_eq!(out.phase, Phase::Failed);
    assert_eq!(out.failure, Some(StreamError::OversizedEntity));
    assert_eq!(out.cycles, 1);
    assert_eq!(out.metrics.total_bytes, 10);
}

#[test]
fn a_read_that_is_not_text_is_an_encoding_error() {
    let config = EnvelopeConfig::resolve(Profile::Jsonl, None, None, None).unwrap();
    let mut run = Orchestrator::new(config, b"\n".to_vec(), 100, false, false).unwrap();
    let action = run.on_read(&[b'{', 0xff, b'}']);
    assert!(matches!(action, Action::Fail(StreamError::EncodingError)));
    assert_eq!(run.phase(), Phase::Failed);
    assert_eq!(run.failure(), Some(StreamError::EncodingError));
    assert_eq!(run.metrics().total_bytes, 0);
}

#[test]
fn a_failed_run_says_where_it_failed() {
    let config = EnvelopeConfig::resolve(Profile::Jsonl, None, Some(b"$".to_vec()), None).unwrap();
    let mut run = Orchestrator::new(config, b"\n".to_vec(), 4, false, false).unwrap();
    assert_eq!(run.diagnostic(), None);
    assert!(matches!(run.on_read(b"a\nbc"), Action::Transform { .. }));
    assert!(matches!(run.on_transform_end(0), Action::Read { max_bytes: 2 }));
    assert_eq!(run.diagnostic(), None);
    assert!(matches!(run.on_read(b"de"), Action::Fail(StreamError::OversizedEntity)));
    assert_eq!(
        run.diagnostic(),
        Some(
            "entity is larger than buffer, increase the buffer size (cycle 2, after 6 bytes)"
                .to_string()
        )
    );
}

#[test]
fn a_read_that_ends_inside_a_character_is_an_encoding_error() {
    let config = EnvelopeConfig::resolve(Profile::Jsonl, None, None, None).unwrap();
    let mut run = Orchestrator::new(config, b"\n".to_vec(), 100, false, false).unwrap();
    let text = "{\"id\":\"é\"}\n".as_bytes();
    let action = run.on_read(&text[..8]);
    assert!(matches!(action, Action::Fail(StreamError::EncodingError)));
}

#[test]
fn the_prefix_is_dropped_unseen() {
    let config = EnvelopeConfig::resolve(Profile::Wikidump, None, None, None).unwrap();
    let mut run = Orchestrator::new(config, b",\n".to_vec(), 100, true, false).unwrap();
    assert!(matches!(run.on_read(&[0xff]), Action::Read { max_bytes: 1 }));
    assert!(matches!(run.on_read(&[0xfe]), Action::Read { max_bytes: 100 }));
    assert_eq!(run.metrics().total_bytes, 0);
    assert!(matches!(run.on_read(b"{\"id\":1}\n]"), Action::Read { max_bytes: 90 }));
    assert_eq!(run.metrics().total_bytes, 10);
    match run.on_read(b"") {
        Action::Transform { payload } => assert_eq!(payload, b"[{\"id\":1}]".to_vec()),
        _ => panic!("the buffer should have been split"),
    }
    assert_eq!(run.phase(), Phase::Transforming);
    assert_eq!(run.on_line(true), LineVerdict::Forward);
    assert!(matches!(run.on_transform_end(0), Action::Finish));
    assert_eq!(run.phase(), Phase::Finished);
    assert_eq!(
        run.metrics(),
        RunMetrics { total_bytes: 10, entities_total: 1, entities_filtered_out: 0, errors: 0 }
    );
}

#[test]
fn a_full_buffer_is_split_and_its_tail_carried_over() {
    let config = EnvelopeConfig::resolve(Profile::Jsonl, None, Some(b"$".to_vec()), None).unwrap();
    let mut run = Orchestrator::new(config, b"\n".to_vec(), 8, false, false).unwrap();
    match run.on_read(b"ab\ncd\nef") {
        Action::Transform { payload } => assert_eq!(payload, b"ab\ncd".to_vec()),
        _ => panic!("the buffer should have been split"),
    }
    assert_eq!(run.cycles(), 1);
    assert!(matches!(run.on_transform_end(3), Action::Read { max_bytes: 6 }));
    assert_eq!(run.metrics().entities_filtered_out, 3);
    assert_eq!(run.phase(), Phase::Reading);
    match run.on_read(b"g\nh$") {
        Action::Read { max_bytes } => assert_eq!(max_bytes, 2),
        _ => panic!("the buffer is not full"),
    }
    match run.on_read(b"") {
        Action::Transform { payload } => assert_eq!(payload, b"efg\nh".to_vec()),
        _ => panic!("the buffer should have been split"),
    }
    assert!(matches!(run.on_transform_end(0), Action::Finish));
    assert_eq!(run.cycles(), 2);
    assert_eq!(run.metrics().total_bytes, 12);
}

#[test]
fn an_empty_ready_span_is_not_handed_to_the_transformer() {
    let config = EnvelopeConfig::resolve(Profile::Jsonl, None, Some(b"$".to_vec()), None).unwrap();
    let mut run = Orchestrator::new(config, b"\n".to_vec(), 3, false, false).unwrap();
    // A full buffer of three delimiters: one is trimmed off each end and the
    // text is cut behind the third, so nothing is ready and nothing carried.
    assert!(matches!(run.on_read(b"\n\n\n"), Action::Read { max_bytes: 3 }));
    assert_eq!(run.phase(), Phase::Reading);
    assert_eq!(run.cycles(), 1);
    // A full buffer that begins with a delimiter: after trimming, a pending
    // entity with room for one more byte.
    assert!(matches!(run.on_read(b"\nab"), Action::Read { max_bytes: 1 }));
    assert_eq!(run.cycles(), 2);
    // The suffix alone closes the stream.
    let config = EnvelopeConfig::resolve(Profile::Jsonl, None, Some(b"$".to_vec()), None).unwrap();
    let mut run = Orchestrator::new(config, b"\n".to_vec(), 4, false, false).unwrap();
    assert!(matches!(run.on_read(b"$"), Action::Read { max_bytes: 3 }));
    assert!(matches!(run.on_read(b""), Action::Finish));
    assert_eq!(run.phase(), Phase::Finished);
}

#[test]
fn counters_never_decrease() {
    let config = EnvelopeConfig::resolve(Profile::Jsonl, None, Some(b"$".to_vec()), None).unwrap();
    let mut run = Orchestrator::new(config, b"\n".to_vec(), 6, false, true).unwrap();
    let mut before = run.metrics();
    let steps: [&[u8]; 3] = [b"a\nb\nc\n", b"d\ne$", b""];
    for chunk in steps {
        let mut action = run.on_read(chunk);
        loop {
            let now = run.metrics();
            assert!(now.total_bytes >= before.total_bytes);
            assert!(now.entities_total >= before.entities_total);
            assert!(now.errors >= before.errors);
            assert!(now.entities_filtered_out >= before.entities_filtered_out);
            before = now;
            match action {
                Action::Transform { .. } => {
                    run.on_line(true);
                    run.on_line(false);
                    action = run.on_transform_end(1);
                }
                _ => break,
            }
        }
    }
    assert_eq!(run.phase(), Phase::Finished);
    assert_eq!(
        run.metrics(),
        RunMetrics { total_bytes: 10, entities_total: 2, entities_filtered_out: 2, errors: 2 }
    );
}

#[test]
fn a_stream_without_suffix_is_closed_by_its_first_split() {
    let out = run(LINE_STREAM, Profile::Jsonl, 12, false, usize::MAX);
    assert_eq!(out.cycles, 1);
    assert_eq!(out.payloads, vec![b"{\"id\":1}\n{\"i".to_vec()]);
    assert_eq!(out.metrics.total_bytes, 12);
}

#[test]
fn a_record_one_byte_below_the_buffer_size_runs_to_its_end() {
    // With a suffix of one byte the record and its suffix fill the buffer.
    let config =
        EnvelopeConfig::resolve(Profile::Jsonl, None, Some(b"$".to_vec()), None).unwrap();
    let mut run = Orchestrator::new(config, b"\n".to_vec(), 10, false, false).unwrap();
    match run.on_read(b"{\"id\":12}$") {
        Action::Transform { payload } => assert_eq!(payload, b"{\"id\":12}".to_vec()),
        _ => panic!("the record should have been handed on"),
    }
    assert_eq!(run.on_line(true), LineVerdict::Forward);
    assert!(matches!(run.on_transform_end(0), Action::Finish));
    assert_eq!(run.phase(), Phase::Finished);
    assert_eq!(run.failure(), None);
    // Without a suffix the buffer is not full, and the end of the source
    // closes the stream.
    let out = run_stream(b"{\"id\":12}", Profile::Jsonl, 10);
    assert_eq!(out.phase, Phase::Finished);
    assert_eq!(out.output, b"12\n".to_vec());
    assert_eq!(out.metrics.entities_total, 1);
}

#[test]
fn a_record_of_the_buffer_size_is_oversized() {
    let out = run_stream(b"{\"id\":123}", Profile::Jsonl, 10);
    assert_eq!(out.failure, Some(StreamError::OversizedEntity));
    let config =
        EnvelopeConfig::resolve(Profile::Jsonl, None, Some(b"$".to_vec()), None).unwrap();
    let mut run = Orchestrator::new(config, b"\n".to_vec(), 10, false, false).unwrap();
    assert!(matches!(run.on_read(b"{\"id\":123}"), Action::Fail(StreamError::OversizedEntity)));
}

fn run_stream(stream: &[u8], profile: Profile, buffer_size: usize) -> Outcome {
    run(stream, profile, buffer_size, false, usize::MAX)
}
