use flowgger::pipeline::{
    handle_line, start, transform_line, InputType, LineError, LineOutcome, Plan, StartupError,
    DEFAULT_QUEUE_SIZE,
};
use flowgger::rfc5424::DecodeError;
use flowgger::queue::BoundedQueue;

const SU_LINE: &str = "<34>1 2003-10-11T22:14:15.003Z mymachine.example.com su - ID47 - BOM'su root' failed for lonvick on /dev/pts/8";

#[test]
fn defaults_give_tls_and_large_queue() {
    assert_eq!(
        start(None, None, None),
        Ok(Plan { input_type: InputType::SyslogTls, queue_size: DEFAULT_QUEUE_SIZE })
    );
    assert_eq!(DEFAULT_QUEUE_SIZE, 10_000_000);
}

#[test]
fn configured_values_are_taken() {
    assert_eq!(
        start(Some("rfc5424"), Some(5), Some("syslog-tcp")),
        Ok(Plan { input_type: InputType::SyslogTcp, queue_size: 5 })
    );
    assert_eq!(
        start(None, Some(1), Some("syslog-tls")),
        Ok(Plan { input_type: InputType::SyslogTls, queue_size: 1 })
    );
}

#[test]
fn invalid_input_type_is_fatal() {
    assert_eq!(start(None, None, Some("syslog-udp")), Err(StartupError::InvalidInputType));
    assert_eq!(start(None, None, Some("")), Err(StartupError::InvalidInputType));
    assert_eq!(start(None, None, Some("syslog-tcpx")), Err(StartupError::InvalidInputType));
}

#[test]
fn invalid_format_and_size_are_fatal() {
    assert_eq!(start(Some("gelf"), None, None), Err(StartupError::InvalidInputFormat));
    assert_eq!(start(Some("rfc5424"), Some(0), None), Err(StartupError::InvalidQueueSize));
    assert_eq!(start(None, Some(-3), Some("syslog-tcp")), Err(StartupError::InvalidQueueSize));
    assert_eq!(start(Some("x"), Some(0), Some("bad")), Err(StartupError::InvalidInputFormat));
    assert_eq!(start(None, Some(0), Some("bad")), Err(StartupError::InvalidQueueSize));
}

#[test]
fn queue_is_fifo() {
    let mut q = BoundedQueue::new(3);
    assert!(q.is_empty());
    assert_eq!(q.try_push(vec![1]), Ok(()));
    assert_eq!(q.try_push(vec![2]), Ok(()));
    assert_eq!(q.try_pop(), Some(vec![1]));
    assert_eq!(q.try_push(vec![3]), Ok(()));
    assert_eq!(q.try_push(vec![4]), Ok(()));
    assert!(q.is_full());
    assert_eq!(q.try_push(vec![5]), Err(vec![5]));
    assert_eq!(q.len(), 3);
    assert_eq!(q.try_pop(), Some(vec![2]));
    assert_eq!(q.try_pop(), Some(vec![3]));
    assert_eq!(q.try_pop(), Some(vec![4]));
    assert_eq!(q.try_pop(), None);
}

#[test]
fn capacity_one_holds_back_second_push() {
    let mut q = BoundedQueue::new(1);
    assert_eq!(q.capacity(), 1);
    assert_eq!(q.try_push(vec![1]), Ok(()));
    assert_eq!(q.try_push(vec![2]), Err(vec![2]));
    assert_eq!(q.try_push(vec![3]), Err(vec![3]));
    assert_eq!(q.len(), 1);
    assert_eq!(q.try_pop(), Some(vec![1]));
    assert_eq!(q.try_push(vec![2]), Ok(()));
    assert_eq!(q.try_push(vec![3]), Err(vec![3]));
    assert_eq!(q.try_pop(), Some(vec![2]));
}

#[test]
fn malformed_line_pushes_nothing() {
    let mut q = BoundedQueue::new(4);
    assert!(matches!(handle_line(&mut q, "<34>1 - host app - - -"), LineOutcome::DecodeFailed(_)));
    assert!(matches!(
        handle_line(&mut q, "<34>1 2003-10-11T22:14:15Z host app - - [id a=\"b\""),
        LineOutcome::DecodeFailed(_)
    ));
    assert!(matches!(handle_line(&mut q, "<34>1 2003-10-11T22:14:15! host app - - -"), LineOutcome::DecodeFailed(_)));
    assert!(q.is_empty());
}

#[test]
fn good_line_is_queued_until_full() {
    let mut q = BoundedQueue::new(1);
    assert!(matches!(handle_line(&mut q, SU_LINE), LineOutcome::Queued));
    match handle_line(&mut q, SU_LINE) {
        LineOutcome::QueueFull(v) => assert!(std::str::from_utf8(&v).unwrap().starts_with("{\"version\":\"1.1\"")),
        _ => panic!("expected a full queue"),
    }
    let first = q.try_pop().unwrap();
    assert!(std::str::from_utf8(&first).unwrap().contains("\"_msgid\":\"ID47\""));
    assert!(q.is_empty());
}

#[test]
fn transform_line_reports_each_failure() {
    assert_eq!(transform_line("nope"), Err(LineError::Decode(DecodeError::BadPriority)));
    let id = transform_line("<34>1 2003-10-11T22:14:15Z host app - - [x id=\"1\"]").unwrap();
    assert!(std::str::from_utf8(&id).unwrap().ends_with("\"_sd_id\":\"1\"}"));
    assert_eq!(
        transform_line("<34>1 2003-19-39T29:69:69Z host app - - -"),
        Err(LineError::Decode(DecodeError::BadTimestamp))
    );
    let out = transform_line(SU_LINE).unwrap();
    assert!(std::str::from_utf8(&out).unwrap().ends_with("\"_msgid\":\"ID47\"}"));
}
