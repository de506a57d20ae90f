use steit::error::Error;
use steit::log::LogEntry;
use steit::log::Logger;
use steit::runtime::Runtime;

#[test]
fn new_runtime_is_root_addressed() {
    let rt = Runtime::new();
    assert!(rt.is_root());
    assert!(!rt.is_child());
    assert_eq!(rt.path_tags(), Vec::<u16>::new());
}

#[test]
fn nested_extends_and_parent_restores_the_address() {
    let root = Runtime::new();
    let nested = root.nested(3);
    assert!(nested.is_child());
    assert_eq!(nested.path_tags(), vec![3]);
    let back = nested.parent().unwrap();
    assert_eq!(back.path_tags(), root.path_tags());
    assert!(back.is_root());

    let deep = root.nested(1).nested(2).nested(3);
    assert_eq!(deep.path_tags(), vec![1, 2, 3]);
    assert_eq!(deep.parent().unwrap().path_tags(), vec![1, 2]);
}

#[test]
fn parent_of_root_is_an_address_error() {
    let root = Runtime::new();
    let mut logger = Logger::new();
    let before = logger.len();
    assert_eq!(root.parent().unwrap_err(), Error::Address);
    // nothing shared was touched
    assert_eq!(logger.len(), before);
    assert!(root.is_root());
    assert_eq!(root.path_tags(), Vec::<u16>::new());
}

#[test]
fn runtimes_always_compare_equal() {
    let a = Runtime::new();
    let b = Runtime::new().nested(5).nested(9);
    assert!(a == b);
    assert!(b == a);
    assert!(a == a.clone());
    assert_eq!(a.nested(1), b);
}

#[test]
fn log_update_appends_one_addressed_record() {
    let root = Runtime::new();
    let nested = root.nested(3);
    let mut logger = Logger::new();
    assert!(logger.is_empty());

    nested.log_update(&mut logger, 7, &42u32).unwrap();

    assert_eq!(logger.len(), 1);
    match logger.record(0) {
        LogEntry::Update { path, value } => {
            assert_eq!(path, &vec![3, 7]);
            assert_eq!(value, &vec![0x2a]);
        },
        other => panic!("expected an update record, got {:?}", other),
    }
}

#[test]
fn log_remove_appends_one_record_with_no_payload() {
    let rt = Runtime::new().nested(1);
    let mut logger = Logger::new();

    rt.log_remove(&mut logger, 9).unwrap();

    assert_eq!(logger.len(), 1);
    match logger.record(0) {
        LogEntry::Remove { path } => {
            assert_eq!(path, &vec![1, 9]);
        },
        other => panic!("expected a remove record, got {:?}", other),
    }
}

#[test]
fn log_update_in_place_uses_the_own_address() {
    let rt = Runtime::new().nested(4);
    let mut logger = Logger::new();

    rt.log_update_in_place(&mut logger, &300u32).unwrap();

    match logger.record(0) {
        LogEntry::Update { path, value } => {
            assert_eq!(path, &vec![4]);
            assert_eq!(value, &vec![0xac, 0x02]);
        },
        other => panic!("expected an update record, got {:?}", other),
    }
}

#[test]
fn log_add_uses_the_own_address() {
    let rt = Runtime::new().nested(2);
    let mut logger = Logger::new();

    rt.log_add(&mut logger, &true).unwrap();

    match logger.record(0) {
        LogEntry::Add { path, value } => {
            assert_eq!(path, &vec![2]);
            assert_eq!(value, &vec![0x01]);
        },
        other => panic!("expected an add record, got {:?}", other),
    }
}

#[test]
fn records_keep_their_logging_order() {
    let root = Runtime::new();
    let mut logger = Logger::new();

    root.log_update(&mut logger, 1, &10u32).unwrap();
    root.nested(1).log_remove(&mut logger, 2).unwrap();
    root.log_add(&mut logger, &7u64).unwrap();

    assert_eq!(logger.len(), 3);
    assert!(matches!(logger.record(0), LogEntry::Update { .. }));
    assert!(matches!(logger.record(1), LogEntry::Remove { .. }));
    assert!(matches!(logger.record(2), LogEntry::Add { .. }));
    match logger.record(1) {
        LogEntry::Remove { path } => assert_eq!(path, &vec![1, 2]),
        other => panic!("expected a remove record, got {:?}", other),
    }
}

#[test]
fn sibling_addresses_log_into_one_stream() {
    let root = Runtime::new();
    let left = root.nested(1);
    let right = root.nested(2);
    let mut logger = Logger::new();

    left.log_update(&mut logger, 5, &1u32).unwrap();
    right.log_update(&mut logger, 6, &2u32).unwrap();

    assert_eq!(logger.len(), 2);
    match logger.record(0) {
        LogEntry::Update { path, .. } => assert_eq!(path, &vec![1, 5]),
        other => panic!("expected an update record, got {:?}", other),
    }
    match logger.record(1) {
        LogEntry::Update { path, .. } => assert_eq!(path, &vec![2, 6]),
        other => panic!("expected an update record, got {:?}", other),
    }
}

#[test]
fn fresh_loggers_are_empty() {
    let logger = Logger::new();
    assert!(logger.is_empty());
    assert_eq!(logger.len(), 0);
}

#[test]
fn entry_constructors_snapshot_the_address() {
    let rt = Runtime::new().nested(3).nested(7);
    let entry = LogEntry::new_update(&rt, &42u32);
    assert_eq!(
        entry,
        LogEntry::Update { path: vec![3, 7], value: vec![0x2a] }
    );
    let entry = LogEntry::new_add(&rt, &1u32);
    assert_eq!(entry, LogEntry::Add { path: vec![3, 7], value: vec![0x01] });
    let entry = LogEntry::new_remove(&rt);
    assert_eq!(entry, LogEntry::Remove { path: vec![3, 7] });
}
