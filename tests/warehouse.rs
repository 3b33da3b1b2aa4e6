use duo::{AggregatedData, Log, Span, Tag, Trace, Warehouse};

fn log(process_id: &str, span_id: Option<u64>, message: &str) -> Log {
    Log::new(process_id.to_string(), span_id, 1_700_000_000_000_000, message.to_string())
}

fn trace(id: u64, span_name: &str) -> Trace {
    let span = Span {
        span_id: 1,
        name: span_name.to_string(),
        process_id: "checkout:0".to_string(),
        start: 10,
        duration: 5,
    };
    Trace::new(id, vec![span])
}

#[test]
fn register_process_numbers_per_service() {
    let mut w = Warehouse::new();
    let a = w.register_process("checkout".to_string(), vec![]);
    let b = w.register_process("checkout".to_string(), vec![]);
    assert_eq!(a.id, "checkout:0");
    assert_eq!(b.id, "checkout:1");
    assert_eq!(a.service_name, "checkout");
    assert_eq!(w.services().len(), 2);
}

#[test]
fn register_process_counts_each_service_apart() {
    let mut w = Warehouse::new();
    w.register_process("checkout".to_string(), vec![]);
    let other = w.register_process(
        "payments".to_string(),
        vec![Tag::new("host".to_string(), "a1".to_string())],
    );
    let third = w.register_process("checkout".to_string(), vec![]);
    assert_eq!(other.id, "payments:0");
    assert_eq!(other.tags.len(), 1);
    assert_eq!(other.tags[0].key, "host");
    assert_eq!(other.tags[0].value, "a1");
    assert_eq!(third.id, "checkout:1");
    assert_eq!(w.services()[2].id, "checkout:1");
}

#[test]
fn register_process_ids_past_nine() {
    let mut w = Warehouse::new();
    let mut last = String::new();
    for _ in 0..12 {
        last = w.register_process("svc".to_string(), vec![]).id;
    }
    assert_eq!(last, "svc:11");
}

#[test]
fn merge_data_scenario() {
    let mut w = Warehouse::new();
    let batch = AggregatedData::new(
        vec![trace(42, "GET /")],
        vec![log("checkout:0", Some(7), "a"), log("checkout:0", None, "b")],
    );
    w.merge_data(batch);
    assert_eq!(w.logs()[0].idx, 0);
    assert_eq!(w.logs()[1].idx, 1);
    assert_eq!(w.span_log_map().get(&7), Some(&vec![0usize]));
    assert_eq!(w.span_log_map().len(), 1);
    assert!(w.traces().contains_key(&42));
}

#[test]
fn merge_data_idx_continues_across_batches() {
    let mut w = Warehouse::new();
    w.merge_data(AggregatedData::new(vec![], vec![log("a:0", None, "x"), log("a:0", None, "y")]));
    w.merge_data(AggregatedData::new(vec![], vec![log("a:0", None, "z")]));
    let idxs: Vec<usize> = w.logs().iter().map(|l| l.idx).collect();
    assert_eq!(idxs, vec![0, 1, 2]);
    assert_eq!(w.logs()[2].message, "z");
}

#[test]
fn span_index_lists_each_log_once_in_order() {
    let mut w = Warehouse::new();
    w.merge_data(AggregatedData::new(
        vec![],
        vec![log("a:0", Some(3), "p"), log("a:0", Some(5), "q"), log("a:0", Some(3), "r")],
    ));
    w.merge_data(AggregatedData::new(vec![], vec![log("a:0", None, "s"), log("a:0", Some(3), "t")]));
    assert_eq!(w.span_log_map().get(&3), Some(&vec![0usize, 2, 4]));
    assert_eq!(w.span_log_map().get(&5), Some(&vec![1usize]));
    assert_eq!(w.span_log_map().get(&9), None);
}

#[test]
fn trace_overwritten_by_later_batch() {
    let mut w = Warehouse::new();
    w.merge_data(AggregatedData::new(vec![trace(42, "first"), trace(7, "other")], vec![]));
    w.merge_data(AggregatedData::new(vec![trace(42, "second")], vec![]));
    let t = w.find_trace(42).unwrap();
    assert_eq!(t.spans.len(), 1);
    assert_eq!(t.spans[0].name, "second");
    assert_eq!(w.find_trace(7).unwrap().spans[0].name, "other");
    assert!(w.find_trace(8).is_none());
    assert_eq!(w.traces().len(), 2);
}

#[test]
fn empty_batch_changes_nothing() {
    let mut w = Warehouse::new();
    w.merge_data(AggregatedData::new(vec![], vec![]));
    assert!(w.logs().is_empty());
    assert!(w.traces().is_empty());
    assert!(w.span_log_map().is_empty());
}

#[test]
fn logs_with_prefix_keeps_store_order() {
    let mut w = Warehouse::new();
    w.merge_data(AggregatedData::new(
        vec![],
        vec![
            log("checkout:0", None, "a"),
            log("payments:0", None, "b"),
            log("checkout:1", None, "c"),
            log("Checkout:2", None, "d"),
        ],
    ));
    let found = w.logs_with_prefix("checkout");
    let msgs: Vec<&str> = found.iter().map(|l| l.message.as_str()).collect();
    assert_eq!(msgs, vec!["a", "c"]);
    assert_eq!(found[1].idx, 2);
    assert_eq!(w.logs_with_prefix("").len(), 4);
    assert!(w.logs_with_prefix("none").is_empty());
}

#[test]
fn service_names_each_once_in_order() {
    let mut w = Warehouse::new();
    assert!(w.service_names().is_empty());
    w.register_process("checkout".to_string(), vec![]);
    w.register_process("payments".to_string(), vec![]);
    w.register_process("checkout".to_string(), vec![]);
    w.register_process("cart".to_string(), vec![]);
    assert_eq!(w.service_names(), vec!["checkout".to_string(), "payments".to_string(), "cart".to_string()]);
}

#[test]
fn lookup_trace_by_id_text() {
    let mut w = Warehouse::new();
    w.merge_data(AggregatedData::new(vec![trace(42, "GET /")], vec![]));
    assert!(matches!(w.lookup_trace("42"), duo::TraceLookup::Found(t) if t.id == 42));
    assert!(matches!(w.lookup_trace("+42"), duo::TraceLookup::Found(_)));
    assert!(matches!(w.lookup_trace("43"), duo::TraceLookup::NotFound));
    assert!(matches!(w.lookup_trace("abc"), duo::TraceLookup::InvalidId));
    assert!(matches!(w.lookup_trace(""), duo::TraceLookup::InvalidId));
    assert!(matches!(w.lookup_trace("-42"), duo::TraceLookup::InvalidId));
    assert!(matches!(w.lookup_trace("18446744073709551616"), duo::TraceLookup::InvalidId));
}

#[test]
fn prefix_filter_on_any_log_list() {
    let rows = vec![log("checkout:0", None, "a"), log("check", None, "b"), log("checkout:3", Some(2), "c")];
    let found = duo::warehouse::logs_matching_prefix(&rows, "checkout:");
    let msgs: Vec<&str> = found.iter().map(|l| l.message.as_str()).collect();
    assert_eq!(msgs, vec!["a", "c"]);
}
