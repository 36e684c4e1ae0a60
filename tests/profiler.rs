use miniremotery::remotery::{LifecycleError, LifecycleState, Remotery};
use miniremotery::sample::{rmtSampleFlags, Sample, SampleBuffer, AGGREGATE_BIT, RECURSIVE_BIT};
use miniremotery::thread::ThreadContext;

fn names(buf: &SampleBuffer) -> Vec<u64> {
    buf.records().iter().map(|r| r.name).collect()
}

#[test]
fn preorder_follows_call_order() {
    let mut b = SampleBuffer::new();
    b.begin(1, 0, 10);
    b.begin(2, 0, 11);
    b.end(15);
    b.begin(3, 0, 16);
    b.begin(4, 0, 17);
    b.end(18);
    b.end(20);
    b.end(30);
    b.begin(5, 0, 31);
    b.end(35);
    assert_eq!(names(&b), vec![1, 2, 3, 4, 5]);
    let depths: Vec<u64> = b.records().iter().map(|r| r.depth).collect();
    assert_eq!(depths, vec![0, 1, 1, 2, 0]);
    for r in b.records() {
        assert!(r.end >= r.start);
        assert_eq!(r.duration, r.end - r.start);
    }
    assert_eq!(b.records()[0].duration, 20);
    assert_eq!(b.records()[3].duration, 1);
    assert_eq!(b.open_count(), 0);
}

#[test]
fn aggregate_merges_same_named_sibling() {
    let mut b = SampleBuffer::new();
    b.begin(1, 0, 0);
    b.begin(7, AGGREGATE_BIT, 10);
    b.end(13);
    b.begin(7, AGGREGATE_BIT, 20);
    b.end(25);
    b.end(40);
    assert_eq!(b.records().len(), 2);
    let x = b.records()[1];
    assert_eq!(x.name, 7);
    assert_eq!(x.duration, 3 + 5);
    assert_eq!(x.call_count, 2);
}

#[test]
fn aggregate_reopened_child_keeps_preorder() {
    let mut b = SampleBuffer::new();
    b.begin(1, 0, 0);
    b.begin(2, AGGREGATE_BIT, 1);
    b.end(2);
    b.begin(3, 0, 3);
    b.end(4);
    b.begin(2, AGGREGATE_BIT, 5);
    b.begin(9, 0, 6);
    b.end(7);
    b.end(8);
    b.end(9);
    assert_eq!(names(&b), vec![1, 2, 9, 3]);
    let depths: Vec<u64> = b.records().iter().map(|r| r.depth).collect();
    assert_eq!(depths, vec![0, 1, 2, 1]);
}

#[test]
fn recursive_collapses_into_parent() {
    let mut b = SampleBuffer::new();
    b.begin(4, RECURSIVE_BIT, 0);
    b.begin(4, RECURSIVE_BIT, 5);
    assert_eq!(b.records().len(), 1);
    assert_eq!(b.open_count(), 2);
    b.end(8);
    assert_eq!(b.records().len(), 1);
    b.end(12);
    assert_eq!(b.records().len(), 1);
    assert_eq!(b.records()[0].duration, 12);
    assert_eq!(b.records()[0].call_count, 1);
    assert_eq!(b.open_count(), 0);
}

#[test]
fn recursive_with_other_name_nests() {
    let mut b = SampleBuffer::new();
    b.begin(4, RECURSIVE_BIT, 0);
    b.begin(5, RECURSIVE_BIT, 1);
    b.end(2);
    b.end(3);
    assert_eq!(names(&b), vec![4, 5]);
}

#[test]
fn unmatched_end_is_counted() {
    let mut b = SampleBuffer::new();
    b.end(5);
    b.end(6);
    assert_eq!(b.imbalance(), 2);
    assert_eq!(b.records().len(), 0);
}

#[test]
fn clock_going_back_keeps_end_after_start() {
    let mut b = SampleBuffer::new();
    b.begin(1, 0, 100);
    b.end(90);
    assert_eq!(b.records()[0].end, 100);
    assert_eq!(b.records()[0].duration, 0);
}

#[test]
fn take_tree_refuses_incomplete() {
    let mut b = SampleBuffer::new();
    b.begin(1, 0, 0);
    assert_eq!(
        b.take_tree(),
        Err(miniremotery::rmtError::RMT_ERROR_SEND_ON_INCOMPLETE_PROFILE)
    );
    b.end(3);
    let t = b.take_tree().unwrap();
    assert_eq!(t.len(), 1);
    assert_eq!(b.records().len(), 0);
}

#[test]
fn unnamed_samples_get_a_label() {
    let mut c = ThreadContext::new(3);
    let a = c.begin_sample(None, 0, 0);
    let b = c.begin_sample(Some(""), 0, 1);
    let d = c.begin_sample(Some("work"), 0, 2);
    assert_eq!(a, b);
    assert_ne!(a, d);
    assert_eq!(c.name_at(a).unwrap(), "<unnamed>");
    assert_eq!(c.name_at(d).unwrap(), "work");
    assert!(c.name_at(9).is_none());
}

#[test]
fn flush_drops_oldest_pending() {
    let mut c = ThreadContext::new(1);
    c.begin_sample(Some("a"), 0, 0);
    assert_eq!(
        c.flush(),
        Err(miniremotery::rmtError::RMT_ERROR_SEND_ON_INCOMPLETE_PROFILE)
    );
    c.end_sample(1);
    assert_eq!(c.flush(), Ok(true));
    assert_eq!(c.flush(), Ok(false));
    c.begin_sample(Some("b"), 0, 2);
    c.end_sample(4);
    assert_eq!(c.flush(), Ok(true));
    let p: Vec<Sample> = c.take_pending().unwrap();
    assert_eq!(p.len(), 1);
    assert_eq!(p[0].start, 2);
    assert!(c.take_pending().is_none());
}

#[test]
fn initialize_twice_fails() {
    let mut r = Remotery::new();
    assert_eq!(r.lifecycle(), LifecycleState::Uninitialized);
    assert_eq!(r.initialize(), Ok(()));
    assert_eq!(r.initialize(), Err(LifecycleError::AlreadyInitialized));
    r.shutdown();
    assert_eq!(r.lifecycle(), LifecycleState::Destroyed);
    r.shutdown();
    assert_eq!(r.lifecycle(), LifecycleState::Destroyed);
    assert_eq!(r.initialize(), Ok(()));
}

#[test]
fn samples_after_shutdown_are_ignored() {
    let mut r = Remotery::new();
    r.begin_cpu_sample(1, Some("early"), rmtSampleFlags::RMTSF_None, 0);
    assert!(!r.is_registered(1));
    r.initialize().unwrap();
    r.begin_cpu_sample(1, Some("x"), rmtSampleFlags::RMTSF_None, 1);
    r.shutdown();
    r.begin_cpu_sample(1, Some("late"), rmtSampleFlags::RMTSF_None, 2);
    r.end_cpu_sample(1, 3);
    assert!(!r.is_registered(1));
}

#[test]
fn threads_keep_separate_trees() {
    let mut r = Remotery::new();
    r.initialize().unwrap();
    for step in 0..4u64 {
        for t in 1..=4u64 {
            r.begin_cpu_sample(t, Some("outer"), rmtSampleFlags::RMTSF_None, step * 10 + t);
        }
        for t in 1..=4u64 {
            r.begin_cpu_sample(t, Some("inner"), rmtSampleFlags::RMTSF_Aggregate, step * 10 + t + 1);
            r.end_cpu_sample(t, step * 10 + t + 2);
        }
        for t in 1..=4u64 {
            r.end_cpu_sample(t, step * 10 + t + 5);
        }
    }
    let mut replay = ThreadContext::new(2);
    for step in 0..4u64 {
        replay.begin_sample(Some("outer"), 0, step * 10 + 2);
        replay.begin_sample(Some("inner"), AGGREGATE_BIT, step * 10 + 3);
        replay.end_sample(step * 10 + 4);
        replay.end_sample(step * 10 + 7);
    }
    let c = r.context(2).unwrap();
    assert_eq!(c.records(), replay.records());
    assert_eq!(c.records().len(), 8);
    for t in 1..=4u64 {
        assert_eq!(r.context(t).unwrap().records().len(), 8);
    }
}

#[test]
fn scope_closes_its_sample() {
    let mut r = Remotery::new();
    r.initialize().unwrap();
    r.set_current_thread_name(5, "worker");
    let s = r.scope(5, Some("task"), rmtSampleFlags::RMTSF_None, 10);
    s.close(&mut r, 14);
    let c = r.context(5).unwrap();
    assert_eq!(c.display_name(), "worker");
    assert_eq!(c.records()[0].duration, 4);
    assert_eq!(r.flush_thread(5), Ok(true));
    assert_eq!(r.take_pending(5).unwrap().len(), 1);
    r.unregister_thread(5);
    assert!(!r.is_registered(5));
}

#[test]
fn flag_bits() {
    assert_eq!(rmtSampleFlags::RMTSF_None.bits(), 0);
    assert_eq!(rmtSampleFlags::RMTSF_Aggregate.bits(), 1);
    assert_eq!(rmtSampleFlags::RMTSF_Recursive.bits(), 2);
}

#[test]
fn compact_drops_zero_duration_leaves() {
    let mut b = SampleBuffer::new();
    b.begin(1, 0, 0);
    b.begin(2, 0, 5);
    b.end(5);
    b.begin(3, 0, 6);
    b.begin(4, 0, 7);
    b.end(7);
    b.end(7);
    b.begin(5, 0, 8);
    b.end(9);
    b.end(10);
    let c = miniremotery::sample::compact(b.records());
    let kept: Vec<u64> = c.iter().map(|r| r.name).collect();
    assert_eq!(kept, vec![1, 3, 5]);
    assert!(miniremotery::sample::compact(&Vec::new()).is_empty());
}

#[test]
fn aggregated_node_spans_its_total() {
    let mut b = SampleBuffer::new();
    b.begin(1, 0, 0);
    b.begin(7, AGGREGATE_BIT, 10);
    b.end(13);
    b.begin(7, AGGREGATE_BIT, 20);
    b.end(25);
    b.end(40);
    let x = b.records()[1];
    assert_eq!(x.end, 25);
    assert_eq!(x.duration, 8);
    assert_eq!(x.start, 17);
    assert_eq!(x.duration, x.end - x.start);
}

#[test]
fn lifecycle_error_has_a_message() {
    assert_eq!(
        LifecycleError::AlreadyInitialized.message(),
        "The profiler is already initialized; shut it down first"
    );
}

#[test]
fn naming_and_ending_keep_other_state() {
    let mut r = Remotery::new();
    r.initialize().unwrap();
    r.set_current_thread_name(1, "one");
    r.set_current_thread_name(2, "two");
    r.begin_cpu_sample(1, Some("a"), rmtSampleFlags::RMTSF_None, 0);
    r.begin_cpu_sample(2, Some("b"), rmtSampleFlags::RMTSF_None, 0);
    r.end_cpu_sample(1, 4);
    r.set_current_thread_name(1, "uno");
    let c1 = r.context(1).unwrap();
    assert_eq!(c1.display_name(), "uno");
    assert_eq!(c1.name_at(0).unwrap(), "a");
    let c2 = r.context(2).unwrap();
    assert_eq!(c2.display_name(), "two");
    assert_eq!(c2.records().len(), 1);
    assert_eq!(c2.name_at(0).unwrap(), "b");
}
