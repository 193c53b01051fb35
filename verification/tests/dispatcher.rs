use zenoh_plugin_template::dispatch::{Dispatch, Dispatcher, PoolSize};

fn size(work: usize, block: usize) -> PoolSize {
    PoolSize { work_thread_num: work, max_block_thread_num: block }
}

#[test]
fn fresh_dispatcher_holds_the_defaults() {
    let shared = Dispatcher::new();
    assert_eq!(shared.recorded(), size(2, 50));
    assert_eq!(shared.fallback(), None);
}

#[test]
fn record_replaces_the_counts() {
    let mut shared = Dispatcher::new();
    shared.record(size(3, 4));
    assert_eq!(shared.recorded(), size(3, 4));
    assert_eq!(shared.fallback(), None);
    shared.record(size(0, 0));
    assert_eq!(shared.recorded(), size(0, 0));
}

#[test]
fn ambient_dispatch_never_builds_the_fallback() {
    let mut shared = Dispatcher::new();
    assert_eq!(shared.dispatch(true), Dispatch::Ambient);
    assert_eq!(shared.dispatch(true), Dispatch::Ambient);
    assert_eq!(shared.fallback(), None);
    assert_eq!(shared.recorded(), size(2, 50));
}

#[test]
fn fallback_is_built_once_from_the_defaults() {
    let mut shared = Dispatcher::new();
    assert_eq!(shared.dispatch(false), Dispatch::Fallback { size: size(2, 50), build: true });
    assert_eq!(shared.dispatch(false), Dispatch::Fallback { size: size(2, 50), build: false });
    assert_eq!(shared.fallback(), Some(size(2, 50)));
}

#[test]
fn last_record_before_first_use_wins() {
    let mut shared = Dispatcher::new();
    shared.record(size(4, 16));
    assert_eq!(shared.dispatch(true), Dispatch::Ambient);
    shared.record(size(8, 32));
    assert_eq!(shared.dispatch(false), Dispatch::Fallback { size: size(8, 32), build: true });
    assert_eq!(shared.fallback(), Some(size(8, 32)));
}

#[test]
fn records_after_first_use_do_not_resize_the_fallback() {
    let mut shared = Dispatcher::new();
    shared.record(size(4, 16));
    assert_eq!(shared.dispatch(false), Dispatch::Fallback { size: size(4, 16), build: true });
    shared.record(size(8, 32));
    assert_eq!(shared.recorded(), size(8, 32));
    assert_eq!(shared.fallback(), Some(size(4, 16)));
    assert_eq!(shared.dispatch(false), Dispatch::Fallback { size: size(4, 16), build: false });
    assert_eq!(shared.dispatch(true), Dispatch::Ambient);
    shared.record(size(1, 1));
    assert_eq!(shared.dispatch(false), Dispatch::Fallback { size: size(4, 16), build: false });
    assert_eq!(shared.fallback(), Some(size(4, 16)));
}

#[test]
fn fallback_is_built_at_most_once_over_many_events() {
    let mut shared = Dispatcher::new();
    let mut builds = 0;
    for i in 0..40usize {
        shared.record(size(i, i + 1));
        if let Dispatch::Fallback { build: true, .. } = shared.dispatch(i % 3 != 0) {
            builds += 1;
        }
        if let Dispatch::Fallback { build: true, .. } = shared.dispatch(false) {
            builds += 1;
        }
    }
    assert_eq!(builds, 1);
    assert_eq!(shared.fallback(), Some(size(0, 1)));
}
