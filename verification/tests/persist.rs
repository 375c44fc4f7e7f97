//! End-to-end behaviour of the hot-reload persistence mechanism: the store,
//! the signal, the counter codec, and whole reload cycles driven through the
//! reference run loop.

use bevy_persist::codec::{decode_counter, encode_counter};
use bevy_persist::harness::{
    begin_load_iteration, module_file_name, PersistApp, PersistError, ResourceWrite, TickInput,
};
use bevy_persist::signal::ReloadSignal;
use bevy_persist::store::ResourceStore;

fn tick(writes: Vec<ResourceWrite>, events: u32) -> TickInput {
    TickInput { writes, events }
}

fn write(id: &str, blob: Vec<u8>) -> ResourceWrite {
    ResourceWrite { id: id.to_owned(), blob }
}

#[test]
fn store_put_get_roundtrip() {
    let mut st = ResourceStore::new();
    st.put("score".to_owned(), vec![1, 2, 3]);
    assert_eq!(st.get(&"score".to_owned()), Some(&vec![1, 2, 3]));
}

#[test]
fn store_overwrite_last_write_wins() {
    let mut st = ResourceStore::new();
    st.put("score".to_owned(), vec![1]);
    st.put("score".to_owned(), vec![2]);
    st.put("other".to_owned(), vec![9]);
    assert_eq!(st.get(&"score".to_owned()), Some(&vec![2]));
    assert_eq!(st.get(&"other".to_owned()), Some(&vec![9]));
}

#[test]
fn store_get_missing_is_none() {
    let st = ResourceStore::new();
    assert_eq!(st.get(&"absent".to_owned()), None);
    assert!(!st.contains(&"absent".to_owned()));
}

#[test]
fn signal_event_while_pending_is_not_lost() {
    let mut sig = ReloadSignal::new();
    assert!(!sig.is_pending());
    sig.notify_change();
    assert!(sig.is_pending());
    // an event arriving while the flag is already set leaves it set
    sig.notify_change();
    assert!(sig.is_pending());
    // polling does not consume the flag
    assert!(sig.is_pending());
    assert!(sig.is_pending());
}

#[test]
fn signal_cleared_only_for_load() {
    let mut sig = ReloadSignal::new();
    sig.notify_change();
    sig.clear_for_load();
    assert!(!sig.is_pending());
}

#[test]
fn codec_exact_bytes() {
    assert_eq!(encode_counter(5), vec![5, 0, 0, 0, 0, 0, 0, 0]);
    assert_eq!(encode_counter(0x0102030405060708), vec![8, 7, 6, 5, 4, 3, 2, 1]);
}

#[test]
fn codec_roundtrip() {
    for v in [0u64, 1, 5, 255, 256, u64::MAX] {
        assert_eq!(decode_counter(&encode_counter(v)), Some(v));
    }
    assert_eq!(decode_counter(&vec![1, 2, 3]), None);
    assert_eq!(decode_counter(&Vec::new()), None);
}

#[test]
fn codec_matches_bincode() {
    assert_eq!(encode_counter(77), bincode::serialize(&77u64).unwrap());
    let blob = bincode::serialize(&123456789u64).unwrap();
    assert_eq!(decode_counter(&blob), Some(123456789));
    let ours = encode_counter(987654321);
    assert_eq!(bincode::deserialize::<u64>(&ours).unwrap(), 987654321);
}

#[test]
fn scenario_counter_survives_reload() {
    let mut st = ResourceStore::new();
    let mut sig = ReloadSignal::new();

    // first load: Score starts at its default, systems count it up to 5,
    // then a rebuild of the module artifact fires a change event
    let mut app = begin_load_iteration(&mut sig);
    assert_eq!(app.add_serde_preserve_resource(&st, "score".to_owned(), 0), Ok(0));
    let script = vec![
        tick(vec![write("score", encode_counter(1))], 0),
        tick(vec![write("score", encode_counter(2))], 0),
        tick(vec![write("score", encode_counter(3))], 0),
        tick(vec![write("score", encode_counter(4))], 0),
        tick(vec![write("score", encode_counter(5))], 1),
        tick(vec![], 0),
    ];
    let report = app.run(&mut st, &mut sig, &script);
    assert!(report.reloaded);
    assert_eq!(report.ticks_run, 5);
    assert_eq!(st.get(&"score".to_owned()), Some(&encode_counter(5)));

    // next load: the counter restores to 5, not to the default
    let mut app2 = begin_load_iteration(&mut sig);
    assert_eq!(app2.add_serde_preserve_resource(&st, "score".to_owned(), 0), Ok(5));
}

#[test]
fn scenario_default_on_first_run() {
    let st = ResourceStore::new();
    let mut app = PersistApp::new_app();
    assert_eq!(app.add_serde_preserve_resource(&st, "score".to_owned(), 0), Ok(0));
}

#[test]
fn scenario_rapid_events_cause_one_reload() {
    let mut st = ResourceStore::new();
    let mut sig = ReloadSignal::new();

    let mut app = begin_load_iteration(&mut sig);
    assert_eq!(app.add_serde_preserve_resource(&st, "score".to_owned(), 3), Ok(3));
    // two rapid filesystem events arrive while the module is mid-run
    let script = vec![tick(vec![], 2), tick(vec![], 0), tick(vec![], 0)];
    let report = app.run(&mut st, &mut sig, &script);
    assert!(report.reloaded);
    // exactly one capture+reload cycle: the run exits at the first probe that
    // sees the flag, not once per event
    assert_eq!(report.ticks_run, 1);

    // the module is loaded exactly once more as a direct result: the next
    // load consumes the coalesced flag, and without further events the run
    // after it does not reload again
    let mut app2 = begin_load_iteration(&mut sig);
    assert!(!sig.is_pending());
    assert_eq!(app2.add_serde_preserve_resource(&st, "score".to_owned(), 0), Ok(3));
    let script2 = vec![tick(vec![], 0), tick(vec![], 0)];
    let report2 = app2.run(&mut st, &mut sig, &script2);
    assert!(!report2.reloaded);
    assert_eq!(report2.ticks_run, 2);
}

#[test]
fn scenario_corrupt_blob_is_fatal_not_default() {
    let mut st = ResourceStore::new();
    st.put("score".to_owned(), vec![1, 2, 3]);
    let mut app = PersistApp::new_app();
    // the registration reports the corrupt blob instead of silently falling
    // back to the default value; the caller treats this as fatal
    assert_eq!(
        app.add_serde_preserve_resource(&st, "score".to_owned(), 42),
        Err(PersistError::CorruptStoredValue)
    );
}

#[test]
fn duplicate_registration_fails_fast() {
    let st = ResourceStore::new();
    let mut app = PersistApp::new_app();
    assert_eq!(app.add_serde_preserve_resource(&st, "score".to_owned(), 1), Ok(1));
    assert_eq!(
        app.add_serde_preserve_resource(&st, "score".to_owned(), 2),
        Err(PersistError::DuplicateResource)
    );
    assert_eq!(
        app.add_direct_preserve_resource(&st, "score".to_owned(), vec![1]),
        Err(PersistError::DuplicateResource)
    );
}

#[test]
fn plain_resource_is_not_captured() {
    let mut st = ResourceStore::new();
    let mut sig = ReloadSignal::new();
    let mut app = begin_load_iteration(&mut sig);
    app.add_resource("ui_state".to_owned(), vec![1, 1, 1]);
    assert_eq!(app.add_serde_preserve_resource(&st, "score".to_owned(), 7), Ok(7));
    let report = app.run(&mut st, &mut sig, &vec![tick(vec![], 1), tick(vec![], 0)]);
    assert!(report.reloaded);
    assert_eq!(st.get(&"score".to_owned()), Some(&encode_counter(7)));
    assert_eq!(st.get(&"ui_state".to_owned()), None);
}

#[test]
fn direct_preserve_carries_representation_through() {
    let mut st = ResourceStore::new();
    let mut sig = ReloadSignal::new();

    let mut app = begin_load_iteration(&mut sig);
    assert_eq!(app.add_direct_preserve_resource(&st, "mesh".to_owned(), vec![9, 9]), Ok(()));
    let report = app.run(&mut st, &mut sig, &vec![tick(vec![], 1), tick(vec![], 0)]);
    assert!(report.reloaded);
    assert_eq!(st.get(&"mesh".to_owned()), Some(&vec![9, 9]));

    // the next run is seeded with the stored representation, not the default
    let mut app2 = begin_load_iteration(&mut sig);
    assert_eq!(app2.add_direct_preserve_resource(&st, "mesh".to_owned(), vec![0]), Ok(()));
    let report2 = app2.run(&mut st, &mut sig, &vec![tick(vec![], 1), tick(vec![], 0)]);
    assert!(report2.reloaded);
    assert_eq!(st.get(&"mesh".to_owned()), Some(&vec![9, 9]));
}

#[test]
fn detection_tick_writes_are_isolated() {
    let mut st = ResourceStore::new();
    let mut sig = ReloadSignal::new();
    let mut app = begin_load_iteration(&mut sig);
    assert_eq!(app.add_serde_preserve_resource(&st, "score".to_owned(), 0), Ok(0));
    // the event arrives during the first tick; the probe of the second tick
    // detects it, and the second tick's system write must not be observed
    let script = vec![
        tick(vec![write("score", encode_counter(1))], 1),
        tick(vec![write("score", encode_counter(99))], 0),
    ];
    let report = app.run(&mut st, &mut sig, &script);
    assert!(report.reloaded);
    assert_eq!(report.ticks_run, 1);
    assert_eq!(st.get(&"score".to_owned()), Some(&encode_counter(1)));

    let mut app2 = begin_load_iteration(&mut sig);
    assert_eq!(app2.add_serde_preserve_resource(&st, "score".to_owned(), 0), Ok(1));
}

#[test]
fn probe_without_pending_signal_does_nothing() {
    let mut st = ResourceStore::new();
    let sig = ReloadSignal::new();
    let mut app = PersistApp::new_app();
    assert_eq!(app.add_serde_preserve_resource(&st, "score".to_owned(), 7), Ok(7));
    let exit = app.probe_for_reload(&mut st, &sig);
    assert!(!exit);
    assert_eq!(st.get(&"score".to_owned()), None);
}

#[test]
fn probe_with_pending_signal_captures_and_exits() {
    let mut st = ResourceStore::new();
    let mut sig = ReloadSignal::new();
    sig.notify_change();
    let mut app = PersistApp::new_app();
    assert_eq!(app.add_serde_preserve_resource(&st, "score".to_owned(), 7), Ok(7));
    let exit = app.probe_for_reload(&mut st, &sig);
    assert!(exit);
    assert_eq!(st.get(&"score".to_owned()), Some(&encode_counter(7)));
    // the probe leaves the signal for the next load iteration to consume
    assert!(sig.is_pending());
}

#[test]
fn natural_exit_changes_nothing() {
    let mut st = ResourceStore::new();
    let mut sig = ReloadSignal::new();
    let mut app = begin_load_iteration(&mut sig);
    assert_eq!(app.add_serde_preserve_resource(&st, "score".to_owned(), 7), Ok(7));
    let script = vec![tick(vec![write("score", encode_counter(8))], 0)];
    let report = app.run(&mut st, &mut sig, &script);
    assert!(!report.reloaded);
    assert_eq!(report.ticks_run, 1);
    assert_eq!(st.get(&"score".to_owned()), None);
    assert!(!sig.is_pending());
}

#[test]
fn event_at_final_tick_survives_the_run() {
    let mut st = ResourceStore::new();
    let mut sig = ReloadSignal::new();
    let mut app = begin_load_iteration(&mut sig);
    // the event arrives during the last tick, so no probe of this run sees
    // it; the flag stays set for the next load iteration
    let script = vec![tick(vec![], 0), tick(vec![], 1)];
    let report = app.run(&mut st, &mut sig, &script);
    assert!(!report.reloaded);
    assert!(sig.is_pending());
}

#[test]
fn module_file_name_follows_platform_convention() {
    assert_eq!(module_file_name("lib", "game", ".so"), "libgame.so");
    assert_eq!(module_file_name("", "game", ".dll"), "game.dll");
}
