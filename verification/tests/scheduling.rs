use streamq::maturity::{delay_poll, mature_action, timer_poll, MatureAction};
use streamq::store::Log;
use streamq::trigger::trigger_poll;

fn one_field(name: &str, value: &str) -> Vec<(String, String)> {
    vec![(name.to_string(), value.to_string())]
}

#[test]
fn maturity_gating_decision() {
    // Poll interval 1000 ms, threshold 10000 ms, entry created at 0:
    // not acted on at 9000 ms, acted on by 11000 ms at the latest.
    assert_eq!(mature_action(b"0-0", 9_000, 10_000), MatureAction::Wait);
    assert_eq!(mature_action(b"0-0", 10_000, 10_000), MatureAction::Fire);
    assert_eq!(mature_action(b"0-0", 11_000, 10_000), MatureAction::Fire);
    // An entry from the future is not mature.
    assert_eq!(mature_action(b"5000-0", 4_000, 0), MatureAction::Wait);
    // An unparseable identifier is dropped, not retried.
    assert_eq!(mature_action(b"abc-0", 11_000, 10_000), MatureAction::Drop);
    assert_eq!(mature_action(b"", 11_000, 10_000), MatureAction::Drop);
}

#[test]
fn delay_queue_fires_once_after_threshold() {
    let mut log = Log::new();
    let id = log.append(one_field("name", "1"), 0);
    // Too early: nothing fires, the entry stays.
    let fired = delay_poll(&mut log, 9_000, 10_000);
    assert!(fired.is_empty());
    assert_eq!(log.entries.len(), 1);
    // Past the threshold: the entry fires and is deleted — one-shot.
    let fired = delay_poll(&mut log, 11_000, 10_000);
    assert_eq!(fired.len(), 1);
    assert_eq!(fired[0].id, id);
    assert!(log.entries.is_empty());
    // A later poll finds nothing left.
    let fired = delay_poll(&mut log, 30_000, 10_000);
    assert!(fired.is_empty());
}

#[test]
fn delay_queue_mixed_ages() {
    let mut log = Log::new();
    let old_id = log.append(one_field("name", "old"), 0);
    let young_id = log.append(one_field("name", "young"), 8_000);
    let fired = delay_poll(&mut log, 10_000, 10_000);
    assert_eq!(fired.len(), 1);
    assert_eq!(fired[0].id, old_id);
    assert_eq!(log.entries.len(), 1);
    assert_eq!(log.entries[0].id, young_id);
}

#[test]
fn timer_self_renewal() {
    // After a timer entry fires, an entry with identical fields and a
    // strictly greater identifier is in the log, and the old
    // identifier is gone.
    let mut log = Log::new();
    let old_id = log.append(one_field("name", "1"), 0);
    let fired = timer_poll(&mut log, 10_000, 10_000);
    assert_eq!(fired.len(), 1);
    assert_eq!(fired[0].id, old_id);
    assert_eq!(log.entries.len(), 1);
    let renewed = &log.entries[0];
    assert_eq!(renewed.fields, one_field("name", "1"));
    assert!(old_id.lt(&renewed.id));
    assert!(log.entries.iter().all(|e| e.id != old_id));
    // The cycle sustains itself: the renewed entry fires in its turn.
    let renewed_id = renewed.id;
    let fired = timer_poll(&mut log, 25_000, 10_000);
    assert_eq!(fired.len(), 1);
    assert_eq!(fired[0].id, renewed_id);
    assert_eq!(log.entries.len(), 1);
    assert_eq!(log.entries[0].fields, one_field("name", "1"));
    assert!(renewed_id.lt(&log.entries[0].id));
}

#[test]
fn timer_keeps_young_entries() {
    let mut log = Log::new();
    log.append(one_field("name", "old"), 0);
    let young_id = log.append(one_field("name", "young"), 9_500);
    let fired = timer_poll(&mut log, 10_000, 10_000);
    assert_eq!(fired.len(), 1);
    assert_eq!(log.entries.len(), 2);
    assert_eq!(log.entries[0].id, young_id);
    assert_eq!(log.entries[1].fields, one_field("name", "old"));
}

#[test]
fn minute_alignment() {
    // Entries are processed only at second 0, and the batch then holds
    // every entry present, including ones added seconds earlier.
    let mut log = Log::new();
    log.append(one_field("name", "1"), 1_000);
    log.append(one_field("name", "2"), 58_000);
    for second in 1..60 {
        assert!(trigger_poll(&log, second).is_none());
    }
    let batch = trigger_poll(&log, 0).unwrap();
    assert_eq!(batch.len(), 2);
    assert_eq!(batch[0].fields, one_field("name", "1"));
    assert_eq!(batch[1].fields, one_field("name", "2"));
    // The trigger queue neither deletes nor re-appends: the same batch
    // fires again a minute later.
    assert_eq!(log.entries.len(), 2);
    let batch = trigger_poll(&log, 0).unwrap();
    assert_eq!(batch.len(), 2);
}
