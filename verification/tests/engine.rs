use streamq::dispatch::{MailDispatch, RetryOutcome, StepOutcome};
use streamq::ids::{extract_create_ms, parse_entry_id, parse_u64_digits};
use streamq::codec::{decode_mail, encode_mail, get_field};
use streamq::store::Log;
use streamq::EntryId;

fn mail_fields(to: &str, subject: &str, link: &str) -> Vec<(String, String)> {
    encode_mail(to.to_string(), subject.to_string(), link.to_string())
}

#[test]
fn parse_digits_exact() {
    assert_eq!(parse_u64_digits(b"0"), Some(0));
    assert_eq!(parse_u64_digits(b"123"), Some(123));
    assert_eq!(parse_u64_digits(b"18446744073709551615"), Some(u64::MAX));
}

#[test]
fn parse_digits_rejects() {
    assert_eq!(parse_u64_digits(b""), None);
    assert_eq!(parse_u64_digits(b"12a"), None);
    assert_eq!(parse_u64_digits(b"-12"), None);
    // One past the largest value that fits in 64 bits.
    assert_eq!(parse_u64_digits(b"18446744073709551616"), None);
}

#[test]
fn extract_create_ms_reads_prefix() {
    assert_eq!(extract_create_ms(b"1652067609636-0"), Some(1652067609636));
    assert_eq!(extract_create_ms(b"7-12"), Some(7));
    // The part after the first dash does not matter for the timestamp.
    assert_eq!(extract_create_ms(b"42-xyz"), Some(42));
    assert_eq!(extract_create_ms(b"42"), Some(42));
}

#[test]
fn extract_create_ms_rejects_malformed() {
    assert_eq!(extract_create_ms(b""), None);
    assert_eq!(extract_create_ms(b"-5"), None);
    assert_eq!(extract_create_ms(b"abc-0"), None);
    assert_eq!(extract_create_ms(b"18446744073709551616-0"), None);
}

#[test]
fn parse_entry_id_round_trip() {
    let id = parse_entry_id(b"1652067609636-3").unwrap();
    assert_eq!(id.ms, 1652067609636);
    assert_eq!(id.seq, 3);
    assert_eq!(parse_entry_id(b"1652067609636"), None);
    assert_eq!(parse_entry_id(b"1652067609636-"), None);
    assert_eq!(parse_entry_id(b"165206-76-09"), None);
}

#[test]
fn id_ordering_two_appends() {
    // The second of two appends gets the strictly greater identifier,
    // whether the clock advances, stalls, or runs backwards.
    let mut log = Log::new();
    let a = log.append(mail_fields("a@x", "s", "l"), 100);
    let b = log.append(mail_fields("a@x", "s", "l"), 100);
    let c = log.append(mail_fields("a@x", "s", "l"), 50);
    let d = log.append(mail_fields("a@x", "s", "l"), 200);
    assert!(a.lt(&b));
    assert!(b.lt(&c));
    assert!(c.lt(&d));
    assert_eq!(a, EntryId { ms: 100, seq: 0 });
    assert_eq!(b, EntryId { ms: 100, seq: 1 });
    assert_eq!(c, EntryId { ms: 100, seq: 2 });
    assert_eq!(d, EntryId { ms: 200, seq: 0 });
}

#[test]
fn codec_round_trip() {
    let fields = mail_fields("reader@example.com", "Happy new year", "http://example.com");
    let job = decode_mail(&fields).unwrap();
    assert_eq!(job.to, "reader@example.com");
    assert_eq!(job.subject, "Happy new year");
    assert_eq!(job.link, "http://example.com");
}

#[test]
fn codec_first_occurrence_wins() {
    let mut fields = mail_fields("first@x", "s", "l");
    fields.push(("to".to_string(), "second@x".to_string()));
    assert_eq!(get_field(&fields, &"to".to_string()), Some("first@x".to_string()));
    assert_eq!(get_field(&fields, &"absent".to_string()), None);
}

#[test]
fn codec_missing_field_is_malformed() {
    let fields = vec![
        ("to".to_string(), "a@x".to_string()),
        ("link".to_string(), "http://x".to_string()),
    ];
    assert!(decode_mail(&fields).is_none());
}

#[test]
fn at_least_once_bounded_retry() {
    // The action fails twice, then succeeds: three attempts in all,
    // acknowledged on the third, nothing left pending or queued.
    let mut d = MailDispatch::new(32);
    let id = d.enqueue_mail(
        "reader@example.com".to_string(),
        "Happy new year".to_string(),
        "http://example.com".to_string(),
        1_000,
    );
    let o1 = d.consumer_step(1, false);
    assert_eq!(o1, StepOutcome::Delivered { id, acked: false });
    let o2 = d.retry_step(false);
    assert_eq!(o2, RetryOutcome::Delivered { id, acked: false });
    let o3 = d.retry_step(true);
    assert_eq!(o3, RetryOutcome::Delivered { id, acked: true });
    assert!(d.log.group.as_ref().unwrap().pel.is_empty());
    assert!(d.channel.is_empty());
    // Acknowledged, not deleted: the entry itself is still in the log.
    assert_eq!(d.log.entries.len(), 1);
}

#[test]
fn retry_cap_enforcement() {
    // The action always fails: after the third delivery the entry is
    // force-acknowledged and no further delivery happens.
    let mut d = MailDispatch::new(32);
    let id = d.enqueue_mail(
        "reader@example.com".to_string(),
        "Hello".to_string(),
        "http://example.com".to_string(),
        2_000,
    );
    assert_eq!(d.consumer_step(1, false), StepOutcome::Delivered { id, acked: false });
    assert_eq!(d.retry_step(false), RetryOutcome::Delivered { id, acked: false });
    assert_eq!(d.retry_step(false), RetryOutcome::Delivered { id, acked: false });
    assert_eq!(d.retry_step(false), RetryOutcome::Dropped { id, count: 3 });
    assert!(d.log.group.as_ref().unwrap().pel.is_empty());
    assert!(d.channel.is_empty());
    assert_eq!(d.retry_step(false), RetryOutcome::Idle);
}

#[test]
fn malformed_entry_non_retry() {
    // No subject field: deleted on first read, never retried.
    let mut d = MailDispatch::new(32);
    let fields = vec![
        ("to".to_string(), "a@x".to_string()),
        ("link".to_string(), "http://x".to_string()),
    ];
    let id = d.log.append(fields, 3_000);
    let o = d.consumer_step(1, true);
    assert_eq!(o, StepOutcome::MalformedDropped { id });
    assert!(d.log.entries.is_empty());
    assert!(d.log.group.as_ref().unwrap().pel.is_empty());
    assert!(d.channel.is_empty());
    assert_eq!(d.consumer_step(1, true), StepOutcome::Idle);
}

#[test]
fn stale_intent_is_ignored() {
    // The intent's entry was acknowledged by a concurrent path before
    // the coordinator got to it: the intent is dropped without effect.
    let mut d = MailDispatch::new(32);
    let id = d.enqueue_mail(
        "reader@example.com".to_string(),
        "Hello".to_string(),
        "http://example.com".to_string(),
        4_000,
    );
    assert_eq!(d.consumer_step(1, false), StepOutcome::Delivered { id, acked: false });
    assert!(d.log.ack(&id));
    assert_eq!(d.retry_step(true), RetryOutcome::Stale { id });
    assert!(d.channel.is_empty());
}

#[test]
fn consumer_group_only_sees_new_entries() {
    // The group starts at the end of the log: entries appended before
    // the group existed are not delivered.
    let mut log = Log::new();
    log.append(mail_fields("old@x", "s", "l"), 10);
    log.create_group_if_absent(false);
    assert!(log.read_new(1).is_none());
    let id = log.append(mail_fields("new@x", "s", "l"), 20);
    let e = log.read_new(1).unwrap();
    assert_eq!(e.id, id);
}

#[test]
fn pending_tracks_consumer_and_count() {
    let mut log = Log::new();
    log.create_group_if_absent(false);
    let id = log.append(mail_fields("a@x", "s", "l"), 10);
    log.read_new(7).unwrap();
    assert_eq!(log.pending_count(7, &id), Some(1));
    // A different consumer does not hold the entry.
    assert_eq!(log.pending_count(8, &id), None);
    // A different consumer cannot have it redelivered either.
    assert!(log.redeliver(8, &id).is_none());
    // Redelivery bumps the count through the same mechanism.
    let again = log.redeliver(7, &id).unwrap();
    assert_eq!(again.id, id);
    assert_eq!(log.pending_count(7, &id), Some(2));
    // Acknowledgement removes the row but keeps the entry.
    assert!(log.ack(&id));
    assert_eq!(log.pending_count(7, &id), None);
    assert_eq!(log.entries.len(), 1);
    // Acknowledging again reports nothing pending.
    assert!(!log.ack(&id));
}

#[test]
fn delete_removes_entry_and_pending_row() {
    let mut log = Log::new();
    log.create_group_if_absent(false);
    let id = log.append(mail_fields("a@x", "s", "l"), 10);
    log.read_new(1).unwrap();
    assert!(log.delete(&id));
    assert!(log.entries.is_empty());
    assert_eq!(log.pending_count(1, &id), None);
    assert!(!log.delete(&id));
}
