//! Commits come when they are due.

use seshat_index::config::{Config, Language, TokenizerMode};
use seshat_index::index::Index;
use seshat_index::query::Term;
use seshat_index::schema::Field;
use seshat_index::writer::{Writer, COMMIT_RATE, COMMIT_TIME, TANTIVY_WRITER_HEAP_SIZE};

fn writer() -> Writer {
    let config = Config {
        language: Language::Unknown,
        tokenizer_mode: TokenizerMode::LanguageBased,
    };
    Index::new(&config).unwrap().get_writer()
}

#[test]
fn a_new_writer_has_nothing_to_commit() {
    let writer = writer();
    assert_eq!(writer.events_pending_commit, 0);
    assert_eq!(writer.commit_rate, COMMIT_RATE);
    assert_eq!(writer.commit_time, COMMIT_TIME);
    assert!(!writer.commit(u128::MAX));
    assert!(!writer.force_commit());
}

#[test]
fn commits_wait_for_events_or_time() {
    assert_eq!(COMMIT_RATE, 500);
    assert_eq!(COMMIT_TIME, 5_000_000_000);
    assert_eq!(TANTIVY_WRITER_HEAP_SIZE, 50_000_000);

    let mut writer = writer();
    for _ in 0..499 {
        writer.event_added();
    }
    assert!(!writer.commit(4_999_999_999));
    assert!(writer.commit(5_000_000_000));
    assert!(writer.force_commit());

    writer.event_added();
    assert_eq!(writer.events_pending_commit, 500);
    assert!(writer.commit(0));

    writer.committed();
    assert_eq!(writer.events_pending_commit, 0);
    assert!(!writer.commit(u128::MAX));
}

#[test]
fn a_commit_that_is_due_stays_due() {
    let mut writer = writer();
    writer.set_commit_rate(1, 10);
    writer.event_added();
    assert!(writer.commit(0));
    writer.event_added();
    assert!(writer.commit(20));
}

#[test]
fn deletions_are_pending_too() {
    let mut writer = writer();
    assert_eq!(
        writer.delete_event("$id"),
        Term {
            field: Field::EventId,
            text: "$id".to_string(),
        }
    );
    assert_eq!(writer.events_pending_commit, 1);
    assert!(writer.force_commit());
}
