use tg_snatch::files::catalog::FileEntry;
use tg_snatch::files::filter::FileType;
use tg_snatch::storage::db::Database;
use tg_snatch::telegram::poller::{announce_label, index_updates, stops_after_batch};
use tg_snatch::telegram::types::{Chat, Document, Message, Update};

fn doc_message(chat_id: i64, message_id: i64, uid: &str) -> Message {
    Message {
        message_id,
        chat: Chat { id: chat_id, title: None, chat_type: "channel".to_string() },
        date: 1700000000 + message_id,
        caption: None,
        document: Some(Document {
            file_id: format!("fid_{}", uid),
            file_unique_id: uid.to_string(),
            file_name: Some(format!("{}.pdf", uid)),
            mime_type: Some("application/pdf".to_string()),
            file_size: Some(10),
        }),
        photo: None,
        video: None,
        audio: None,
        voice: None,
        animation: None,
    }
}

fn batch() -> Vec<Update> {
    vec![
        Update { update_id: 10, message: Some(doc_message(-5, 1, "a")), channel_post: None },
        Update { update_id: 11, message: None, channel_post: Some(doc_message(-5, 2, "b")) },
        Update { update_id: 12, message: Some(doc_message(-9, 3, "c")), channel_post: None },
        Update { update_id: 13, message: None, channel_post: None },
    ]
}

#[test]
fn index_updates_keeps_the_watched_chat_and_moves_the_offset() {
    let mut db = Database::open_in_memory().unwrap();
    let step = index_updates(&mut db, &batch(), -5, None).unwrap();
    assert_eq!(step.offset, Some(14));
    let ids: Vec<String> = step.indexed.iter().map(|e| e.file_unique_id.clone()).collect();
    assert_eq!(ids, vec!["a", "b"]);
    assert_eq!(db.get_offset().unwrap(), Some(14));
    assert_eq!(db.query_files(None, None, 100, false).unwrap().len(), 2);
}

#[test]
fn reindexing_the_same_batch_adds_nothing() {
    let mut db = Database::open_in_memory().unwrap();
    index_updates(&mut db, &batch(), -5, None).unwrap();
    let again = index_updates(&mut db, &batch(), -5, Some(14)).unwrap();
    assert!(again.indexed.is_empty());
    assert_eq!(again.offset, Some(14));
    assert_eq!(db.query_files(None, None, 100, false).unwrap().len(), 2);
}

#[test]
fn empty_batch_keeps_the_offset() {
    let mut db = Database::open_in_memory().unwrap();
    let step = index_updates(&mut db, &vec![], -5, Some(3)).unwrap();
    assert_eq!(step.offset, Some(3));
    assert!(step.indexed.is_empty());
    // The offset the poll started from is saved again.
    assert_eq!(db.get_offset().unwrap(), Some(3));
    let mut fresh = Database::open_in_memory().unwrap();
    let step = index_updates(&mut fresh, &vec![], -5, None).unwrap();
    assert_eq!(step.offset, None);
    assert_eq!(fresh.get_offset().unwrap(), None);
}

#[test]
fn announce_label_prefers_the_file_name() {
    let mut e = FileEntry {
        file_id: "f".to_string(),
        file_unique_id: "u".to_string(),
        file_type: FileType::Voice,
        file_name: Some("memo.ogg".to_string()),
        file_size: None,
        mime_type: None,
        chat_id: 1,
        message_id: 1,
        date: 0,
        caption: None,
        downloaded: false,
    };
    assert_eq!(announce_label(&e), "memo.ogg");
    e.file_name = None;
    assert_eq!(announce_label(&e), "voice");
}

#[test]
fn one_shot_watch_stops_after_a_batch() {
    assert!(stops_after_batch(false, true, None));
    assert!(!stops_after_batch(true, true, None));
    assert!(!stops_after_batch(false, false, None));
    assert!(!stops_after_batch(false, true, Some(60)));
}
