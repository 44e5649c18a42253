//! Indexing what a poll of the Bot API returns. Polling itself (the HTTP
//! request, the deadline, Ctrl+C) is the caller's loop; each batch of updates
//! goes through `index_updates`.
use vstd::prelude::*;

use crate::files::catalog::{EntryView, FileEntry};
use crate::files::filter::{classified, classify_message, entry_views};
use crate::storage::db::{as_new_row, has_id, Database, DbError, DbView};
use crate::telegram::types::{Message, Update};

verus! {

/// The message an update carries: the chat message, else the channel post.
pub open spec fn update_message(u: Update) -> Option<Message> {
    match u.message {
        Some(m) => Some(m),
        None => u.channel_post,
    }
}

/// The entries of the updates that concern chat `chat_id`, in order.
pub open spec fn incoming(updates: Seq<Update>, chat_id: i64) -> Seq<EntryView>
    decreases updates.len(),
{
    if updates.len() == 0 {
        Seq::empty()
    } else {
        incoming(updates.drop_last(), chat_id) + match update_message(updates.last()) {
            Some(m) => if m.chat.id == chat_id {
                classified(m)
            } else {
                Seq::empty()
            },
            None => Seq::empty(),
        }
    }
}

/// The rows after inserting `new` one by one, skipping ids already present.
pub open spec fn inserted_all(files: Seq<EntryView>, new: Seq<EntryView>) -> Seq<EntryView>
    decreases new.len(),
{
    if new.len() == 0 {
        files
    } else {
        let before = inserted_all(files, new.drop_last());
        if has_id(before, new.last().file_unique_id) {
            before
        } else {
            before.push(as_new_row(new.last()))
        }
    }
}

/// The offset to poll from next: one past the last update seen.
pub open spec fn next_offset(updates: Seq<Update>, offset: Option<i64>) -> Option<i64> {
    if updates.len() == 0 {
        offset
    } else {
        Some((updates.last().update_id + 1) as i64)
    }
}

/// What a batch of updates did to the index.
pub struct PollStep {
    /// The offset to poll from next (also saved in the index when there is one).
    pub offset: Option<i64>,
    /// The entries that were new to the index, in order.
    pub indexed: Vec<FileEntry>,
}

/// The label under which a newly indexed entry is announced: its file name,
/// else its kind.
pub fn announce_label(e: &FileEntry) -> (r: String)
    ensures
        r@ == match e@.file_name {
            Some(n) => n,
            None => crate::files::filter::kind_name(e.file_type),
        },
{
    match &e.file_name {
        Some(n) => n.clone(),
        None => String::from_str(e.file_type.as_str()),
    }
}

/// Indexes the files of `new` (in order, as `insert_file` does), returning
/// those that were added.
fn insert_entries(db: &mut Database, new: Vec<FileEntry>) -> (added: Vec<FileEntry>)
    ensures
        final(db)@.files == inserted_all(old(db)@.files, entry_views(new@)),
        final(db)@.offset == old(db)@.offset,
        entry_views(added@) == final(db)@.files.skip(old(db)@.files.len() as int),
        old(db)@.files.len() <= final(db)@.files.len(),
        final(db)@.files.take(old(db)@.files.len() as int) == old(db)@.files,
{
    let ghost start = db@.files;
    let mut added: Vec<FileEntry> = Vec::new();
    assert(entry_views(added@) =~= db@.files.skip(start.len() as int));
    assert(db@.files.take(start.len() as int) =~= start);
    assert(entry_views(new@).take(0) =~= Seq::<EntryView>::empty());
    let mut i: usize = 0;
    while i < new.len()
        invariant
            i <= new.len(),
            db@.files == inserted_all(start, entry_views(new@).take(i as int)),
            db@.offset == old(db)@.offset,
            entry_views(added@) == db@.files.skip(start.len() as int),
            start == old(db)@.files,
            start.len() <= db@.files.len(),
            db@.files.take(start.len() as int) == start,
        decreases new.len() - i,
    {
        let ghost before = db@.files;
        let r = db.insert_file(&new[i]);
        assert(entry_views(new@).take(i + 1).drop_last() =~= entry_views(new@).take(i as int));
        assert(entry_views(new@).take(i + 1).last() == new@[i as int]@);
        match r {
            Ok(true) => {
                let mut row = new[i].duplicate();
                row.downloaded = false;
                let ghost prev = entry_views(added@);
                added.push(row);
                assert(entry_views(added@) =~= prev.push(row@));
                assert(db@.files =~= before.push(row@));
                assert(db@.files.skip(start.len() as int) =~= before.skip(start.len() as int).push(row@));
                assert(db@.files.take(start.len() as int) =~= before.take(start.len() as int));
            },
            _ => {},
        }
        i = i + 1;
    }
    assert(entry_views(new@).take(new@.len() as int) =~= entry_views(new@));
    added
}

/// Indexes a batch of updates for chat `chat_id`: every update moves the
/// offset one past its id; the files of the messages (or channel posts) of
/// that chat are classified and inserted; the resulting offset is saved.
pub fn index_updates(db: &mut Database, updates: &Vec<Update>, chat_id: i64, offset: Option<
    i64,
>) -> (r: Result<PollStep, DbError>)
    requires
        forall|k: int| 0 <= k < updates@.len() ==> updates@[k].update_id < i64::MAX,
    ensures
        r matches Ok(step) && {
            &&& step.offset == next_offset(updates@, offset)
            &&& final(db)@.files == inserted_all(old(db)@.files, incoming(updates@, chat_id))
            &&& final(db)@.offset == match step.offset {
                Some(o) => Some(o),
                None => old(db)@.offset,
            }
            &&& entry_views(step.indexed@) == final(db)@.files.skip(old(db)@.files.len() as int)
        },
{
    let ghost start = db@.files;
    let mut next = offset;
    let mut indexed: Vec<FileEntry> = Vec::new();
    assert(entry_views(indexed@) =~= db@.files.skip(start.len() as int));
    assert(db@.files.take(start.len() as int) =~= start);
    assert(updates@.take(0) =~= Seq::<Update>::empty());
    let mut i: usize = 0;
    while i < updates.len()
        invariant
            i <= updates.len(),
            forall|k: int| 0 <= k < updates@.len() ==> updates@[k].update_id < i64::MAX,
            next == next_offset(updates@.take(i as int), offset),
            db@.files == inserted_all(start, incoming(updates@.take(i as int), chat_id)),
            db@.offset == old(db)@.offset,
            entry_views(indexed@) == db@.files.skip(start.len() as int),
            start == old(db)@.files,
            start.len() <= db@.files.len(),
            db@.files.take(start.len() as int) == start,
        decreases updates.len() - i,
    {
        let u = &updates[i];
        next = Some(u.update_id + 1);
        let msg: Option<&Message> = match &u.message {
            Some(m) => Some(m),
            None => match &u.channel_post {
                Some(m) => Some(m),
                None => None,
            },
        };
        let new: Vec<FileEntry> = match msg {
            Some(m) => if m.chat.id == chat_id {
                classify_message(m)
            } else {
                Vec::new()
            },
            None => Vec::new(),
        };
        assert(msg is None ==> new@.len() == 0);
        let ghost part = entry_views(new@);
        assert(part == match update_message(updates@[i as int]) {
            Some(m) => if m.chat.id == chat_id {
                classified(m)
            } else {
                Seq::<EntryView>::empty()
            },
            None => Seq::<EntryView>::empty(),
        }) by {
            if new@.len() == 0 {
                assert(entry_views(new@) =~= Seq::<EntryView>::empty());
            }
        }
        let ghost before = db@.files;
        let added = insert_entries(db, new);
        proof {
            lemma_inserted_all_concat(
                start,
                incoming(updates@.take(i as int), chat_id),
                part,
            );
            assert(updates@.take(i + 1).drop_last() =~= updates@.take(i as int));
        }
        let mut added = added;
        let ghost prev = entry_views(indexed@);
        indexed.append(&mut added);
        assert(entry_views(indexed@) =~= prev + db@.files.skip(before.len() as int));
        assert(db@.files.skip(start.len() as int) =~= before.skip(start.len() as int) + db@.files.skip(before.len() as int)) by {
            assert forall|k: int| 0 <= k < before.len() implies db@.files[k] == before[k] by {
                assert(db@.files.take(before.len() as int)[k] == db@.files[k]);
            }
        }
        assert(db@.files.take(start.len() as int) =~= start) by {
            assert forall|k: int| 0 <= k < start.len() implies db@.files[k] == start[k] by {
                assert(db@.files.take(before.len() as int)[k] == db@.files[k]);
                assert(before.take(start.len() as int)[k] == before[k]);
            }
        }
        i = i + 1;
    }
    assert(updates@.take(i as int) =~= updates@);
    if let Some(o) = next {
        let _ = db.set_offset(o);
    }
    Ok(PollStep { offset: next, indexed })
}

/// Inserting `a + b` is inserting `a`, then `b`.
pub proof fn lemma_inserted_all_concat(files: Seq<EntryView>, a: Seq<EntryView>, b: Seq<EntryView>)
    ensures
        inserted_all(files, a + b) == inserted_all(inserted_all(files, a), b),
    decreases b.len(),
{
    if b.len() == 0 {
        assert(a + b =~= a);
    } else {
        lemma_inserted_all_concat(files, a, b.drop_last());
        assert((a + b).drop_last() =~= a + b.drop_last());
    }
}

/// Whether a watch that is neither continuous nor timed ends after a batch:
/// it does once a poll brought any update.
pub fn stops_after_batch(continuous: bool, got_updates: bool, duration: Option<u64>) -> (r: bool)
    ensures
        r == (!continuous && got_updates && duration is None),
{
    !continuous && got_updates && duration.is_none()
}

/// Inserting keeps the rows already there, in place.
proof fn lemma_inserted_all_extends(files: Seq<EntryView>, new: Seq<EntryView>)
    ensures
        files.len() <= inserted_all(files, new).len(),
        inserted_all(files, new).take(files.len() as int) == files,
    decreases new.len(),
{
    if new.len() == 0 {
        assert(files.take(files.len() as int) =~= files);
    } else {
        lemma_inserted_all_extends(files, new.drop_last());
        let before = inserted_all(files, new.drop_last());
        if !has_id(before, new.last().file_unique_id) {
            assert(before.push(as_new_row(new.last())).take(files.len() as int) =~= before.take(
                files.len() as int,
            ));
        }
    }
}

/// After inserting `new`, the index holds a row for every id of `new`.
proof fn lemma_inserted_all_has_ids(files: Seq<EntryView>, new: Seq<EntryView>)
    ensures
        forall|k: int|
            0 <= k < new.len() ==> has_id(inserted_all(files, new), #[trigger] new[k].file_unique_id),
    decreases new.len(),
{
    if new.len() > 0 {
        let d = new.drop_last();
        lemma_inserted_all_has_ids(files, d);
        let before = inserted_all(files, d);
        let x = new.last();
        let f = inserted_all(files, new);
        assert forall|k: int| 0 <= k < new.len() implies has_id(f, #[trigger] new[k].file_unique_id) by {
            if k < new.len() - 1 {
                assert(new[k] == d[k]);
                assert(has_id(before, d[k].file_unique_id));
                if !has_id(before, x.file_unique_id) {
                    let i = choose|i: int|
                        0 <= i < before.len() && #[trigger] before[i].file_unique_id
                            == d[k].file_unique_id;
                    assert(f[i] == before[i]);
                }
            } else if !has_id(before, x.file_unique_id) {
                assert(f[before.len() as int].file_unique_id == x.file_unique_id);
            }
        }
    }
}

/// Inserting entries whose ids are all present changes nothing.
proof fn lemma_inserted_all_present(files: Seq<EntryView>, new: Seq<EntryView>)
    requires
        forall|k: int| 0 <= k < new.len() ==> has_id(files, #[trigger] new[k].file_unique_id),
    ensures
        inserted_all(files, new) == files,
    decreases new.len(),
{
    if new.len() > 0 {
        let d = new.drop_last();
        assert forall|k: int| 0 <= k < d.len() implies has_id(files, #[trigger] d[k].file_unique_id) by {
            assert(d[k] == new[k]);
        }
        lemma_inserted_all_present(files, d);
        assert(has_id(files, new[new.len() - 1].file_unique_id));
    }
}

/// Indexing the same batch twice adds nothing the second time: the files of a
/// batch that was already indexed are all skipped as duplicates.
pub proof fn lemma_reindexing_adds_nothing(files: Seq<EntryView>, new: Seq<EntryView>)
    ensures
        inserted_all(inserted_all(files, new), new) == inserted_all(files, new),
{
    lemma_inserted_all_has_ids(files, new);
    lemma_inserted_all_present(inserted_all(files, new), new);
}

/// Indexing never loses or moves a row: the rows held before a batch stay, in
/// place, at the front of the index.
pub proof fn lemma_indexing_keeps_rows(files: Seq<EntryView>, new: Seq<EntryView>)
    ensures
        files.len() <= inserted_all(files, new).len(),
        inserted_all(files, new).take(files.len() as int) == files,
{
    lemma_inserted_all_extends(files, new);
}

} // verus!
