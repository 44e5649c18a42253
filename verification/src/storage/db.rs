//! The file index: one row per file, keyed by its unique id, plus the update
//! offset that polling resumes from.
use vstd::prelude::*;

use crate::cli::{admits, filter_kind_name, lemma_filter_admits_its_kind, FileTypeFilter};
use crate::files::catalog::{EntryView, FileEntry};
use crate::files::filter::{entry_views, kind_name};
use crate::files::order::{
    by_date_desc, dated_desc, lemma_by_date_desc_permutes, lemma_by_date_desc_sorted, sort_by_date_desc,
};

verus! {

/// Why an index operation failed. The in-memory index never fails; the
/// variant is what a storage layer reports.
#[derive(Debug)]
pub enum DbError {
    Storage(String),
}

/// The index.
pub struct Database {
    files: Vec<FileEntry>,
    offset: Option<i64>,
}

/// What the index holds: its rows in insertion order, and the saved offset.
pub struct DbView {
    pub files: Seq<EntryView>,
    pub offset: Option<i64>,
}

/// No two rows share a unique id.
pub open spec fn unique_ids(files: Seq<EntryView>) -> bool {
    forall|i: int, j: int|
        0 <= i < files.len() && 0 <= j < files.len() && i != j ==> files[i].file_unique_id
            != files[j].file_unique_id
}

/// Whether some row has unique id `id`.
pub open spec fn has_id(files: Seq<EntryView>, id: Seq<char>) -> bool {
    exists|i: int| 0 <= i < files.len() && #[trigger] files[i].file_unique_id == id
}

/// The row stored for `e`: the index does not take the downloaded flag from
/// the entry, a new row is always pending.
pub open spec fn as_new_row(e: EntryView) -> EntryView {
    EntryView { downloaded: false, ..e }
}

/// Whether row `e` matches a query's filters.
pub open spec fn matches_query(
    e: EntryView,
    chat_id: Option<i64>,
    file_type: Option<FileTypeFilter>,
    only_not_downloaded: bool,
) -> bool {
    &&& chat_id matches Some(c) ==> e.chat_id == c
    &&& file_type matches Some(f) ==> admits(f, e.file_type)
    &&& only_not_downloaded ==> !e.downloaded
}

/// The rows that match a query's filters, in insertion order.
pub open spec fn selected(
    files: Seq<EntryView>,
    chat_id: Option<i64>,
    file_type: Option<FileTypeFilter>,
    only_not_downloaded: bool,
) -> Seq<EntryView> {
    files.filter(|e: EntryView| matches_query(e, chat_id, file_type, only_not_downloaded))
}

/// The answer to a query: the matching rows newest first, at most `limit` of
/// them (a limit above `i64::MAX` is no limit, as SQLite reads a negative one).
pub open spec fn query_result(
    files: Seq<EntryView>,
    chat_id: Option<i64>,
    file_type: Option<FileTypeFilter>,
    limit: usize,
    only_not_downloaded: bool,
) -> Seq<EntryView> {
    let sorted = by_date_desc(selected(files, chat_id, file_type, only_not_downloaded));
    if limit > i64::MAX || limit >= sorted.len() {
        sorted
    } else {
        sorted.take(limit as int)
    }
}

/// The rows after marking `id` as downloaded.
pub open spec fn marked(files: Seq<EntryView>, id: Seq<char>) -> Seq<EntryView> {
    files.map_values(
        |e: EntryView|
            if e.file_unique_id == id {
                EntryView { downloaded: true, ..e }
            } else {
                e
            },
    )
}

impl View for Database {
    type V = DbView;

    closed spec fn view(&self) -> DbView {
        DbView { files: entry_views(self.files@), offset: self.offset }
    }
}

impl Database {
    #[verifier::type_invariant]
    spec fn well_formed(self) -> bool {
        unique_ids(entry_views(self.files@))
    }

    /// An empty index.
    pub fn open_in_memory() -> (r: Result<Database, DbError>)
        ensures
            r matches Ok(db) && db@.files == Seq::<EntryView>::empty() && db@.offset is None,
    {
        let db = Database { files: Vec::new(), offset: None };
        assert(entry_views(db.files@) =~= Seq::<EntryView>::empty());
        Ok(db)
    }

    fn find(&self, id: &String) -> (r: Option<usize>)
        ensures
            match r {
                Some(i) => i < self@.files.len() && self@.files[i as int].file_unique_id == id@,
                None => !has_id(self@.files, id@),
            },
    {
        let mut i: usize = 0;
        while i < self.files.len()
            invariant
                i <= self.files.len(),
                forall|k: int|
                    0 <= k < i ==> (#[trigger] self.files@[k]).file_unique_id@ != id@,
            decreases self.files.len() - i,
        {
            if self.files[i].file_unique_id == *id {
                return Some(i);
            }
            i = i + 1;
        }
        assert(!has_id(self@.files, id@)) by {
            if has_id(self@.files, id@) {
                let k = choose|k: int|
                    0 <= k < self@.files.len() && #[trigger] self@.files[k].file_unique_id == id@;
                assert(self.files@[k].file_unique_id@ == id@);
            }
        }
        None
    }

    /// Adds `entry` as a pending row unless a row with its unique id exists.
    /// Returns whether it was added.
    pub fn insert_file(&mut self, entry: &FileEntry) -> (r: Result<bool, DbError>)
        ensures
            r matches Ok(added) && {
                &&& added == !has_id(old(self)@.files, entry@.file_unique_id)
                &&& final(self)@.files == if added {
                    old(self)@.files.push(as_new_row(entry@))
                } else {
                    old(self)@.files
                }
                &&& final(self)@.offset == old(self)@.offset
            },
            unique_ids(final(self)@.files),
    {
        proof {
            use_type_invariant(&*self);
        }
        match self.find(&entry.file_unique_id) {
            Some(_) => Ok(false),
            None => {
                let mut row = entry.duplicate();
                row.downloaded = false;
                let ghost before = entry_views(self.files@);
                assert(row@ == as_new_row(entry@));
                proof {
                    assert(unique_ids(before.push(row@))) by {
                        assert forall|i: int, j: int|
                            0 <= i < before.push(row@).len() && 0 <= j < before.push(row@).len()
                                && i != j implies before.push(row@)[i].file_unique_id != before.push(
                            row@,
                        )[j].file_unique_id by {
                            if i == before.len() as int {
                                assert(before[j].file_unique_id != row@.file_unique_id);
                            } else if j == before.len() as int {
                                assert(before[i].file_unique_id != row@.file_unique_id);
                            }
                        }
                    }
                }
                let mut files = Vec::new();
                std::mem::swap(&mut files, &mut self.files);
                files.push(row);
                assert(entry_views(files@) =~= before.push(row@));
                self.files = files;
                Ok(true)
            },
        }
    }

    /// The rows matching the filters, newest first, at most `limit` of them
    /// (see `query_result`).
    pub fn query_files(
        &self,
        chat_id: Option<i64>,
        file_type: Option<&FileTypeFilter>,
        limit: usize,
        only_not_downloaded: bool,
    ) -> (r: Result<Vec<FileEntry>, DbError>)
        ensures
            unique_ids(self@.files),
            r matches Ok(v) && entry_views(v@) == query_result(
                self@.files,
                chat_id,
                match file_type {
                    Some(f) => Some(*f),
                    None => None,
                },
                limit,
                only_not_downloaded,
            ),
    {
        proof {
            use_type_invariant(self);
        }
        let ghost ft = match file_type {
            Some(f) => Some(*f),
            None => None,
        };
        let ghost rows = self@.files;
        let mut picked: Vec<FileEntry> = Vec::new();
        let mut i: usize = 0;
        assert(entry_views(picked@) =~= selected(rows.take(0), chat_id, ft, only_not_downloaded))
            by {
            reveal(Seq::filter);
        }
        while i < self.files.len()
            invariant
                i <= self.files.len(),
                rows == entry_views(self.files@),
                ft == match file_type {
                    Some(f) => Some(*f),
                    None => None::<FileTypeFilter>,
                },
                entry_views(picked@) == selected(rows.take(i as int), chat_id, ft, only_not_downloaded),
            decreases self.files.len() - i,
        {
            let e = &self.files[i];
            let keep_chat = match chat_id {
                Some(c) => e.chat_id == c,
                None => true,
            };
            let keep_type = match file_type {
                Some(f) => f.admits(e.file_type),
                None => true,
            };
            let keep = keep_chat && keep_type && (!only_not_downloaded || !e.downloaded);
            assert(keep == matches_query(rows[i as int], chat_id, ft, only_not_downloaded));
            let ghost prev = entry_views(picked@);
            if keep {
                picked.push(e.duplicate());
            }
            i = i + 1;
            assert(rows.take(i as int).drop_last() =~= rows.take(i - 1));
            assert(entry_views(picked@) =~= selected(rows.take(i as int), chat_id, ft, only_not_downloaded)) by {
                reveal(Seq::filter);
                if keep {
                    assert(entry_views(picked@) =~= prev.push(rows[i - 1]));
                } else {
                    assert(entry_views(picked@) =~= prev);
                }
            }
        }
        assert(rows.take(i as int) =~= rows);
        let mut sorted = sort_by_date_desc(picked);
        if (limit as u128) <= 9223372036854775807u128 && limit < sorted.len() {
            sorted.truncate(limit);
            assert(entry_views(sorted@) =~= query_result(rows, chat_id, ft, limit, only_not_downloaded));
        }
        Ok(sorted)
    }

    /// Marks the row with unique id `file_unique_id` (if any) as downloaded.
    pub fn mark_downloaded(&mut self, file_unique_id: &str) -> (r: Result<(), DbError>)
        ensures
            r is Ok,
            final(self)@.files == marked(old(self)@.files, file_unique_id@),
            final(self)@.offset == old(self)@.offset,
            unique_ids(final(self)@.files),
    {
        proof {
            use_type_invariant(&*self);
        }
        let ghost before = entry_views(self.files@);
        let mut files = Vec::new();
        std::mem::swap(&mut files, &mut self.files);
        let mut i: usize = 0;
        while i < files.len()
            invariant
                i <= files.len(),
                files@.len() == before.len(),
                forall|k: int| 0 <= k < i ==> (#[trigger] files@[k])@ == marked(before, file_unique_id@)[k],
                forall|k: int| i <= k < files@.len() ==> (#[trigger] files@[k])@ == before[k],
            decreases files.len() - i,
        {
            if crate::text::str_eq(files[i].file_unique_id.as_str(), file_unique_id) {
                let mut e = files[i].duplicate();
                e.downloaded = true;
                files.set(i, e);
            }
            i = i + 1;
        }
        assert(entry_views(files@) =~= marked(before, file_unique_id@));
        assert(unique_ids(entry_views(files@)));
        self.files = files;
        Ok(())
    }

    /// The saved polling offset, if one was saved.
    pub fn get_offset(&self) -> (r: Result<Option<i64>, DbError>)
        ensures
            r == Ok::<Option<i64>, DbError>(self@.offset),
    {
        Ok(self.offset)
    }

    /// Saves the polling offset.
    pub fn set_offset(&mut self, offset: i64) -> (r: Result<(), DbError>)
        ensures
            r is Ok,
            final(self)@.offset == Some(offset),
            final(self)@.files == old(self)@.files,
            unique_ids(final(self)@.files),
    {
        proof {
            use_type_invariant(&*self);
        }
        self.offset = Some(offset);
        Ok(())
    }
}

/// Every row a query returns is a row of the index that matches the query's
/// filters; the rows come newest first, and a limit of at most `i64::MAX` is
/// never exceeded.
pub proof fn lemma_query_result_sound(
    files: Seq<EntryView>,
    chat_id: Option<i64>,
    file_type: Option<FileTypeFilter>,
    limit: usize,
    only_not_downloaded: bool,
)
    ensures
        ({
            let r = query_result(files, chat_id, file_type, limit, only_not_downloaded);
            &&& forall|k: int|
                0 <= k < r.len() ==> files.contains(#[trigger] r[k]) && matches_query(
                    r[k],
                    chat_id,
                    file_type,
                    only_not_downloaded,
                )
            &&& dated_desc(r)
            &&& limit <= i64::MAX ==> r.len() <= limit
        }),
{
    broadcast use vstd::seq_lib::group_to_multiset_ensures;
    broadcast use vstd::seq_lib::group_filter_ensures;

    let pred = |e: EntryView| matches_query(e, chat_id, file_type, only_not_downloaded);
    let sel = selected(files, chat_id, file_type, only_not_downloaded);
    let sorted = by_date_desc(sel);
    lemma_by_date_desc_sorted(sel);
    lemma_by_date_desc_permutes(sel);
    let r = query_result(files, chat_id, file_type, limit, only_not_downloaded);
    assert forall|k: int| 0 <= k < r.len() implies files.contains(#[trigger] r[k])
        && matches_query(r[k], chat_id, file_type, only_not_downloaded) by {
        assert(r[k] == sorted[k]);
        assert(sorted.contains(sorted[k]));
        assert(sorted.to_multiset().count(r[k]) > 0);
        assert(sel.to_multiset().count(r[k]) > 0);
        assert(sel.contains(r[k]));
        let i = choose|i: int| 0 <= i < sel.len() && sel[i] == r[k];
        assert(pred(sel[i]));
        files.lemma_filter_contains_rev(pred, r[k]);
    }
    assert forall|i: int, j: int| 0 <= i < j < r.len() implies r[i].date >= r[j].date by {
        assert(r[i] == sorted[i] && r[j] == sorted[j]);
    }
}

/// Without a limit that cuts it short, a query returns every row of the index
/// that matches its filters.
pub proof fn lemma_query_result_complete(
    files: Seq<EntryView>,
    chat_id: Option<i64>,
    file_type: Option<FileTypeFilter>,
    limit: usize,
    only_not_downloaded: bool,
)
    requires
        limit > i64::MAX || limit >= files.len(),
    ensures
        forall|k: int|
            0 <= k < files.len() && matches_query(
                files[k],
                chat_id,
                file_type,
                only_not_downloaded,
            ) ==> query_result(files, chat_id, file_type, limit, only_not_downloaded).contains(
                #[trigger] files[k],
            ),
{
    broadcast use vstd::seq_lib::group_to_multiset_ensures;
    broadcast use vstd::seq_lib::group_filter_ensures;

    let pred = |e: EntryView| matches_query(e, chat_id, file_type, only_not_downloaded);
    let sel = selected(files, chat_id, file_type, only_not_downloaded);
    lemma_by_date_desc_sorted(sel);
    lemma_by_date_desc_permutes(sel);
    files.lemma_filter_len(pred);
    assert forall|k: int|
        0 <= k < files.len() && matches_query(
            files[k],
            chat_id,
            file_type,
            only_not_downloaded,
        ) implies query_result(files, chat_id, file_type, limit, only_not_downloaded).contains(
        #[trigger] files[k],
    ) by {
        assert(pred(files[k]));
        files.lemma_filter_contains(pred, k);
        assert(sel.contains(files[k]));
        assert(sel.to_multiset().count(files[k]) > 0);
        assert(by_date_desc(sel).to_multiset().count(files[k]) > 0);
        assert(by_date_desc(sel).contains(files[k]));
    }
}

/// A file that the index did not hold is, once inserted, among the pending
/// files of its chat that an unlimited query lists, as a pending row.
pub proof fn lemma_inserted_file_is_listed(
    files: Seq<EntryView>,
    entry: EntryView,
    limit: usize,
)
    requires
        !has_id(files, entry.file_unique_id),
        limit > i64::MAX || limit > files.len(),
    ensures
        query_result(
            files.push(as_new_row(entry)),
            Some(entry.chat_id),
            None,
            limit,
            true,
        ).contains(as_new_row(entry)),
{
    let f = files.push(as_new_row(entry));
    lemma_query_result_complete(f, Some(entry.chat_id), None, limit, true);
    assert(f[files.len() as int] == as_new_row(entry));
}

/// Inserting an entry whose unique id the index already holds changes
/// nothing: a second insert of the same entry is ignored.
pub proof fn lemma_second_insert_ignored(files: Seq<EntryView>, entry: EntryView)
    ensures
        has_id(files.push(as_new_row(entry)), entry.file_unique_id),
{
    let f = files.push(as_new_row(entry));
    assert(f[files.len() as int].file_unique_id == entry.file_unique_id);
}

/// Once a file is marked downloaded, no query for pending files returns it.
pub proof fn lemma_marked_not_pending(
    files: Seq<EntryView>,
    id: Seq<char>,
    chat_id: Option<i64>,
    file_type: Option<FileTypeFilter>,
    limit: usize,
)
    ensures
        forall|k: int|
            0 <= k < query_result(marked(files, id), chat_id, file_type, limit, true).len()
                ==> (#[trigger] query_result(
                marked(files, id),
                chat_id,
                file_type,
                limit,
                true,
            )[k]).file_unique_id != id,
{
    let m = marked(files, id);
    lemma_query_result_sound(m, chat_id, file_type, limit, true);
    let r = query_result(m, chat_id, file_type, limit, true);
    assert forall|k: int| 0 <= k < r.len() implies (#[trigger] r[k]).file_unique_id != id by {
        assert(m.contains(r[k]));
        let i = choose|i: int| 0 <= i < m.len() && m[i] == r[k];
        assert(!r[k].downloaded);
    }
}

/// A query with a kind filter other than `All` returns only rows stored under
/// that kind (`--type video` lists videos and nothing else).
pub proof fn lemma_query_rows_have_filter_kind(
    files: Seq<EntryView>,
    chat_id: Option<i64>,
    f: FileTypeFilter,
    limit: usize,
    only_not_downloaded: bool,
)
    ensures
        forall|k: int|
            0 <= k < query_result(files, chat_id, Some(f), limit, only_not_downloaded).len()
                ==> match filter_kind_name(f) {
                Some(n) => kind_name(
                    (#[trigger] query_result(
                        files,
                        chat_id,
                        Some(f),
                        limit,
                        only_not_downloaded,
                    )[k]).file_type,
                ) == n,
                None => true,
            },
{
    lemma_query_result_sound(files, chat_id, Some(f), limit, only_not_downloaded);
    let r = query_result(files, chat_id, Some(f), limit, only_not_downloaded);
    assert forall|k: int| 0 <= k < r.len() implies match filter_kind_name(f) {
        Some(n) => kind_name((#[trigger] r[k]).file_type) == n,
        None => true,
    } by {
        assert(matches_query(r[k], chat_id, Some(f), only_not_downloaded));
        lemma_filter_admits_its_kind(f, r[k].file_type);
    }
}

} // verus!
