//! The rules of the commands: which token is accepted, and which indexed
//! files a download takes.
use vstd::prelude::*;

use crate::cli::FileTypeFilter;
use crate::files::catalog::{raw_name, EntryView, FileEntry};
use crate::files::filter::{
    bound_of, date_filtered, entry_views, filter_by_date_range, opt_str, DateError,
};
use crate::files::order::{by_date_desc, sort_by_date_desc};
use crate::storage::db::{query_result, Database};
use crate::security::{sanitized, valid_token, validate_token_format};
use crate::text::{ends_with, str_ends_with};

verus! {

/// Why the token cannot be used.
#[derive(Debug, PartialEq, Eq, Structural)]
pub enum TokenError {
    /// No `--token` and no `TG_BOT_TOKEN`.
    Missing,
    /// Not of the form `123456:ABCdefGHIjklMNO`.
    InvalidFormat,
}

/// The token to use: it must be given and have the shape of a bot token.
pub fn check_token(token: Option<String>) -> (r: Result<String, TokenError>)
    ensures
        match token {
            None => r == Err::<String, TokenError>(TokenError::Missing),
            Some(t) => if valid_token(t@) {
                r == Ok::<String, TokenError>(t)
            } else {
                r == Err::<String, TokenError>(TokenError::InvalidFormat)
            },
        },
{
    match token {
        None => Err(TokenError::Missing),
        Some(t) => if validate_token_format(t.as_str()) {
            Ok(t)
        } else {
            Err(TokenError::InvalidFormat)
        },
    }
}

/// Why a download request is refused.
#[derive(Debug, PartialEq, Eq, Structural)]
pub enum RequestError {
    /// `--include-ext` and `--exclude-ext` were both given.
    ConflictingExtensionFilters,
    /// Neither `--interactive`, `--all` nor `--file-id` says what to take.
    NoSelection,
}

/// Extension filters are either inclusive or exclusive, never both.
pub fn check_extension_filters(include_ext: &Vec<String>, exclude_ext: &Vec<String>) -> (r: Result<
    (),
    RequestError,
>)
    ensures
        r is Ok <==> !(include_ext@.len() > 0 && exclude_ext@.len() > 0),
        r matches Err(e) ==> e == RequestError::ConflictingExtensionFilters,
{
    if include_ext.len() > 0 && exclude_ext.len() > 0 {
        Err(RequestError::ConflictingExtensionFilters)
    } else {
        Ok(())
    }
}

/// How the files to download are chosen once the candidates are known.
#[derive(Debug, PartialEq, Eq, Structural)]
pub enum Selection {
    /// The user picks among the candidates.
    Interactive,
    /// All candidates are taken.
    Everything,
}

/// `--interactive` asks the user; `--all` or `--file-id` takes every
/// candidate; with none of them the request is refused.
pub fn selection(interactive: bool, all: bool, has_file_ids: bool) -> (r: Result<
    Selection,
    RequestError,
>)
    ensures
        interactive ==> r == Ok::<Selection, RequestError>(Selection::Interactive),
        !interactive && (all || has_file_ids) ==> r == Ok::<Selection, RequestError>(
            Selection::Everything,
        ),
        !interactive && !all && !has_file_ids ==> r == Err::<Selection, RequestError>(
            RequestError::NoSelection,
        ),
{
    if interactive {
        Ok(Selection::Interactive)
    } else if all || has_file_ids {
        Ok(Selection::Everything)
    } else {
        Err(RequestError::NoSelection)
    }
}

/// Whether `id` is among `ids`.
pub open spec fn listed(ids: Seq<String>, id: Seq<char>) -> bool {
    exists|k: int| 0 <= k < ids.len() && #[trigger] ids[k]@ == id
}

/// The entries whose unique id or file id is listed, in order.
pub open spec fn by_ids(s: Seq<EntryView>, ids: Seq<String>) -> Seq<EntryView> {
    s.filter(|e: EntryView| listed(ids, e.file_unique_id) || listed(ids, e.file_id))
}

fn is_listed(ids: &Vec<String>, id: &String) -> (r: bool)
    ensures
        r == listed(ids@, id@),
{
    let mut k: usize = 0;
    while k < ids.len()
        invariant
            k <= ids.len(),
            forall|m: int| 0 <= m < k ==> (#[trigger] ids@[m])@ != id@,
        decreases ids.len() - k,
    {
        if ids[k] == *id {
            return true;
        }
        k = k + 1;
    }
    false
}

/// Keeps the entries named by `--file-id`, by unique id or by file id.
pub fn filter_by_ids(files: Vec<FileEntry>, ids: &Vec<String>) -> (r: Vec<FileEntry>)
    ensures
        entry_views(r@) == by_ids(entry_views(files@), ids@),
{
    let ghost s = entry_views(files@);
    let mut out: Vec<FileEntry> = Vec::new();
    let mut i: usize = 0;
    assert(entry_views(out@) =~= by_ids(s.take(0), ids@)) by {
        reveal(Seq::filter);
    }
    while i < files.len()
        invariant
            i <= files.len(),
            s == entry_views(files@),
            entry_views(out@) == by_ids(s.take(i as int), ids@),
        decreases files.len() - i,
    {
        let keep = is_listed(ids, &files[i].file_unique_id) || is_listed(ids, &files[i].file_id);
        let ghost prev = entry_views(out@);
        if keep {
            out.push(files[i].duplicate());
        }
        i = i + 1;
        assert(s.take(i as int).drop_last() =~= s.take(i - 1));
        assert(entry_views(out@) =~= by_ids(s.take(i as int), ids@)) by {
            reveal(Seq::filter);
            if keep {
                assert(entry_views(out@) =~= prev.push(s[i - 1]));
            } else {
                assert(entry_views(out@) =~= prev);
            }
        }
    }
    assert(s.take(i as int) =~= s);
    out
}

/// The lower case of `s`, as `str::to_lowercase` gives it.
pub uninterp spec fn lowercase(s: Seq<char>) -> Seq<char>;

/// Calls `str::to_lowercase`. Claimed: the result is `lowercase(s)`; what the
/// Unicode lower case of each character is, is left to std.
#[verifier::external_body]
fn to_lowercase(s: &str) -> (r: String)
    ensures
        r@ == lowercase(s@),
{
    s.to_lowercase()
}

/// The extensions of a filter as compared: lower case.
pub open spec fn lowered(exts: Seq<String>) -> Seq<Seq<char>> {
    exts.map_values(|e: String| lowercase(e@))
}

/// Whether an entry's display name, in lower case, ends with `.` and one of
/// the (lower-cased) extensions.
pub open spec fn has_listed_ext(e: EntryView, exts: Seq<Seq<char>>) -> bool {
    exists|k: int|
        0 <= k < exts.len() && ends_with(
            lowercase(sanitized(raw_name(e))),
            seq!['.'] + #[trigger] exts[k],
        )
}

/// The entries kept by an extension filter: those with a listed extension
/// when `keep_listed`, those without one otherwise.
pub open spec fn by_extension(s: Seq<EntryView>, exts: Seq<String>, keep_listed: bool) -> Seq<
    EntryView,
> {
    s.filter(|e: EntryView| has_listed_ext(e, lowered(exts)) == keep_listed)
}

/// Whether the display name `name` (lower case) ends with `.<ext>` for one of
/// `exts` (lower case).
fn ends_with_any(name: &String, exts: &Vec<String>) -> (r: bool)
    ensures
        r == exists|k: int|
            0 <= k < exts@.len() && ends_with(name@, seq!['.'] + #[trigger] exts@[k]@),
{
    let mut k: usize = 0;
    while k < exts.len()
        invariant
            k <= exts.len(),
            forall|m: int| 0 <= m < k ==> !ends_with(name@, seq!['.'] + (#[trigger] exts@[m])@),
        decreases exts.len() - k,
    {
        let mut dotted = String::from_str(".");
        proof {
            reveal_strlit(".");
        }
        dotted.append(exts[k].as_str());
        assert(dotted@ =~= seq!['.'] + exts@[k as int]@);
        if str_ends_with(name.as_str(), dotted.as_str()) {
            return true;
        }
        k = k + 1;
    }
    false
}

/// Applies `--include-ext` (`keep_listed`) or `--exclude-ext` to the entries,
/// comparing the display names and the extensions in lower case.
pub fn filter_by_extensions(files: Vec<FileEntry>, exts: &Vec<String>, keep_listed: bool) -> (r: Vec<
    FileEntry,
>)
    ensures
        entry_views(r@) == by_extension(entry_views(files@), exts@, keep_listed),
{
    let ghost s = entry_views(files@);
    let mut lower: Vec<String> = Vec::new();
    let mut k: usize = 0;
    while k < exts.len()
        invariant
            k <= exts.len(),
            lower@.len() == k,
            forall|m: int| 0 <= m < k ==> (#[trigger] lower@[m])@ == lowercase(exts@[m]@),
        decreases exts.len() - k,
    {
        lower.push(to_lowercase(exts[k].as_str()));
        k = k + 1;
    }
    let mut out: Vec<FileEntry> = Vec::new();
    let mut i: usize = 0;
    assert(entry_views(out@) =~= by_extension(s.take(0), exts@, keep_listed)) by {
        reveal(Seq::filter);
    }
    while i < files.len()
        invariant
            i <= files.len(),
            s == entry_views(files@),
            lower@.len() == exts@.len(),
            forall|m: int| 0 <= m < exts@.len() ==> (#[trigger] lower@[m])@ == lowercase(exts@[m]@),
            entry_views(out@) == by_extension(s.take(i as int), exts@, keep_listed),
        decreases files.len() - i,
    {
        let name = files[i].display_name();
        let name_l = to_lowercase(name.as_str());
        let hit = ends_with_any(&name_l, &lower);
        assert(hit == has_listed_ext(s[i as int], lowered(exts@))) by {
            if hit {
                let k = choose|k: int|
                    0 <= k < lower@.len() && ends_with(name_l@, seq!['.'] + #[trigger] lower@[k]@);
                assert(lowered(exts@)[k] == lower@[k]@);
            }
            if has_listed_ext(s[i as int], lowered(exts@)) {
                let k = choose|k: int|
                    0 <= k < lowered(exts@).len() && ends_with(
                        lowercase(sanitized(raw_name(s[i as int]))),
                        seq!['.'] + #[trigger] lowered(exts@)[k],
                    );
                assert(lower@[k]@ == lowered(exts@)[k]);
            }
        }
        let ghost prev = entry_views(out@);
        if hit == keep_listed {
            out.push(files[i].duplicate());
        }
        i = i + 1;
        assert(s.take(i as int).drop_last() =~= s.take(i - 1));
        assert(entry_views(out@) =~= by_extension(s.take(i as int), exts@, keep_listed)) by {
            reveal(Seq::filter);
            if hit == keep_listed {
                assert(entry_views(out@) =~= prev.push(s[i - 1]));
            } else {
                assert(entry_views(out@) =~= prev);
            }
        }
    }
    assert(s.take(i as int) =~= s);
    out
}

proof fn lemma_filter_split_len(s: Seq<EntryView>, p: spec_fn(EntryView) -> bool)
    ensures
        s.filter(p).len() + s.filter(|e: EntryView| !p(e)).len() == s.len(),
    decreases s.len(),
{
    reveal(Seq::filter);
    if s.len() > 0 {
        lemma_filter_split_len(s.drop_last(), p);
    }
}

/// `--include-ext` and `--exclude-ext` with the same extensions split the
/// files between them: each file is kept by exactly one of the two, and
/// together they keep as many files as there are.
pub proof fn lemma_extension_filters_split(s: Seq<EntryView>, exts: Seq<String>)
    ensures
        by_extension(s, exts, true).len() + by_extension(s, exts, false).len() == s.len(),
        forall|k: int|
            0 <= k < s.len() ==> (by_extension(s, exts, true).contains(#[trigger] s[k])
                <==> has_listed_ext(s[k], lowered(exts))),
        forall|k: int|
            0 <= k < s.len() ==> (by_extension(s, exts, false).contains(#[trigger] s[k])
                <==> !has_listed_ext(s[k], lowered(exts))),
{
    broadcast use vstd::seq_lib::group_filter_ensures;

    let l = lowered(exts);
    let yes = |e: EntryView| has_listed_ext(e, l) == true;
    let no = |e: EntryView| has_listed_ext(e, l) == false;
    lemma_filter_split_len(s, yes);
    assert(s.filter(|e: EntryView| !yes(e)) =~= s.filter(no)) by {
        assert((|e: EntryView| !yes(e)) =~= no);
    }
    assert forall|k: int| 0 <= k < s.len() implies (by_extension(s, exts, true).contains(
        #[trigger] s[k],
    ) <==> has_listed_ext(s[k], l)) by {
        if has_listed_ext(s[k], l) {
            s.lemma_filter_contains(yes, k);
        } else if s.filter(yes).contains(s[k]) {
            let j = choose|j: int| 0 <= j < s.filter(yes).len() && s.filter(yes)[j] == s[k];
            assert(yes(s.filter(yes)[j]));
        }
    }
    assert forall|k: int| 0 <= k < s.len() implies (by_extension(s, exts, false).contains(
        #[trigger] s[k],
    ) <==> !has_listed_ext(s[k], l)) by {
        if !has_listed_ext(s[k], l) {
            s.lemma_filter_contains(no, k);
        } else if s.filter(no).contains(s[k]) {
            let j = choose|j: int| 0 <= j < s.filter(no).len() && s.filter(no)[j] == s[k];
            assert(no(s.filter(no)[j]));
        }
    }
}

/// The files named by `--file-id` when any are given, then those passing the
/// extension filter that was given (if any), then those within the dates.
pub open spec fn narrowed(
    s: Seq<EntryView>,
    file_ids: Seq<String>,
    include_ext: Seq<String>,
    exclude_ext: Seq<String>,
    after: Option<int>,
    before_day: Option<int>,
) -> Seq<EntryView> {
    let by_id = if file_ids.len() > 0 {
        by_ids(s, file_ids)
    } else {
        s
    };
    let inc = if include_ext.len() > 0 {
        by_extension(by_id, include_ext, true)
    } else {
        by_id
    };
    let exc = if exclude_ext.len() > 0 {
        by_extension(inc, exclude_ext, false)
    } else {
        inc
    };
    date_filtered(exc, after, before_day)
}

/// The query a download makes: every file when `--file-id` is given,
/// otherwise those of the chat and kind asked for, pending ones only unless
/// `--all`; at most 10000 either way.
pub open spec fn download_query(
    files: Seq<EntryView>,
    chat_id: Option<i64>,
    file_type: Option<FileTypeFilter>,
    all: bool,
    file_ids: Seq<String>,
) -> Seq<EntryView> {
    if file_ids.len() > 0 {
        query_result(files, None, None, 10000, false)
    } else {
        query_result(files, chat_id, file_type, 10000, !all)
    }
}

/// The files a download request is about, before the selection: those the
/// index returns for it, narrowed by ids, extension and dates, and newest
/// first with `--desc`. A date that cannot be read is an error, `after`
/// first, as in `filter_by_date_range`.
pub fn download_candidates(
    db: &Database,
    chat_id: Option<i64>,
    file_type: Option<FileTypeFilter>,
    all: bool,
    file_ids: &Vec<String>,
    include_ext: &Vec<String>,
    exclude_ext: &Vec<String>,
    after: Option<&str>,
    before: Option<&str>,
    desc: bool,
) -> (r: Result<Vec<FileEntry>, DateError>)
    ensures
        r is Ok <==> bound_of(opt_str(after)) is Some && bound_of(opt_str(before)) is Some,
        r matches Ok(v) ==> {
            let n = narrowed(
                download_query(db@.files, chat_id, file_type, all, file_ids@),
                file_ids@,
                include_ext@,
                exclude_ext@,
                bound_of(opt_str(after))->0,
                bound_of(opt_str(before))->0,
            );
            entry_views(v@) == if desc {
                by_date_desc(n)
            } else {
                n
            }
        },
        r matches Err(DateError::InvalidFormat(text)) ==> if bound_of(opt_str(after)) is None {
            text@ == opt_str(after)->0
        } else {
            text@ == opt_str(before)->0
        },
{
    let queried = if file_ids.len() > 0 {
        db.query_files(None, None, 10000, false)
    } else {
        db.query_files(chat_id, file_type.as_ref(), 10000, !all)
    };
    let files = match queried {
        Ok(v) => v,
        Err(_) => {
            proof {
                assert(false);
            }
            Vec::new()
        },
    };
    let ghost q = entry_views(files@);
    assert(q == download_query(db@.files, chat_id, file_type, all, file_ids@));
    let files = if file_ids.len() > 0 {
        filter_by_ids(files, file_ids)
    } else {
        files
    };
    let files = if include_ext.len() > 0 {
        filter_by_extensions(files, include_ext, true)
    } else {
        files
    };
    let files = if exclude_ext.len() > 0 {
        filter_by_extensions(files, exclude_ext, false)
    } else {
        files
    };
    match filter_by_date_range(files, after, before) {
        Ok(v) => if desc {
            Ok(sort_by_date_desc(v))
        } else {
            Ok(v)
        },
        Err(e) => Err(e),
    }
}

/// The files a listing shows: those the index returns for the chat and kind
/// (newest first, at most `limit`), within the dates. A date that cannot be
/// read is an error, `after` first.
pub fn list_files(
    db: &Database,
    chat_id: Option<i64>,
    file_type: Option<FileTypeFilter>,
    limit: usize,
    after: Option<&str>,
    before: Option<&str>,
) -> (r: Result<Vec<FileEntry>, DateError>)
    ensures
        r is Ok <==> bound_of(opt_str(after)) is Some && bound_of(opt_str(before)) is Some,
        r matches Ok(v) ==> entry_views(v@) == date_filtered(
            query_result(db@.files, chat_id, file_type, limit, false),
            bound_of(opt_str(after))->0,
            bound_of(opt_str(before))->0,
        ),
        r matches Err(DateError::InvalidFormat(text)) ==> if bound_of(opt_str(after)) is None {
            text@ == opt_str(after)->0
        } else {
            text@ == opt_str(before)->0
        },
{
    let files = match db.query_files(chat_id, file_type.as_ref(), limit, false) {
        Ok(v) => v,
        Err(_) => {
            proof {
                assert(false);
            }
            Vec::new()
        },
    };
    filter_by_date_range(files, after, before)
}

/// Every given extension counts, compared in lower case: a file whose display
/// name, lower-cased, ends with `.` and the lower case of any one of the
/// extensions is kept by `--include-ext` and dropped by `--exclude-ext`; a
/// file that matches none of them is dropped by the first and kept by the
/// second.
pub proof fn lemma_every_extension_counts(s: Seq<EntryView>, exts: Seq<String>)
    ensures
        forall|i: int, k: int|
            0 <= i < s.len() && 0 <= k < exts.len() && ends_with(
                lowercase(sanitized(raw_name(s[i]))),
                seq!['.'] + lowercase(#[trigger] exts[k]@),
            ) ==> by_extension(s, exts, true).contains(#[trigger] s[i]) && !by_extension(
                s,
                exts,
                false,
            ).contains(s[i]),
        forall|i: int|
            0 <= i < s.len() && (forall|k: int|
                0 <= k < exts.len() ==> !ends_with(
                    lowercase(sanitized(raw_name(s[i]))),
                    seq!['.'] + lowercase(#[trigger] exts[k]@),
                )) ==> !by_extension(s, exts, true).contains(#[trigger] s[i]) && by_extension(
                s,
                exts,
                false,
            ).contains(s[i]),
{
    lemma_extension_filters_split(s, exts);
    let l = lowered(exts);
    assert(l.len() == exts.len());
    assert forall|k: int| 0 <= k < exts.len() implies #[trigger] l[k] == lowercase(exts[k]@) by {}
    assert forall|i: int, k: int|
        0 <= i < s.len() && 0 <= k < exts.len() && ends_with(
            lowercase(sanitized(raw_name(s[i]))),
            seq!['.'] + lowercase(#[trigger] exts[k]@),
        ) implies by_extension(s, exts, true).contains(#[trigger] s[i]) && !by_extension(
        s,
        exts,
        false,
    ).contains(s[i]) by {
        assert(l[k] == lowercase(exts[k]@));
        assert(has_listed_ext(s[i], l));
    }
    assert forall|i: int|
        0 <= i < s.len() && (forall|k: int|
            0 <= k < exts.len() ==> !ends_with(
                lowercase(sanitized(raw_name(s[i]))),
                seq!['.'] + lowercase(#[trigger] exts[k]@),
            )) implies !by_extension(s, exts, true).contains(#[trigger] s[i]) && by_extension(
        s,
        exts,
        false,
    ).contains(s[i]) by {
        if has_listed_ext(s[i], l) {
            let k = choose|k: int|
                0 <= k < l.len() && ends_with(
                    lowercase(sanitized(raw_name(s[i]))),
                    seq!['.'] + #[trigger] l[k],
                );
            assert(l[k] == lowercase(exts[k]@));
            assert(!ends_with(lowercase(sanitized(raw_name(s[i]))), seq!['.'] + lowercase(exts[k]@)));
        }
    }
}

} // verus!
