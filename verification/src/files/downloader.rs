//! The decisions of a download run: where a file goes, whether it is fetched,
//! resumed or skipped, how curl is invoked, and what its exit status means.
//! Running curl, the progress bars and the file system are the caller's.
use vstd::prelude::*;

use crate::files::catalog::{raw_name, FileEntry};
use crate::files::filter::subdir_name;
use crate::security::{
    lemma_sanitize_idempotent, path_join, safe_output_path, sanitized, validate_https_url,
};
use crate::telegram::client::TelegramClient;
use crate::text::{
    byte_len, byte_length, char_index_at_byte, chars_in_bytes, chars_of, is_byte_boundary,
    lemma_chars_in_bytes_unique, push_char, string_from_range,
};

verus! {

/// The path an entry is saved to: its display name under the directory of its
/// kind, made safe by `safe_output_path`.
pub fn build_output_path(output_dir: &str, entry: &FileEntry) -> (r: String)
    ensures
        r@ == path_join(
            path_join(output_dir@, subdir_name(entry.file_type)),
            sanitized(raw_name(entry@)),
        ),
{
    let name = entry.display_name();
    proof {
        lemma_sanitize_idempotent(raw_name(entry@));
    }
    safe_output_path(output_dir, entry.file_type.subdir(), name.as_str())
}

/// Why a file cannot be downloaded.
#[derive(Debug)]
pub enum DownloadError {
    /// `getFile` gave no path (the file is over the Bot API's 20 MB limit).
    NoFilePath,
    /// The download URL is not HTTPS; it is kept for the message.
    InsecureUrl(String),
    /// The target is a symbolic link; writing through it is refused.
    SymlinkTarget,
    /// curl exited with this code (-1 when it was killed by a signal).
    CurlFailed(i32),
}

/// What to fetch for one file.
pub struct Fetch {
    pub url: String,
    /// The expected size: `getFile`'s, else the one the index recorded.
    pub total_size: Option<u64>,
}

/// The size to expect: the one `getFile` reports, else the indexed one.
pub open spec fn expected_size(reported: Option<u64>, indexed: Option<u64>) -> Option<u64> {
    match reported {
        Some(s) => Some(s),
        None => indexed,
    }
}

/// From `getFile`'s reply (path and size) to what to fetch: the file URL,
/// which must be HTTPS, and the expected size.
pub fn resolve_fetch(
    api: &TelegramClient,
    file_path: Option<String>,
    reported_size: Option<u64>,
    entry: &FileEntry,
) -> (r: Result<Fetch, DownloadError>)
    ensures
        match r {
            Ok(f) => file_path matches Some(p) && f.url@
                == crate::telegram::client::file_url_text(api@, p@) && f.total_size
                == expected_size(reported_size, entry.file_size),
            Err(DownloadError::NoFilePath) => file_path is None,
            Err(_) => false,
        },
{
    let path = match file_path {
        Some(p) => p,
        None => {
            return Err(DownloadError::NoFilePath);
        },
    };
    let url = api.file_url(path.as_str());
    if !validate_https_url(url.as_str()) {
        proof {
            crate::telegram::client::lemma_urls_are_https(api@, path@);
        }
        return Err(DownloadError::InsecureUrl(url));
    }
    let total_size = match reported_size {
        Some(s) => Some(s),
        None => entry.file_size,
    };
    Ok(Fetch { url, total_size })
}

/// With `--skip-same`, a file already on disk with exactly the expected size
/// is not downloaded again.
pub open spec fn skips(skip_same: bool, existing_len: Option<u64>, total_size: Option<u64>) -> bool {
    skip_same && existing_len is Some && total_size is Some && existing_len == total_size
}

/// Whether the file at the target (of length `existing_len`, if it exists) is
/// skipped.
pub fn should_skip(skip_same: bool, existing_len: Option<u64>, total_size: Option<u64>) -> (r: bool)
    ensures
        r == skips(skip_same, existing_len, total_size),
{
    if !skip_same {
        return false;
    }
    match (existing_len, total_size) {
        (Some(have), Some(want)) => have == want,
        _ => false,
    }
}

/// How a download starts, given what is already at the target.
#[derive(Debug, PartialEq, Eq, Structural)]
pub enum Start {
    /// Nothing there: fetch from the beginning.
    Fresh,
    /// A partial file of this many bytes: continue it.
    Resume(u64),
    /// The file is complete (at least the expected size): nothing to do; the
    /// progress shows the expected size.
    Complete(u64),
}

pub open spec fn start_of(existing_len: Option<u64>, total_size: Option<u64>) -> Start {
    match existing_len {
        None => Start::Fresh,
        Some(have) => match total_size {
            Some(want) => if have >= want {
                Start::Complete(want)
            } else {
                Start::Resume(have)
            },
            None => Start::Resume(have),
        },
    }
}

/// Refuses a symbolic link as target; otherwise decides how to start.
pub fn plan_start(is_symlink: bool, existing_len: Option<u64>, total_size: Option<u64>) -> (r:
    Result<Start, DownloadError>)
    ensures
        is_symlink ==> (r matches Err(DownloadError::SymlinkTarget)),
        !is_symlink ==> r == Ok::<Start, DownloadError>(start_of(existing_len, total_size)),
{
    if is_symlink {
        return Err(DownloadError::SymlinkTarget);
    }
    match existing_len {
        None => Ok(Start::Fresh),
        Some(have) => match total_size {
            Some(want) => if have >= want {
                Ok(Start::Complete(want))
            } else {
                Ok(Start::Resume(have))
            },
            None => Ok(Start::Resume(have)),
        },
    }
}

/// The hardened curl options that every download uses: follow redirects
/// (at most 5), fail on HTTP errors, silent, HTTPS only, 30 s to connect.
pub open spec fn curl_base_args() -> Seq<Seq<char>> {
    seq![
        "-L"@,
        "-f"@,
        "-s"@,
        "--proto"@,
        "=https"@,
        "--max-redirs"@,
        "5"@,
        "--connect-timeout"@,
        "30"@,
        "--max-time"@,
        "3600"@,
    ]
}

/// The curl arguments of a download: the base options, 3 retries 2 s apart,
/// the output file, `-C -` when resuming, and the URL last.
pub open spec fn curl_args_of(url: Seq<char>, output: Seq<char>, resume: bool) -> Seq<Seq<char>> {
    curl_base_args() + seq!["--retry"@, "3"@, "--retry-delay"@, "2"@, "-o"@, output] + (if resume {
        seq!["-C"@, "-"@]
    } else {
        Seq::empty()
    }) + seq![url]
}

/// The curl arguments of the single retry without resuming: the base options,
/// the output file and the URL.
pub open spec fn retry_args_of(url: Seq<char>, output: Seq<char>) -> Seq<Seq<char>> {
    curl_base_args() + seq!["-o"@, output, url]
}

pub open spec fn string_views(v: Seq<String>) -> Seq<Seq<char>> {
    v.map_values(|s: String| s@)
}

fn push_arg(args: &mut Vec<String>, a: &str)
    ensures
        string_views(final(args)@) == string_views(old(args)@).push(a@),
{
    args.push(String::from_str(a));
    assert(string_views(final(args)@) =~= string_views(old(args)@).push(a@));
}

fn base_args() -> (args: Vec<String>)
    ensures
        string_views(args@) == curl_base_args(),
{
    let mut args: Vec<String> = Vec::new();
    push_arg(&mut args, "-L");
    push_arg(&mut args, "-f");
    push_arg(&mut args, "-s");
    push_arg(&mut args, "--proto");
    push_arg(&mut args, "=https");
    push_arg(&mut args, "--max-redirs");
    push_arg(&mut args, "5");
    push_arg(&mut args, "--connect-timeout");
    push_arg(&mut args, "30");
    push_arg(&mut args, "--max-time");
    push_arg(&mut args, "3600");
    assert(string_views(args@) =~= curl_base_args());
    args
}

/// The arguments for curl (see `curl_args_of`).
pub fn curl_args(url: &str, output: &str, resume: bool) -> (r: Vec<String>)
    ensures
        string_views(r@) == curl_args_of(url@, output@, resume),
{
    let mut args = base_args();
    push_arg(&mut args, "--retry");
    push_arg(&mut args, "3");
    push_arg(&mut args, "--retry-delay");
    push_arg(&mut args, "2");
    push_arg(&mut args, "-o");
    push_arg(&mut args, output);
    if resume {
        push_arg(&mut args, "-C");
        push_arg(&mut args, "-");
    }
    push_arg(&mut args, url);
    assert(string_views(args@) =~= curl_args_of(url@, output@, resume));
    args
}

/// The arguments for the retry without resuming (see `retry_args_of`).
pub fn retry_args(url: &str, output: &str) -> (r: Vec<String>)
    ensures
        string_views(r@) == retry_args_of(url@, output@),
{
    let mut args = base_args();
    push_arg(&mut args, "-o");
    push_arg(&mut args, output);
    push_arg(&mut args, url);
    assert(string_views(args@) =~= retry_args_of(url@, output@));
    args
}

/// What to do once curl has exited.
#[derive(Debug, PartialEq, Eq, Structural)]
pub enum AfterCurl {
    Done,
    /// The server refused the range (curl's exit code 33) of a resumed
    /// download: fetch once more from the start.
    RetryWithoutResume,
    Failed(i32),
}

/// The exit code as reported, -1 when curl died by a signal.
pub open spec fn exit_code(code: Option<i32>) -> i32 {
    match code {
        Some(c) => c,
        None => -1i32,
    }
}

pub open spec fn after_curl_of(success: bool, code: Option<i32>, resumed: bool) -> AfterCurl {
    if success {
        AfterCurl::Done
    } else if exit_code(code) == 33 && resumed {
        AfterCurl::RetryWithoutResume
    } else {
        AfterCurl::Failed(exit_code(code))
    }
}

/// Reads curl's exit status (see `after_curl_of`).
pub fn after_curl(success: bool, code: Option<i32>, resumed: bool) -> (r: AfterCurl)
    ensures
        r == after_curl_of(success, code, resumed),
{
    if success {
        return AfterCurl::Done;
    }
    let c = match code {
        Some(c) => c,
        None => -1,
    };
    if c == 33 && resumed {
        AfterCurl::RetryWithoutResume
    } else {
        AfterCurl::Failed(c)
    }
}

/// Reads the exit status of the retry: success, or the failure with its code.
pub fn after_retry(success: bool, code: Option<i32>) -> (r: Result<(), DownloadError>)
    ensures
        success ==> r is Ok,
        !success ==> (r matches Err(DownloadError::CurlFailed(c)) && c == exit_code(code)),
{
    if success {
        Ok(())
    } else {
        match code {
            Some(c) => Err(DownloadError::CurlFailed(c)),
            None => Err(DownloadError::CurlFailed(-1)),
        }
    }
}

/// Counts of a finished run.
pub struct Tally {
    pub succeeded: u64,
    pub failed: u64,
}

pub open spec fn count_true(s: Seq<bool>) -> nat
    decreases s.len(),
{
    if s.len() == 0 {
        0
    } else {
        count_true(s.drop_last()) + if s.last() {
            1nat
        } else {
            0nat
        }
    }
}

/// Counts the downloads that succeeded and those that failed.
pub fn tally(outcomes: &Vec<bool>) -> (r: Tally)
    ensures
        r.succeeded == count_true(outcomes@),
        r.failed == outcomes@.len() - count_true(outcomes@),
{
    let mut succeeded: u64 = 0;
    let mut failed: u64 = 0;
    let mut i: usize = 0;
    while i < outcomes.len()
        invariant
            i <= outcomes.len(),
            succeeded == count_true(outcomes@.take(i as int)),
            failed == i - count_true(outcomes@.take(i as int)),
            succeeded + failed == i,
            i <= usize::MAX,
        decreases outcomes.len() - i,
    {
        assert(outcomes@.take(i + 1).drop_last() =~= outcomes@.take(i as int));
        if outcomes[i] {
            succeeded = succeeded + 1;
        } else {
            failed = failed + 1;
        }
        i = i + 1;
    }
    assert(outcomes@.take(i as int) =~= outcomes@);
    Tally { succeeded, failed }
}

/// A name cut to at most `max` bytes: unchanged when it fits, otherwise its
/// first `max - 1` bytes and `…`.
pub open spec fn truncated(s: Seq<char>, max: int) -> Seq<char> {
    if byte_len(s) <= max {
        s
    } else {
        s.take(chars_in_bytes(s, max - 1)) + seq!['\u{2026}']
    }
}

/// `truncate_name` does not panic: a name longer than `max` bytes is cut at a
/// character boundary (and `max` is not 0).
pub open spec fn truncate_defined(s: Seq<char>, max: int) -> bool {
    byte_len(s) > max ==> max >= 1 && is_byte_boundary(s, max - 1)
}

/// Shortens a name for a progress line (see `truncated`).
pub fn truncate_name(name: &str, max: usize) -> (r: String)
    requires
        truncate_defined(name@, max as int),
    ensures
        r@ == truncated(name@, max as int),
{
    let v = chars_of(name);
    let n = byte_length(&v);
    if n <= max as u128 {
        return String::from_str(name);
    }
    match char_index_at_byte(&v, (max - 1) as u128) {
        Some(j) => {
            proof {
                lemma_chars_in_bytes_unique(v@, max - 1, j as int);
            }
            let mut s = string_from_range(&v, 0, j);
            push_char(&mut s, '\u{2026}');
            assert(v@.subrange(0, j as int) =~= v@.take(j as int));
            s
        },
        None => {
            proof {
                assert(false);
            }
            String::new()
        },
    }
}

/// curl is told to speak HTTPS only, to follow at most five redirects and to
/// write to the output path; the URL comes last, so no later option can
/// override these. This holds of the first attempt, resumed or not, and of
/// the retry from the start.
pub proof fn lemma_curl_is_hardened(url: Seq<char>, output: Seq<char>, resume: bool)
    ensures
        ({
            let a = curl_args_of(url, output, resume);
            &&& a[3] == "--proto"@ && a[4] == "=https"@
            &&& a[5] == "--max-redirs"@ && a[6] == "5"@
            &&& a[15] == "-o"@ && a[16] == output
            &&& a.last() == url
        }),
        ({
            let a = retry_args_of(url, output);
            &&& a[3] == "--proto"@ && a[4] == "=https"@
            &&& a[5] == "--max-redirs"@ && a[6] == "5"@
            &&& a[11] == "-o"@ && a[12] == output
            &&& a.last() == url
        }),
{
    let a = curl_args_of(url, output, resume);
    let tail = seq!["--retry"@, "3"@, "--retry-delay"@, "2"@, "-o"@, output];
    let opt: Seq<Seq<char>> = if resume {
        seq!["-C"@, "-"@]
    } else {
        Seq::empty()
    };
    assert(a == curl_base_args() + tail + opt + seq![url]);
    assert((curl_base_args() + tail)[16] == tail[5]);
    let b = retry_args_of(url, output);
    assert(b[12] == output);
}

/// The unique ids of the files a run marks as downloaded, in order: none in a
/// dry run; otherwise those of the files that were not skipped and that curl
/// fetched.
pub open spec fn marked_ids(dry_run: bool, ids: Seq<String>, skipped: Seq<bool>, fetched: Seq<bool>) -> Seq<
    Seq<char>,
>
    decreases ids.len(),
{
    if dry_run || ids.len() == 0 {
        Seq::empty()
    } else {
        let rest = marked_ids(dry_run, ids.drop_last(), skipped.drop_last(), fetched.drop_last());
        if !skipped.last() && fetched.last() {
            rest.push(ids.last()@)
        } else {
            rest
        }
    }
}

/// The files a run marks as downloaded (see `marked_ids`): `ids[k]` was
/// skipped when `skipped[k]`, and fetched when `fetched[k]`.
pub fn run_marks(dry_run: bool, ids: &Vec<String>, skipped: &Vec<bool>, fetched: &Vec<bool>) -> (r:
    Vec<String>)
    requires
        ids@.len() == skipped@.len(),
        ids@.len() == fetched@.len(),
    ensures
        string_views(r@) == marked_ids(dry_run, ids@, skipped@, fetched@),
{
    let mut out: Vec<String> = Vec::new();
    if dry_run {
        assert(string_views(out@) =~= Seq::<Seq<char>>::empty());
        return out;
    }
    let mut i: usize = 0;
    assert(string_views(out@) =~= marked_ids(
        dry_run,
        ids@.take(0),
        skipped@.take(0),
        fetched@.take(0),
    ));
    while i < ids.len()
        invariant
            !dry_run,
            i <= ids.len(),
            ids@.len() == skipped@.len(),
            ids@.len() == fetched@.len(),
            string_views(out@) == marked_ids(
                dry_run,
                ids@.take(i as int),
                skipped@.take(i as int),
                fetched@.take(i as int),
            ),
        decreases ids.len() - i,
    {
        let ghost prev = string_views(out@);
        if !skipped[i] && fetched[i] {
            out.push(ids[i].clone());
            assert(string_views(out@) =~= prev.push(ids@[i as int]@));
        }
        assert(ids@.take(i + 1).drop_last() =~= ids@.take(i as int));
        assert(skipped@.take(i + 1).drop_last() =~= skipped@.take(i as int));
        assert(fetched@.take(i + 1).drop_last() =~= fetched@.take(i as int));
        i = i + 1;
    }
    assert(ids@.take(i as int) =~= ids@);
    assert(skipped@.take(i as int) =~= skipped@);
    assert(fetched@.take(i as int) =~= fetched@);
    out
}

} // verus!
