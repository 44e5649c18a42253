//! The multi-select of files to download: the label of each item and the
//! files picked. Showing the menu is the caller's.
use vstd::prelude::*;

use crate::files::catalog::{raw_name, size_text, EntryView, FileEntry};
use crate::files::filter::{ascii_upper, kind_name};
use crate::security::sanitized;

verus! {

/// `[KIND] name (size)`.
pub open spec fn label_text(e: EntryView) -> Seq<char> {
    seq!['['] + ascii_upper(kind_name(e.file_type)) + seq![']', ' '] + sanitized(raw_name(e))
        + seq![' ', '('] + match e.file_size {
        Some(b) => size_text(b as nat),
        None => seq!['u', 'n', 'k', 'n', 'o', 'w', 'n'],
    } + seq![')']
}

/// The menu item of a file: its kind in upper case, its display name and its
/// size.
pub fn selection_label(file: &FileEntry) -> (r: String)
    ensures
        r@ == label_text(file@),
{
    let mut s = String::from_str("[");
    proof {
        reveal_strlit("[");
        reveal_strlit("] ");
        reveal_strlit(" (");
        reveal_strlit(")");
    }
    s.append(file.file_type.label());
    s.append("] ");
    let name = file.display_name();
    s.append(name.as_str());
    s.append(" (");
    let size = file.display_size();
    s.append(size.as_str());
    s.append(")");
    assert(s@ =~= label_text(file@));
    s
}

/// The files at the chosen positions, in the order chosen.
pub fn picked(files: &Vec<FileEntry>, chosen: &Vec<usize>) -> (r: Vec<FileEntry>)
    requires
        forall|k: int| 0 <= k < chosen@.len() ==> chosen@[k] < files@.len(),
    ensures
        r@.len() == chosen@.len(),
        forall|k: int| 0 <= k < chosen@.len() ==> r@[k] == files@[chosen@[k] as int],
{
    let mut out: Vec<FileEntry> = Vec::new();
    let mut k: usize = 0;
    while k < chosen.len()
        invariant
            k <= chosen.len(),
            forall|m: int| 0 <= m < chosen@.len() ==> chosen@[m] < files@.len(),
            out@.len() == k,
            forall|m: int| 0 <= m < k ==> out@[m] == files@[chosen@[m] as int],
        decreases chosen.len() - k,
    {
        out.push(files[chosen[k]].duplicate());
        k = k + 1;
    }
    out
}

} // verus!
