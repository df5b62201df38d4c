//! The decisions of the song-download pipeline: when a download may start,
//! whether a song is already on disk, and which single top-level folder a
//! downloaded archive carries. The network, filesystem and archive work
//! itself lives in the shell, which hands the facts in as plain values.

use vstd::prelude::*;

use crate::songs::{is_prefix_of, DirEntryLite};
use vstd::string::StrSliceExecFns;
use vstd::string::StringExecFns;

verus! {

/// Whether any directory under the destination root already carries the
/// song's key as a name prefix.
pub open spec fn some_dir_has_prefix(entries: Seq<DirEntryLite>, key: Seq<char>) -> bool {
    exists|i: int|
        0 <= i < entries.len() && (#[trigger] entries[i]).is_directory && is_prefix_of(
            key,
            entries[i].name@,
        )
}

/// Scans a destination root's listing for a directory whose name starts
/// with the song's key: such a directory means the song is already there.
pub fn has_existing_with_key_prefix(entries: &Vec<DirEntryLite>, key: &str) -> (r: bool)
    ensures
        r == some_dir_has_prefix(entries@, key@),
{
    let n = entries.len();
    let mut i: usize = 0;
    while i < n
        invariant
            i <= n,
            n == entries@.len(),
            forall|j: int|
                0 <= j < i ==> !((#[trigger] entries@[j]).is_directory && is_prefix_of(
                    key@,
                    entries@[j].name@,
                )),
        decreases n - i,
    {
        let e = &entries[i];
        if e.is_directory && crate::songs::str_has_prefix(e.name.as_str(), key) {
            return true;
        }
        i = i + 1;
    }
    false
}

/// Whether a string is nothing but trimmable whitespace.
pub open spec fn all_ws(s: Seq<char>) -> bool {
    forall|i: int| 0 <= i < s.len() ==> crate::textdec::is_ws(#[trigger] s[i])
}

/// Executable blank test.
fn is_blank(s: &str) -> (r: bool)
    ensures
        r == all_ws(s@),
{
    let n = s.unicode_len();
    let mut i: usize = 0;
    while i < n
        invariant
            i <= n,
            n == s@.len(),
            forall|j: int| 0 <= j < i ==> crate::textdec::is_ws(#[trigger] s@[j]),
        decreases n - i,
    {
        let c = s.get_char(i);
        if !(c == ' ' || c == '\t' || c == '\n' || c == '\r') {
            return false;
        }
        i = i + 1;
    }
    true
}

/// Decides whether a download may start: the key, URL and destination must
/// not be blank, the song must not already sit under the destination, and
/// no download for the same key may be running. The first failed check
/// names the error, in this order.
pub fn download_start_checks(
    key: &str,
    download_url: &str,
    dest_root: &str,
    already_present: bool,
    already_running: bool,
) -> (r: Result<(), String>)
    ensures
        r is Ok <==> (!all_ws(key@) && !all_ws(download_url@) && !all_ws(dest_root@)
            && !already_present && !already_running),
        all_ws(key@) ==> (r matches Err(m) && m@ == "empty key"@),
        (!all_ws(key@) && all_ws(download_url@)) ==> (r matches Err(m) && m@
            == "empty download_url"@),
        (!all_ws(key@) && !all_ws(download_url@) && all_ws(dest_root@)) ==> (r matches Err(m)
            && m@ == "empty dest_root"@),
        (!all_ws(key@) && !all_ws(download_url@) && !all_ws(dest_root@) && already_present) ==> (
        r matches Err(m) && m@ == "Song '"@ + key@ + "' is already downloaded in "@
            + dest_root@),
        (!all_ws(key@) && !all_ws(download_url@) && !all_ws(dest_root@) && !already_present
            && already_running) ==> (r matches Err(m) && m@
            == "A download is already in progress for '"@ + key@ + "'"@),
{
    if is_blank(key) {
        return Err(String::from_str("empty key"));
    }
    if is_blank(download_url) {
        return Err(String::from_str("empty download_url"));
    }
    if is_blank(dest_root) {
        return Err(String::from_str("empty dest_root"));
    }
    if already_present {
        let mut m = String::from_str("Song '");
        m.append(key);
        m.append("' is already downloaded in ");
        m.append(dest_root);
        return Err(m);
    }
    if already_running {
        let mut m = String::from_str("A download is already in progress for '");
        m.append(key);
        m.append("'");
        return Err(m);
    }
    Ok(())
}

/// The index of the first slash in `s` at or after `from`, or the length.
pub open spec fn first_slash_from(s: Seq<char>, from: int) -> int
    decreases s.len() - from,
{
    if from < 0 || from >= s.len() {
        s.len() as int
    } else if s[from] == '/' {
        from
    } else {
        first_slash_from(s, from + 1)
    }
}

/// An archive entry's top-level component: everything before its first
/// slash.
pub open spec fn top_of(name: Seq<char>) -> Seq<char> {
    name.subrange(0, first_slash_from(name, 0))
}

/// Whether an entry contributes a top-level folder name: it is nonempty
/// and not the resource folder some archives carry along.
pub open spec fn counts_as_top(name: Seq<char>) -> bool {
    top_of(name).len() > 0 && top_of(name) != "__MACOSX"@
}

/// The top-level component of one archive entry name.
fn top_component(name: &str) -> (r: String)
    ensures
        r@ == top_of(name@),
{
    let n = name.unicode_len();
    let mut i: usize = 0;
    while i < n
        invariant
            i <= n,
            n == name@.len(),
            first_slash_from(name@, 0) == first_slash_from(name@, i as int),
        decreases n - i,
    {
        if name.get_char(i) == '/' {
            return name.substring_char(0, i).to_owned();
        }
        i = i + 1;
    }
    proof {
        assert(name@.subrange(0, n as int) =~= name@);
    }
    name.substring_char(0, n).to_owned()
}

/// Picks the single top-level folder all the archive's entries share.
/// Succeeds with that folder's name exactly when every contributing entry
/// agrees on it; an archive without any contributing entry, or with two
/// different top-level names, is rejected.
pub fn detect_zip_primary_top_level_dir(names: &Vec<String>) -> (r: Result<String, String>)
    ensures
        (r matches Ok(t) ==> ({
            &&& exists|i: int|
                0 <= i < names@.len() && counts_as_top(#[trigger] names@[i]@) && top_of(
                    names@[i]@,
                ) == t@
            &&& forall|i: int|
                0 <= i < names@.len() && counts_as_top(#[trigger] names@[i]@) ==> top_of(
                    names@[i]@,
                ) == t@
        })),
        (forall|i: int| 0 <= i < names@.len() ==> !counts_as_top(#[trigger] names@[i]@)) ==> (
        r matches Err(m) && m@ == "ZIP appears empty"@),
        ((exists|i: int, j: int|
            0 <= i < names@.len() && 0 <= j < names@.len() && counts_as_top(
                #[trigger] names@[i]@,
            ) && counts_as_top(#[trigger] names@[j]@) && top_of(names@[i]@) != top_of(
                names@[j]@,
            ))) ==> (r matches Err(m) && m@ == "ZIP has multiple top-level entries"@),
{
    let n = names.len();
    let mut first: Option<String> = None;
    let ghost mut first_at: int = 0;
    let mut i: usize = 0;
    while i < n
        invariant
            i <= n,
            n == names@.len(),
            first is None ==> forall|j: int|
                0 <= j < i ==> !counts_as_top(#[trigger] names@[j]@),
            first matches Some(t) ==> {
                &&& 0 <= first_at < i
                &&& counts_as_top(names@[first_at]@)
                &&& top_of(names@[first_at]@) == t@
                &&& forall|j: int|
                    0 <= j < i && counts_as_top(#[trigger] names@[j]@) ==> top_of(names@[j]@)
                        == t@
            },
        decreases n - i,
    {
        let name = &names[i];
        let top = top_component(name.as_str());
        let skip = top.as_str().unicode_len() == 0 || {
            let mac = String::from_str("__MACOSX");
            top == mac
        };
        proof {
            reveal_strlit("__MACOSX");
        }
        if !skip {
            match &first {
                None => {
                    first = Some(top);
                    proof {
                        first_at = i as int;
                    }
                },
                Some(t) => {
                    if !(top == *t) {
                        return Err(String::from_str("ZIP has multiple top-level entries"));
                    }
                },
            }
        }
        i = i + 1;
    }
    match first {
        None => Err(String::from_str("ZIP appears empty")),
        Some(t) => Ok(t),
    }
}

} // verus!
