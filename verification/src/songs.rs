//! The song-library bookkeeping around the engine: directory entries, chart
//! discovery inside a song folder, and the records handed to the caller.

use vstd::prelude::*;

use vstd::string::StrSliceExecFns;
use vstd::string::StringExecFns;

verus! {

/// One directory entry, as the file layer reports it.
pub struct DirEntryLite {
    pub name: String,
    pub is_file: bool,
    pub is_directory: bool,
}

/// Path-shape helpers shared by the services.
pub struct FileService;

/// Whether `p` is a prefix of `s`.
pub open spec fn is_prefix_of(p: Seq<char>, s: Seq<char>) -> bool {
    s.len() >= p.len() && s.subrange(0, p.len() as int) == p
}

/// Whether `p` is a suffix of `s`.
pub open spec fn is_suffix_of(p: Seq<char>, s: Seq<char>) -> bool {
    s.len() >= p.len() && s.subrange(s.len() - p.len(), s.len() as int) == p
}

/// Character-wise prefix test.
pub fn str_has_prefix(s: &str, p: &str) -> (r: bool)
    ensures
        r == is_prefix_of(p@, s@),
{
    let n = p.unicode_len();
    let m = s.unicode_len();
    if m < n {
        return false;
    }
    let mut i: usize = 0;
    while i < n
        invariant
            i <= n,
            n == p@.len(),
            m == s@.len(),
            m >= n,
            forall|j: int| 0 <= j < i ==> s@[j] == p@[j],
        decreases n - i,
    {
        if s.get_char(i) != p.get_char(i) {
            proof {
                assert(s@.subrange(0, n as int)[i as int] != p@[i as int]);
            }
            return false;
        }
        i = i + 1;
    }
    proof {
        assert(s@.subrange(0, n as int) =~= p@);
    }
    true
}

/// Character-wise suffix test.
pub fn str_has_suffix(s: &str, p: &str) -> (r: bool)
    ensures
        r == is_suffix_of(p@, s@),
{
    let n = p.unicode_len();
    let m = s.unicode_len();
    if m < n {
        return false;
    }
    let off = m - n;
    let mut i: usize = 0;
    while i < n
        invariant
            i <= n,
            n == p@.len(),
            m == s@.len(),
            m >= n,
            off == m - n,
            forall|j: int| 0 <= j < i ==> s@[off + j] == p@[j],
        decreases n - i,
    {
        if s.get_char(off + i) != p.get_char(i) {
            proof {
                assert(s@.subrange(off as int, m as int)[i as int] != p@[i as int]);
            }
            return false;
        }
        i = i + 1;
    }
    proof {
        assert(s@.subrange(off as int, m as int) =~= p@);
    }
    true
}

impl FileService {
    /// Whether the path is an Android storage-framework content URI rather
    /// than an ordinary filesystem path.
    pub fn is_content_uri(p: &str) -> (r: bool)
        ensures
            r == is_prefix_of("content://"@, p@),
    {
        str_has_prefix(p, "content://")
    }
}

/// The index of the last underscore in `s` at or before `from`, or `-1`.
pub open spec fn rfind_underscore_from(s: Seq<char>, from: int) -> int
    decreases from + 1,
{
    if from < 0 || from >= s.len() {
        -1
    } else if s[from] == '_' {
        from
    } else {
        rfind_underscore_from(s, from - 1)
    }
}

/// Finds the last underscore of a (nonempty) name, if any.
pub fn rfind_underscore(s: &str) -> (r: Option<usize>)
    ensures
        ({
            let w = rfind_underscore_from(s@, s@.len() - 1);
            &&& (r is Some ==> w == r->0 as int)
            &&& (r is None ==> w == -1)
        }),
{
    let n = s.unicode_len();
    if n == 0 {
        return None;
    }
    let mut i: usize = n - 1;
    loop
        invariant
            0 <= i < n,
            n == s@.len(),
            rfind_underscore_from(s@, n - 1) == rfind_underscore_from(s@, i as int),
        decreases i,
    {
        if s.get_char(i) == '_' {
            return Some(i);
        }
        if i == 0 {
            proof {
                assert(rfind_underscore_from(s@, -1) == -1);
            }
            return None;
        }
        i = i - 1;
    }
}

/// The records the song library hands to its caller.
pub struct Song {
    pub id: String,
    pub uploaded_at: String,
    pub uploaded_by: String,
    pub title: String,
    pub artist: String,
    pub downloads: Option<u64>,
    pub cover_url: Option<String>,
    pub difficulties: Vec<String>,
    pub download_url: Option<String>,
}

/// A song found on disk: its assembled record and the path stem its chart
/// files share.
pub struct LocalSong {
    pub song: Option<Song>,
    pub base_file_name: String,
}

/// The fields the library reads from a parsed chart's recording metadata;
/// the shell parses the chart file and hands these over as plain strings.
pub struct SongMeta {
    pub title: String,
    pub artist: String,
    pub creator: String,
    pub cover_image_path: String,
}

/// Everything the shell gathered about one song directory: its name, its
/// entries, and the metadata parsed from its first chart file (when one
/// exists and parsed).
pub struct ScannedSongDir {
    pub name: String,
    pub entries: Vec<DirEntryLite>,
    pub meta: Option<SongMeta>,
}

/// Relies on `uuid::Uuid::new_v4` and its `Display` form: a fresh random
/// version-4 UUID printed in the 36-character hyphenated form. The value
/// depends on the process's randomness, so only its length is promised.
#[verifier::external_body]
fn fresh_song_id() -> (r: String)
    ensures
        r@.len() == 36,
{
    uuid::Uuid::new_v4().to_string()
}

/// Relies on `chrono::Utc::now().to_rfc3339`: the current wall-clock time
/// printed in RFC 3339 form. The value depends on the clock, so nothing is
/// promised of it.
#[verifier::external_body]
fn current_timestamp_rfc3339() -> (r: String) {
    chrono::Utc::now().to_rfc3339()
}

/// Whether a directory entry is a chart file.
pub open spec fn is_rlrr(e: DirEntryLite) -> bool {
    e.is_file && is_suffix_of(".rlrr"@, e.name@)
}

/// The first chart file at or after `from`, or `-1`.
pub open spec fn first_rlrr(entries: Seq<DirEntryLite>, from: int) -> int
    decreases entries.len() - from,
{
    if from < 0 || from >= entries.len() {
        -1
    } else if is_rlrr(entries[from]) {
        from
    } else {
        first_rlrr(entries, from + 1)
    }
}

/// Where a chart file's name splits into stem and difficulty: at its last
/// underscore, or at the very front when it has none.
pub open spec fn base_cut(name: Seq<char>) -> int {
    let w = rfind_underscore_from(name, name.len() - 1);
    if w >= 0 {
        w
    } else {
        0
    }
}

/// A chart file's shared stem: everything before the last underscore.
pub open spec fn chart_base(name: Seq<char>) -> Seq<char> {
    name.subrange(0, base_cut(name))
}

/// A chart file's difficulty: what stands between the last underscore and
/// the `.rlrr` ending, with an empty difficulty read as `Easy`.
pub open spec fn chart_difficulty(name: Seq<char>) -> Seq<char> {
    let d = name.subrange(base_cut(name) + 1, name.len() - 5);
    if d.len() == 0 {
        "Easy"@
    } else {
        d
    }
}

/// The difficulties of all chart files among the entries, in order.
pub open spec fn difficulties_of(entries: Seq<DirEntryLite>) -> Seq<Seq<char>>
    decreases entries.len(),
{
    if entries.len() == 0 {
        Seq::empty()
    } else {
        let rest = difficulties_of(entries.drop_last());
        if is_rlrr(entries.last()) {
            rest.push(chart_difficulty(entries.last().name@))
        } else {
            rest
        }
    }
}

/// A stretch of characters without underscores does not move the search.
proof fn lemma_rfind_skips(s: Seq<char>, from: int, lo: int)
    requires
        lo <= from < s.len(),
        forall|j: int| lo < j <= from ==> s[j] != '_',
    ensures
        rfind_underscore_from(s, from) == rfind_underscore_from(s, lo),
    decreases from - lo,
{
    if from > lo {
        lemma_rfind_skips(s, from - 1, lo);
    }
}

/// A chart file's name splits cleanly: the cut lies before the `.rlrr`
/// ending, so both the stem and the difficulty are well-defined ranges.
proof fn lemma_base_cut_in_range(name: Seq<char>)
    requires
        is_suffix_of(".rlrr"@, name),
        name.len() >= 6,
    ensures
        0 <= base_cut(name),
        base_cut(name) + 1 <= name.len() - 5,
{
    reveal_strlit(".rlrr");
    let n = name.len() as int;
    assert forall|j: int| n - 5 - 1 < j <= n - 1 && j < n implies name[j] != '_' by {
        assert(name.subrange(n - 5, n)[j - (n - 5)] == name[j]);
    }
    lemma_rfind_skips(name, n - 1, n - 6);
    assert(rfind_underscore_from(name, n - 1) == rfind_underscore_from(name, n - 6));
    if rfind_underscore_from(name, n - 6) >= 0 {
        lemma_rfind_bounded(name, n - 6);
    }
}

/// The search never reports an index past where it started.
proof fn lemma_rfind_bounded(s: Seq<char>, from: int)
    requires
        -1 <= from,
    ensures
        rfind_underscore_from(s, from) <= from,
    decreases from + 1,
{
    if from < 0 || from >= s.len() {
    } else if s[from] == '_' {
    } else {
        lemma_rfind_bounded(s, from - 1);
    }
}

/// The chart-file search yields `-1` or an index within the entries.
proof fn lemma_first_rlrr_range(entries: Seq<DirEntryLite>, from: int)
    requires
        0 <= from,
    ensures
        first_rlrr(entries, from) == -1 || from <= first_rlrr(entries, from) < entries.len(),
    decreases entries.len() - from,
{
    if from < entries.len() && !is_rlrr(entries[from]) {
        lemma_first_rlrr_range(entries, from + 1);
    }
}

/// What the library promises of a song record assembled from a scanned
/// directory with chart files and parsed metadata: the stem, cover path,
/// metadata strings and difficulty list are pinned exactly; the identifier
/// is a fresh 36-character UUID and the upload stamp comes from the clock.
pub open spec fn local_song_matches(
    ls: LocalSong,
    songs_path: Seq<char>,
    dir: Seq<char>,
    entries: Seq<DirEntryLite>,
    meta: SongMeta,
) -> bool {
    let f = first_rlrr(entries, 0);
    &&& ls.base_file_name@ == dir + "/"@ + chart_base(entries[f].name@)
    &&& ls.song matches Some(s) && {
        &&& s.title@ == meta.title@
        &&& s.artist@ == meta.artist@
        &&& s.uploaded_by@ == meta.creator@
        &&& s.cover_url matches Some(u) && u@ == songs_path + "/"@ + dir + "/"@
            + meta.cover_image_path@
        &&& s.downloads is None
        &&& s.download_url is None
        &&& s.id@.len() == 36
        &&& s.difficulties@.map_values(|d: String| d@) == difficulties_of(entries)
    }
}

/// Whether a scanned directory yields a song: it holds a chart file and its
/// metadata parsed.
pub open spec fn wants_song(scan: ScannedSongDir) -> bool {
    first_rlrr(scan.entries@, 0) >= 0 && scan.meta is Some
}

/// How many of the first `to` scans yield a song.
pub open spec fn wanted_count(scans: Seq<ScannedSongDir>, to: int) -> int
    decreases to,
{
    if to <= 0 {
        0
    } else {
        wanted_count(scans, to - 1) + if wants_song(scans[to - 1]) {
            1int
        } else {
            0int
        }
    }
}

/// The index of the `k`-th song-yielding scan at or after `from`, or `-1`.
pub open spec fn nth_wanted(scans: Seq<ScannedSongDir>, k: int, from: int) -> int
    decreases scans.len() - from,
{
    if from < 0 || from >= scans.len() {
        -1
    } else if wants_song(scans[from]) {
        if k == 0 {
            from
        } else {
            nth_wanted(scans, k - 1, from + 1)
        }
    } else {
        nth_wanted(scans, k, from + 1)
    }
}

/// Counting never shrinks along a prefix.
proof fn lemma_wanted_count_monotone(scans: Seq<ScannedSongDir>, a: int, b: int)
    requires
        a <= b,
    ensures
        wanted_count(scans, a) <= wanted_count(scans, b),
    decreases b - a,
{
    if a < b {
        lemma_wanted_count_monotone(scans, a, b - 1);
    }
}

/// The scan at `i`, when it yields a song, is found by the selector at the
/// count of song-yielding scans before it.
proof fn lemma_nth_wanted_at(scans: Seq<ScannedSongDir>, i: int, from: int)
    requires
        0 <= from <= i < scans.len(),
        wants_song(scans[i]),
    ensures
        nth_wanted(scans, wanted_count(scans, i) - wanted_count(scans, from), from) == i,
    decreases i - from,
{
    if from == i {
    } else {
        lemma_nth_wanted_at(scans, i, from + 1);
        if wants_song(scans[from]) {
            lemma_wanted_count_monotone(scans, from + 1, i);
        }
    }
}

/// The `k`-th produced song record is exactly the record of the `k`-th
/// song-yielding scan.
pub open spec fn good_song_entry(
    ls: LocalSong,
    songs_path: Seq<char>,
    scans: Seq<ScannedSongDir>,
    k: int,
) -> bool {
    let j = nth_wanted(scans, k, 0);
    &&& 0 <= j < scans.len()
    &&& wants_song(scans[j])
    &&& local_song_matches(ls, songs_path, scans[j].name@, scans[j].entries@, scans[j].meta->0)
}

/// The song-library service.
pub struct SongsService;

impl SongsService {
    /// The folder-name prefix under which a repository's song is stored.
    pub fn get_song_folder_prefix(song_id: &str, repo_name: &str) -> (r: String)
        ensures
            r@ == repo_name@ + "-"@ + song_id@ + "-"@,
    {
        let mut s = String::from_str(repo_name);
        s.append("-");
        s.append(song_id);
        s.append("-");
        s
    }

    /// The compute half of ensuring the songs directory exists: the shell
    /// performs the creation and reports a failure message or success; this
    /// folds that report into the public result.
    pub fn ensure_dir(failure: Option<String>) -> (r: Result<(), String>)
        ensures
            failure is None <==> r is Ok,
            failure is Some ==> (r matches Err(m) && m == failure->0),
    {
        match failure {
            None => Ok(()),
            Some(m) => Err(m),
        }
    }

    /// The compute half of deleting a song folder: deleting an absent
    /// folder succeeds outright; otherwise the file layer's report of the
    /// recursive removal decides.
    pub fn delete_song(existed: bool, removal_failure: Option<String>) -> (r: Result<(), String>)
        ensures
            !existed ==> r is Ok,
            existed ==> (removal_failure is None <==> r is Ok),
            existed && removal_failure is Some ==> (r matches Err(m) && m == removal_failure->0),
    {
        if !existed {
            Ok(())
        } else {
            match removal_failure {
                None => Ok(()),
                Some(m) => Err(m),
            }
        }
    }

    /// Assembles one song from a scanned directory. The shell reads the
    /// directory and parses the first chart file's metadata; this builds
    /// the record: the stem before the last underscore names the song's
    /// files, every chart file contributes its difficulty, the cover path
    /// is the chart's cover image inside the directory, and the record gets
    /// a fresh identifier and an upload stamp from the clock. A directory
    /// without chart files, or whose metadata the shell could not supply,
    /// yields nothing.
    pub fn load_song(
        songs_path: &str,
        song_dir_name: &str,
        entries: &Vec<DirEntryLite>,
        meta: Option<&SongMeta>,
    ) -> (r: Option<LocalSong>)
        requires
            forall|i: int|
                0 <= i < entries@.len() && is_rlrr(#[trigger] entries@[i]) ==> entries@[i].name@.len()
                    >= 6,
        ensures
            first_rlrr(entries@, 0) == -1 ==> r is None,
            (first_rlrr(entries@, 0) >= 0 && meta is None) ==> r is None,
            (first_rlrr(entries@, 0) >= 0 && meta is Some) ==> (r matches Some(ls)
                && local_song_matches(ls, songs_path@, song_dir_name@, entries@, *meta->0)),
    {
        let n = entries.len();
        let mut f: usize = 0;
        let mut found = false;
        while f < n && !found
            invariant
                f <= n,
                n == entries@.len(),
                !found ==> first_rlrr(entries@, 0) == first_rlrr(entries@, f as int),
                found ==> 0 <= first_rlrr(entries@, 0) == f < n,
                found ==> is_rlrr(entries@[f as int]),
            decreases n - f + if found {
                0int
            } else {
                1int
            },
        {
            let e = &entries[f];
            if e.is_file && str_has_suffix(e.name.as_str(), ".rlrr") {
                found = true;
            } else {
                f = f + 1;
            }
        }
        if !found {
            return None;
        }
        let m = match meta {
            Some(m) => m,
            None => {
                return None;
            },
        };
        let ghost fr = f as int;
        proof {
            assert(is_rlrr(entries@[fr]));
            assert(entries@[fr].name@.len() >= 6);
        }
        // the shared stem of the song's chart files
        let first_name = entries[f].name.as_str();
        let cut: usize = match rfind_underscore(first_name) {
            Some(w) => w,
            None => 0,
        };
        proof {
            lemma_base_cut_in_range(first_name@);
            assert(cut as int == base_cut(first_name@));
        }
        let base = first_name.substring_char(0, cut);
        let mut base_file_name = String::from_str(song_dir_name);
        base_file_name.append("/");
        base_file_name.append(base);
        // one difficulty per chart file
        let mut difficulties: Vec<String> = Vec::new();
        let mut i: usize = 0;
        while i < n
            invariant
                i <= n,
                n == entries@.len(),
                forall|j: int|
                    0 <= j < n && is_rlrr(#[trigger] entries@[j]) ==> entries@[j].name@.len() >= 6,
                difficulties@.map_values(|d: String| d@) =~= difficulties_of(
                    entries@.subrange(0, i as int),
                ),
            decreases n - i,
        {
            let e = &entries[i];
            if e.is_file && str_has_suffix(e.name.as_str(), ".rlrr") {
                let nm = e.name.as_str();
                let len = nm.unicode_len();
                let w: usize = match rfind_underscore(nm) {
                    Some(w) => w,
                    None => 0,
                };
                proof {
                    lemma_base_cut_in_range(nm@);
                    assert(w as int == base_cut(nm@));
                }
                let d = nm.substring_char(w + 1, len - 5);
                let ds: String = if d.is_empty() {
                    String::from_str("Easy")
                } else {
                    d.to_owned()
                };
                difficulties.push(ds);
            }
            proof {
                assert(entries@.subrange(0, i as int + 1).drop_last() =~= entries@.subrange(
                    0,
                    i as int,
                ));
                assert(entries@.subrange(0, i as int + 1).last() == entries@[i as int]);
            }
            i = i + 1;
        }
        proof {
            assert(entries@.subrange(0, n as int) =~= entries@);
        }
        // the record itself
        let mut cover = String::from_str(songs_path);
        cover.append("/");
        cover.append(song_dir_name);
        cover.append("/");
        cover.append(m.cover_image_path.as_str());
        let song = Song {
            id: fresh_song_id(),
            uploaded_at: current_timestamp_rfc3339(),
            uploaded_by: m.creator.clone(),
            title: m.title.clone(),
            artist: m.artist.clone(),
            downloads: None,
            cover_url: Some(cover),
            difficulties,
            download_url: None,
        };
        Some(LocalSong { song: Some(song), base_file_name })
    }

    /// Assembles the song list from everything the shell scanned below the
    /// songs folder: each directory that holds a chart file with parsed
    /// metadata yields one song, in scan order; the others are skipped.
    pub fn get_local_songs(songs_path: &str, scans: &Vec<ScannedSongDir>) -> (r: Vec<LocalSong>)
        requires
            forall|k: int, i: int|
                0 <= k < scans@.len() && 0 <= i < scans@[k].entries@.len() && is_rlrr(
                    #[trigger] scans@[k].entries@[i],
                ) ==> scans@[k].entries@[i].name@.len() >= 6,
        ensures
            r@.len() == wanted_count(scans@, scans@.len() as int),
            forall|k: int|
                0 <= k < r@.len() ==> good_song_entry(#[trigger] r@[k], songs_path@, scans@, k),
    {
        let mut out: Vec<LocalSong> = Vec::new();
        let n = scans.len();
        let mut i: usize = 0;
        while i < n
            invariant
                i <= n,
                n == scans@.len(),
                forall|k: int, jj: int|
                    0 <= k < scans@.len() && 0 <= jj < scans@[k].entries@.len() && is_rlrr(
                        #[trigger] scans@[k].entries@[jj],
                    ) ==> scans@[k].entries@[jj].name@.len() >= 6,
                out@.len() == wanted_count(scans@, i as int),
                forall|k: int|
                    0 <= k < out@.len() ==> good_song_entry(
                        #[trigger] out@[k],
                        songs_path@,
                        scans@,
                        k,
                    ),
            decreases n - i,
        {
            let scan = &scans[i];
            let loaded = Self::load_song(
                songs_path,
                scan.name.as_str(),
                &scan.entries,
                match &scan.meta {
                    Some(m) => Some(m),
                    None => None,
                },
            );
            proof {
                lemma_first_rlrr_range(scan.entries@, 0);
            }
            match loaded {
                Some(ls) => {
                    proof {
                        assert(wants_song(scans@[i as int]));
                        lemma_nth_wanted_at(scans@, i as int, 0);
                        assert(nth_wanted(scans@, wanted_count(scans@, i as int), 0)
                            == i as int);
                        assert(local_song_matches(
                            ls,
                            songs_path@,
                            scans@[i as int].name@,
                            scans@[i as int].entries@,
                            scans@[i as int].meta->0,
                        ));
                    }
                    let ghost out_prev = out@;
                    out.push(ls);
                    proof {
                        assert forall|k: int| 0 <= k < out@.len() implies good_song_entry(
                            #[trigger] out@[k],
                            songs_path@,
                            scans@,
                            k,
                        ) by {
                            if k < out@.len() - 1 {
                                assert(out@[k] == out_prev[k]);
                                assert(good_song_entry(out_prev[k], songs_path@, scans@, k));
                            } else {
                                assert(out@[k] == ls);
                                assert(k == wanted_count(scans@, i as int));
                                assert(nth_wanted(scans@, k, 0) == i as int);
                            }
                        }
                    }
                },
                None => {
                    proof {
                        assert(!wants_song(scans@[i as int]));
                    }
                },
            }
            i = i + 1;
        }
        out
    }
}

} // verus!
