//! Decisions taken on the entries of a folder: which entries a copy skips, which
//! database files get renamed, and whether a folder holds a Quantframe save.
use vstd::prelude::*;
use crate::paths::{KUANTFRAME_DB_STEM, QUANTFRAME_DB_STEM};
use crate::text::{ascii_case_eq, ascii_fold, concat2, eq_ignore_ascii_case, has_prefix, strip_prefix};

verus! {

/// The folder that the copy of a save leaves out (the embedded browser's data).
pub const SKIPPED_DIR_NAME: &'static str = "EBWebView";

/// A save marker file: the settings.
pub const SETTINGS_FILE: &'static str = "settings.json";

/// A save marker file: the login.
pub const AUTH_FILE: &'static str = "auth.json";

/// A save marker file: the cache versions.
pub const CACHE_VERSION_FILE: &'static str = "cache_version.json";

/// The cache folder of an app-data folder.
pub const CACHE_DIR: &'static str = "cache";

/// One entry of a folder listing.
#[derive(Clone, Debug)]
pub struct DirEntryInfo {
    /// The entry's file name.
    pub name: String,
    /// The entry itself is a folder (symbolic links are not followed).
    pub is_dir: bool,
    /// The entry's path leads to a regular file (symbolic links are followed).
    pub is_file: bool,
}

/// What a [`DirEntryInfo`] holds.
pub struct EntryView {
    pub name: Seq<char>,
    pub is_dir: bool,
    pub is_file: bool,
}

impl View for DirEntryInfo {
    type V = EntryView;

    open spec fn view(&self) -> EntryView {
        EntryView { name: self.name@, is_dir: self.is_dir, is_file: self.is_file }
    }
}

/// The views of a listing.
pub open spec fn entry_views(v: Seq<DirEntryInfo>) -> Seq<EntryView> {
    v.map_values(|e: DirEntryInfo| e@)
}

/// An entry with this name is left out of a copy: it is the skipped folder's
/// name, compared without regard to ASCII case.
pub open spec fn skipped(name: Seq<char>) -> bool {
    ascii_case_eq(name, SKIPPED_DIR_NAME@)
}

/// `x` and `y` are the same character once ASCII letters are taken without
/// regard to case.
pub open spec fn same_up_to_case(x: char, y: char) -> bool {
    let p = x as u32;
    let q = y as u32;
    ||| p == q
    ||| 65 <= p <= 90 && q == p + 32
    ||| 65 <= q <= 90 && p == q + 32
}

/// `a` and `b` spell the same name without regard to ASCII case.
pub open spec fn same_name_up_to_case(a: Seq<char>, b: Seq<char>) -> bool {
    a.len() == b.len() && forall|i: int| 0 <= i < a.len() ==> same_up_to_case(#[trigger] a[i], b[i])
}

/// Exactly one name, in all its ASCII case variants, is left out of a copy:
/// `EBWebView` is left out, any two names left out spell the same name up to
/// case, and a name is left out exactly when a case variant of it is.
pub proof fn law_only_the_browser_folder_is_skipped(a: Seq<char>, b: Seq<char>)
    ensures
        skipped("EBWebView"@),
        skipped(a) && skipped(b) ==> same_name_up_to_case(a, b),
        same_name_up_to_case(a, b) ==> (skipped(a) <==> skipped(b)),
{
    assert(SKIPPED_DIR_NAME == "EBWebView");
    reveal_strlit("EBWebView");
    let w = SKIPPED_DIR_NAME@;
    assert forall|x: char, y: char| #[trigger] same_up_to_case(x, y) <==> ascii_fold(x) == ascii_fold(y) by {
        vstd::utf8::char_u32_cast(x, x as u32);
        vstd::utf8::char_u32_cast(y, y as u32);
    }
    if skipped(a) && skipped(b) {
        assert forall|i: int| 0 <= i < a.len() implies same_up_to_case(#[trigger] a[i], b[i]) by {
            assert(ascii_fold(a[i]) == ascii_fold(w[i]));
            assert(ascii_fold(b[i]) == ascii_fold(w[i]));
        }
    }
    if same_name_up_to_case(a, b) {
        assert forall|i: int| 0 <= i < a.len() implies ascii_fold(#[trigger] a[i]) == ascii_fold(b[i]) by {
            assert(same_up_to_case(a[i], b[i]));
        }
        if skipped(a) {
            assert forall|i: int| 0 <= i < b.len() implies ascii_fold(#[trigger] b[i]) == ascii_fold(w[i]) by {
                assert(ascii_fold(a[i]) == ascii_fold(b[i]));
                assert(ascii_fold(a[i]) == ascii_fold(w[i]));
            }
        }
        if skipped(b) {
            assert forall|i: int| 0 <= i < a.len() implies ascii_fold(#[trigger] a[i]) == ascii_fold(w[i]) by {
                assert(ascii_fold(a[i]) == ascii_fold(b[i]));
                assert(ascii_fold(b[i]) == ascii_fold(w[i]));
            }
        }
    }
}

/// Whether an entry named `name` is left out of a copy.
pub fn should_skip(name: &str) -> (r: bool)
    ensures
        r == skipped(name@),
{
    eq_ignore_ascii_case(name, SKIPPED_DIR_NAME)
}

/// The new name of a Quantframe database file: the Kuantframe stem followed by
/// whatever came after the Quantframe stem.
pub open spec fn renamed_db_name(name: Seq<char>) -> Seq<char> {
    KUANTFRAME_DB_STEM@ + name.subrange(QUANTFRAME_DB_STEM@.len() as int, name.len() as int)
}

/// A file named `name` is a Quantframe database file.
pub open spec fn is_quantframe_db_name(name: Seq<char>) -> bool {
    has_prefix(name, QUANTFRAME_DB_STEM@)
}

/// The Kuantframe name of a Quantframe database file, or `None` when `name`
/// does not start with the Quantframe stem.
pub fn db_file_rename(name: &str) -> (r: Option<String>)
    ensures
        match r {
            Some(n) => is_quantframe_db_name(name@) && n@ == renamed_db_name(name@),
            None => !is_quantframe_db_name(name@),
        },
{
    match strip_prefix(name, QUANTFRAME_DB_STEM) {
        Some(rest) => Some(concat2(KUANTFRAME_DB_STEM, rest.as_str())),
        None => None,
    }
}

/// One item produced while reading a folder.
#[derive(Debug)]
pub enum ListedEntry {
    /// An entry that could be read: its name, whether it is itself a folder
    /// (`Err` with the error's text when its type could not be read), and
    /// whether its path leads to a regular file.
    Read { name: String, is_dir: Result<bool, String>, is_file: bool },
    /// Reading the next entry failed, with the error's text.
    Unreadable(String),
}

/// What a [`ListedEntry`] holds.
pub enum ListedEntryView {
    Read { name: Seq<char>, is_dir: Result<bool, Seq<char>>, is_file: bool },
    Unreadable(Seq<char>),
}

impl View for ListedEntry {
    type V = ListedEntryView;

    open spec fn view(&self) -> ListedEntryView {
        match self {
            ListedEntry::Read { name, is_dir, is_file } => ListedEntryView::Read {
                name: name@,
                is_dir: match is_dir {
                    Ok(b) => Ok(*b),
                    Err(d) => Err(d@),
                },
                is_file: *is_file,
            },
            ListedEntry::Unreadable(d) => ListedEntryView::Unreadable(d@),
        }
    }
}

/// The views of a listing.
pub open spec fn listed_views(v: Seq<ListedEntry>) -> Seq<ListedEntryView> {
    v.map_values(|e: ListedEntry| e@)
}

/// The renames of a folder's database files, in listing order: each regular
/// file whose name starts with the Quantframe stem, paired with its new name.
/// An entry that could not be read makes the whole listing fail with the first
/// such entry's error.
pub open spec fn db_renames(entries: Seq<ListedEntryView>) -> Result<Seq<(Seq<char>, Seq<char>)>, Seq<char>>
    decreases entries.len(),
{
    if entries.len() == 0 {
        Ok(Seq::empty())
    } else {
        match db_renames(entries.drop_last()) {
            Err(d) => Err(d),
            Ok(rest) => match entries.last() {
                ListedEntryView::Unreadable(d) => Err(d),
                ListedEntryView::Read { name, is_dir, is_file } => if is_file && is_quantframe_db_name(name) {
                    Ok(rest.push((name, renamed_db_name(name))))
                } else {
                    Ok(rest)
                },
            },
        }
    }
}

/// The views of a list of renames.
pub open spec fn rename_views(v: Seq<(String, String)>) -> Seq<(Seq<char>, Seq<char>)> {
    v.map_values(|p: (String, String)| (p.0@, p.1@))
}

/// The database files of a listing to rename, each with its new name, or the
/// error of the first entry that could not be read.
pub fn plan_db_renames(entries: &Vec<ListedEntry>) -> (r: Result<Vec<(String, String)>, String>)
    ensures
        match (r, db_renames(listed_views(entries@))) {
            (Ok(v), Ok(w)) => rename_views(v@) == w,
            (Err(d), Err(w)) => d@ == w,
            _ => false,
        },
{
    let mut r: Vec<(String, String)> = Vec::new();
    let mut i: usize = 0;
    assert(rename_views(r@) =~= Seq::<(Seq<char>, Seq<char>)>::empty());
    assert(listed_views(entries@).take(0) =~= Seq::<ListedEntryView>::empty());
    while i < entries.len()
        invariant
            i <= entries.len(),
            db_renames(listed_views(entries@).take(i as int)) == Ok::<Seq<(Seq<char>, Seq<char>)>, Seq<char>>(
                rename_views(r@),
            ),
        decreases entries.len() - i,
    {
        let ghost before = r@;
        let ghost vs = listed_views(entries@);
        proof {
            assert(vs.take(i + 1).drop_last() =~= vs.take(i as int));
            assert(vs.take(i + 1).last() == entries@[i as int]@);
        }
        match &entries[i] {
            ListedEntry::Unreadable(d) => {
                proof {
                    lemma_db_renames_err_sticks(vs, i as int + 1);
                }
                return Err(d.clone());
            },
            ListedEntry::Read { name, is_dir, is_file } => {
                if *is_file {
                    match db_file_rename(name.as_str()) {
                        Some(new_name) => {
                            r.push((name.clone(), new_name));
                            assert(rename_views(r@) =~= rename_views(before).push((name@, new_name@)));
                        },
                        None => {},
                    }
                }
            },
        }
        i = i + 1;
    }
    assert(listed_views(entries@).take(entries.len() as int) =~= listed_views(entries@));
    Ok(r)
}

/// Once a prefix of a listing fails, the whole listing fails the same way.
proof fn lemma_db_renames_err_sticks(entries: Seq<ListedEntryView>, k: int)
    requires
        0 <= k <= entries.len(),
        db_renames(entries.take(k)) is Err,
    ensures
        db_renames(entries) == db_renames(entries.take(k)),
    decreases entries.len() - k,
{
    if k < entries.len() {
        assert(entries.take(k + 1).drop_last() =~= entries.take(k));
        lemma_db_renames_err_sticks(entries, k + 1);
    } else {
        assert(entries.take(k) =~= entries);
    }
}

/// What is known of a folder when deciding whether it holds a Quantframe save.
#[derive(Debug)]
pub struct SaveProbe {
    /// The folder exists and is a folder.
    pub is_dir: bool,
    /// `settings.json` in it is a regular file.
    pub settings_is_file: bool,
    /// `auth.json` in it is a regular file.
    pub auth_is_file: bool,
    /// `cache_version.json` in it is a regular file.
    pub cache_version_is_file: bool,
    /// `cache` in it is a folder, could be listed, and its listing yields at
    /// least one entry.
    pub cache_has_entry: bool,
    /// The folder's own listing (the entries that could be read), or `None`
    /// when the folder could not be listed.
    pub entries: Option<Vec<DirEntryInfo>>,
}

/// Some entry of the listing is a regular file named like a Quantframe database.
pub open spec fn has_db_file(entries: Seq<EntryView>) -> bool {
    exists|i: int| 0 <= i < entries.len() && #[trigger] entries[i].is_file && is_quantframe_db_name(entries[i].name)
}

/// The folder holds a save: it is a folder, and it has a settings, login or
/// cache-version file, a non-empty cache folder, or a database file.
pub open spec fn holds_save(p: SaveProbe) -> bool {
    &&& p.is_dir
    &&& {
        ||| p.settings_is_file
        ||| p.auth_is_file
        ||| p.cache_version_is_file
        ||| p.cache_has_entry
        ||| match p.entries {
            Some(v) => has_db_file(entry_views(v@)),
            None => false,
        }
    }
}

/// What counts as a save: a probed path that is not a folder holds none; a
/// folder holds one as soon as any one of its markers is there (a regular
/// `settings.json`, `auth.json` or `cache_version.json`, a non-empty `cache`
/// folder, or a regular file of its listing named with the Quantframe
/// database stem), whatever the other markers say; and without any marker it
/// holds none.
pub proof fn law_save_markers(p: SaveProbe)
    ensures
        !p.is_dir ==> !holds_save(p),
        p.is_dir && p.settings_is_file ==> holds_save(p),
        p.is_dir && p.auth_is_file ==> holds_save(p),
        p.is_dir && p.cache_version_is_file ==> holds_save(p),
        p.is_dir && p.cache_has_entry ==> holds_save(p),
        forall|i: int|
            #![trigger p.entries->Some_0@[i]]
            p.is_dir && p.entries is Some && 0 <= i < p.entries->Some_0@.len() && p.entries->Some_0@[i].is_file
                && has_prefix(p.entries->Some_0@[i].name@, QUANTFRAME_DB_STEM@) ==> holds_save(p),
        holds_save(p) ==> p.is_dir && (p.settings_is_file || p.auth_is_file || p.cache_version_is_file
            || p.cache_has_entry || (p.entries is Some && exists|i: int|
            0 <= i < p.entries->Some_0@.len() && (#[trigger] p.entries->Some_0@[i]).is_file && has_prefix(
                p.entries->Some_0@[i].name@,
                QUANTFRAME_DB_STEM@,
            ))),
{
    if let Some(v) = p.entries {
        assert forall|i: int| 0 <= i < v@.len() implies #[trigger] entry_views(v@)[i] == v@[i]@ by {}
        assert forall|i: int| #![trigger v@[i]]
            0 <= i < v@.len() && v@[i].is_file && has_prefix(v@[i].name@, QUANTFRAME_DB_STEM@) implies has_db_file(
            entry_views(v@),
        ) by {
            assert(entry_views(v@)[i] == v@[i]@);
            assert(entry_views(v@)[i].is_file && is_quantframe_db_name(entry_views(v@)[i].name));
        }
        if has_db_file(entry_views(v@)) {
            let i = choose|i: int| 0 <= i < entry_views(v@).len() && #[trigger] entry_views(v@)[i].is_file
                && is_quantframe_db_name(entry_views(v@)[i].name);
            assert(v@[i].is_file);
        }
    }
}

/// True when the probed Quantframe app-data folder contains settings, auth,
/// cache, or a database.
pub fn quantframe_dir_has_save(probe: &SaveProbe) -> (r: bool)
    ensures
        r == holds_save(*probe),
{
    if !probe.is_dir {
        return false;
    }
    if probe.settings_is_file || probe.auth_is_file || probe.cache_version_is_file {
        return true;
    }
    if probe.cache_has_entry {
        return true;
    }
    match &probe.entries {
        None => false,
        Some(entries) => {
            let mut i: usize = 0;
            while i < entries.len()
                invariant
                    i <= entries.len(),
                    probe.entries == Some(*entries),
                    probe.is_dir,
                    forall|j: int| 0 <= j < i ==> !(#[trigger] entry_views(entries@)[j].is_file
                        && is_quantframe_db_name(entry_views(entries@)[j].name)),
                decreases entries.len() - i,
            {
                let e = &entries[i];
                if e.is_file {
                    if strip_prefix(e.name.as_str(), QUANTFRAME_DB_STEM).is_some() {
                        assert(entry_views(entries@)[i as int] == e@);
                        assert(entry_views(entries@)[i as int].is_file
                            && is_quantframe_db_name(entry_views(entries@)[i as int].name));
                        assert(has_db_file(entry_views(entries@)));
                        return true;
                    }
                }
                assert(entry_views(entries@)[i as int] == e@);
                i = i + 1;
            }
            false
        },
    }
}

} // verus!
