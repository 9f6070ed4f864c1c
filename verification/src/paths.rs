//! Paths inside the local app-data folder, and the names of the folders and
//! files that the save transfer works with.
use vstd::prelude::*;
use crate::text::{concat2, concat3, owned, push_char, push_decimal, decimal};

verus! {

/// Official Quantframe Tauri identifier / LocalAppData folder name.
pub const QUANTFRAME_APP_PATH: &'static str = "dev.kenya.quantframe";

/// Kuantframe Tauri identifier / LocalAppData folder name.
pub const KUANTFRAME_APP_PATH: &'static str = "dev.kuantframe";

/// Folder that holds a staged copy of the Quantframe save until the next launch.
pub const PENDING_IMPORT_DIR: &'static str = "dev.kuantframe.pending-import";

/// File whose presence tells the next launch that a staged import is waiting.
pub const PENDING_IMPORT_FLAG: &'static str = "dev.kuantframe.pending-import.flag";

/// Start of the name of the folder that the replaced Kuantframe data moves to.
pub const BACKUP_DIR_PREFIX: &'static str = "dev.kuantframe.backup-";

/// The pattern of the local time in a backup folder's name.
pub const BACKUP_STAMP_FORMAT: &'static str = "%Y%m%d-%H%M%S";

/// Start of the file names of the Quantframe database and its side files.
pub const QUANTFRAME_DB_STEM: &'static str = "quantframeV2";

/// Start of the file names of the Kuantframe database and its side files.
pub const KUANTFRAME_DB_STEM: &'static str = "kuantframeV2";

/// Contents written to the pending-import flag file.
pub const PENDING_FLAG_CONTENTS: &'static str = "quantframe-import";

/// What a [`DataPath`] denotes: a base folder, the platform's path separator,
/// and the relative components below the base, outermost first.
pub struct DataPathView {
    pub root: Seq<char>,
    pub sep: char,
    pub parts: Seq<Seq<char>>,
}

impl DataPathView {
    /// This path with one more component below it.
    pub open spec fn join(self, name: Seq<char>) -> DataPathView {
        DataPathView { root: self.root, sep: self.sep, parts: self.parts.push(name) }
    }

    /// `self` lies at or below `other`: same base and `other`'s components are a
    /// prefix of `self`'s.
    pub open spec fn is_within(self, other: DataPathView) -> bool {
        &&& self.root == other.root
        &&& self.sep == other.sep
        &&& other.parts.len() <= self.parts.len()
        &&& self.parts.subrange(0, other.parts.len() as int) == other.parts
    }
}

/// The text is a bare drive prefix such as `C:`: an ASCII letter and a colon.
pub open spec fn is_drive_prefix(text: Seq<char>) -> bool {
    &&& text.len() == 2
    &&& text[1] == ':'
    &&& ('a' <= text[0] && text[0] <= 'z') || ('A' <= text[0] && text[0] <= 'Z')
}

/// The text ends where a path component ends, so the next one needs a
/// separator first: it is non-empty, its last character is neither the
/// separator nor `/`, and, where the separator is `\\`, it is not a bare
/// drive prefix (a component after `C:` stays relative to that drive).
pub open spec fn needs_separator(text: Seq<char>, sep: char) -> bool {
    &&& text.len() > 0
    &&& text.last() != sep
    &&& text.last() != '/'
    &&& !(sep == '\\' && is_drive_prefix(text))
}

/// The text of `text` with one more component `part` after it, a separator
/// between them where one is needed.
pub open spec fn append_component(text: Seq<char>, sep: char, part: Seq<char>) -> Seq<char> {
    if needs_separator(text, sep) {
        text.push(sep) + part
    } else {
        text + part
    }
}

/// The text of `start` with each of `parts` appended as a component.
pub open spec fn append_components(start: Seq<char>, sep: char, parts: Seq<Seq<char>>) -> Seq<char>
    decreases parts.len(),
{
    if parts.len() == 0 {
        start
    } else {
        append_component(append_components(start, sep, parts.drop_last()), sep, parts.last())
    }
}

/// How a path is shown to the user: the base, then each component, with a
/// separator before a component where the text so far needs one (see
/// [`needs_separator`]).
pub open spec fn display_text(p: DataPathView) -> Seq<char> {
    append_components(p.root, p.sep, p.parts)
}

/// The views of a sequence of strings.
pub open spec fn string_views(v: Seq<String>) -> Seq<Seq<char>> {
    v.map_values(|s: String| s@)
}

/// A path made of a base folder and relative components below it.
#[derive(Debug)]
pub struct DataPath {
    root: String,
    sep: char,
    parts: Vec<String>,
}

impl View for DataPath {
    type V = DataPathView;

    closed spec fn view(&self) -> DataPathView {
        DataPathView { root: self.root@, sep: self.sep, parts: string_views(self.parts@) }
    }
}

fn copy_strings(v: &Vec<String>) -> (r: Vec<String>)
    ensures
        string_views(r@) == string_views(v@),
{
    let mut r: Vec<String> = Vec::new();
    let mut i: usize = 0;
    while i < v.len()
        invariant
            i <= v.len(),
            r@.len() == i,
            forall|j: int| 0 <= j < i ==> #[trigger] r@[j]@ == v@[j]@,
        decreases v.len() - i,
    {
        r.push(v[i].clone());
        i = i + 1;
    }
    assert(string_views(r@) =~= string_views(v@));
    r
}

impl DataPath {
    /// The base folder `root` itself, shown with separator `sep`.
    pub fn new(root: &str, sep: char) -> (r: DataPath)
        ensures
            r@ == (DataPathView { root: root@, sep, parts: Seq::empty() }),
    {
        let r = DataPath { root: owned(root), sep, parts: Vec::new() };
        assert(string_views(r.parts@) =~= Seq::<Seq<char>>::empty());
        r
    }

    /// The base folder.
    pub fn root(&self) -> (r: &str)
        ensures
            r@ == self@.root,
    {
        self.root.as_str()
    }

    /// The separator used when the path is shown.
    pub fn separator(&self) -> (r: char)
        ensures
            r == self@.sep,
    {
        self.sep
    }

    /// The components below the base, outermost first.
    pub fn components(&self) -> (r: &Vec<String>)
        ensures
            string_views(r@) == self@.parts,
    {
        &self.parts
    }

    /// A copy of this path.
    pub fn duplicate(&self) -> (r: DataPath)
        ensures
            r@ == self@,
    {
        DataPath { root: self.root.clone(), sep: self.sep, parts: copy_strings(&self.parts) }
    }

    /// This path with the component `name` below it.
    pub fn join(&self, name: &str) -> (r: DataPath)
        ensures
            r@ == self@.join(name@),
    {
        let mut parts = copy_strings(&self.parts);
        let ghost before = parts@;
        parts.push(owned(name));
        assert(string_views(parts@) =~= string_views(before).push(name@));
        DataPath { root: self.root.clone(), sep: self.sep, parts }
    }

    /// How the path is shown: the base, then each component, with a separator
    /// before a component unless the text so far is empty, already ends in a
    /// separator, or (with `\\` as separator) is a bare drive such as `C:`.
    pub fn display(&self) -> (r: String)
        ensures
            r@ == display_text(self@),
    {
        let mut r = self.root.clone();
        let mut i: usize = 0;
        while i < self.parts.len()
            invariant
                i <= self.parts.len(),
                r@ == append_components(self.root@, self.sep, string_views(self.parts@).take(i as int)),
            decreases self.parts.len() - i,
        {
            let n = r.as_str().unicode_len();
            let need = if n == 0 {
                false
            } else {
                let last = r.as_str().get_char(n - 1);
                let drive = if n == 2 && self.sep == '\\' {
                    let first = r.as_str().get_char(0);
                    last == ':' && (('a' <= first && first <= 'z') || ('A' <= first && first <= 'Z'))
                } else {
                    false
                };
                last != self.sep && last != '/' && !drive
            };
            if need {
                push_char(&mut r, self.sep);
            }
            r.append(self.parts[i].as_str());
            proof {
                let ps = string_views(self.parts@);
                assert(ps.take(i + 1).drop_last() =~= ps.take(i as int));
                assert(ps.take(i + 1).last() == self.parts@[i as int]@);
                assert(r@ =~= append_components(self.root@, self.sep, ps.take(i + 1)));
            }
            i = i + 1;
        }
        assert(string_views(self.parts@).take(self.parts.len() as int) =~= string_views(self.parts@));
        r
    }
}

/// The official Quantframe app-data folder inside `local_data`.
pub fn quantframe_path(local_data: &DataPath) -> (r: DataPath)
    ensures
        r@ == local_data@.join(QUANTFRAME_APP_PATH@),
{
    local_data.join(QUANTFRAME_APP_PATH)
}

/// The Kuantframe app-data folder inside `local_data`.
pub fn kuantframe_path(local_data: &DataPath) -> (r: DataPath)
    ensures
        r@ == local_data@.join(KUANTFRAME_APP_PATH@),
{
    local_data.join(KUANTFRAME_APP_PATH)
}

/// The folder that holds a staged import inside `local_data`.
pub fn pending_import_path(local_data: &DataPath) -> (r: DataPath)
    ensures
        r@ == local_data@.join(PENDING_IMPORT_DIR@),
{
    local_data.join(PENDING_IMPORT_DIR)
}

/// The pending-import flag file inside `local_data`.
pub fn pending_flag_path(local_data: &DataPath) -> (r: DataPath)
    ensures
        r@ == local_data@.join(PENDING_IMPORT_FLAG@),
{
    local_data.join(PENDING_IMPORT_FLAG)
}

/// The name of a backup folder for the timestamp `stamp`: the prefix and the
/// stamp, followed by `-` and `n` when `numbered`.
pub open spec fn backup_name(stamp: Seq<char>, numbered: bool, n: nat) -> Seq<char> {
    if numbered {
        BACKUP_DIR_PREFIX@ + stamp + seq!['-'] + decimal(n)
    } else {
        BACKUP_DIR_PREFIX@ + stamp
    }
}

/// The backup folder name for `stamp`, unnumbered or with the number `n`.
pub fn backup_dir_name(stamp: &str, numbered: bool, n: u32) -> (r: String)
    ensures
        r@ == backup_name(stamp@, numbered, n as nat),
{
    if numbered {
        let mut r = concat3(BACKUP_DIR_PREFIX, stamp, "-");
        proof {
            reveal_strlit("-");
        }
        push_decimal(&mut r, n);
        assert(r@ =~= backup_name(stamp@, numbered, n as nat));
        r
    } else {
        concat2(BACKUP_DIR_PREFIX, stamp)
    }
}

/// The candidate backup folder inside `local_data`.
pub fn backup_path(local_data: &DataPath, stamp: &str, numbered: bool, n: u32) -> (r: DataPath)
    ensures
        r@ == local_data@.join(backup_name(stamp@, numbered, n as nat)),
{
    let name = backup_dir_name(stamp, numbered, n);
    local_data.join(name.as_str())
}

} // verus!
