use kuantframe::copy_tree::{CopyNext, CopyTree};
use kuantframe::db_rename::{DbRename, DbRenameNext};
use kuantframe::entries::{quantframe_dir_has_save, DirEntryInfo, ListedEntry, SaveProbe};
use kuantframe::paths::{
    kuantframe_path, pending_flag_path, pending_import_path, quantframe_path, DataPath, QUANTFRAME_APP_PATH,
};
use kuantframe::transfer::{Action, ApplyImport, ApplyNext, Event, SaveError, StageImport, StageNext};
use std::collections::BTreeMap;

// An in-memory file system below one local data folder; paths are the
// components below that folder.

#[derive(Clone, Debug, PartialEq)]
enum Node {
    Dir,
    File(String),
}

struct MemFs {
    nodes: BTreeMap<Vec<String>, Node>,
}

fn key(p: &DataPath) -> Vec<String> {
    p.components().clone()
}

impl MemFs {
    fn new() -> MemFs {
        MemFs { nodes: BTreeMap::new() }
    }

    fn present(&self, k: &[String]) -> bool {
        k.is_empty() || self.nodes.contains_key(k)
    }

    fn is_dir(&self, k: &[String]) -> bool {
        k.is_empty() || self.nodes.get(k) == Some(&Node::Dir)
    }

    fn is_file(&self, k: &[String]) -> bool {
        matches!(self.nodes.get(k), Some(Node::File(_)))
    }

    fn read(&self, k: &[String]) -> Option<String> {
        match self.nodes.get(k) {
            Some(Node::File(c)) => Some(c.clone()),
            _ => None,
        }
    }

    fn create_dir_all(&mut self, k: &[String]) -> Result<(), String> {
        for i in 1..=k.len() {
            let prefix = k[..i].to_vec();
            match self.nodes.get(&prefix) {
                Some(Node::File(_)) => return Err("not a directory".to_string()),
                Some(Node::Dir) => {}
                None => {
                    self.nodes.insert(prefix, Node::Dir);
                }
            }
        }
        Ok(())
    }

    fn write_file(&mut self, k: &[String], contents: &str) -> Result<(), String> {
        if !self.is_dir(&k[..k.len() - 1]) {
            return Err("no parent folder".to_string());
        }
        self.nodes.insert(k.to_vec(), Node::File(contents.to_string()));
        Ok(())
    }

    fn put(&mut self, path: &[&str], contents: &str) {
        let k: Vec<String> = path.iter().map(|s| s.to_string()).collect();
        self.create_dir_all(&k[..k.len() - 1]).unwrap();
        self.write_file(&k, contents).unwrap();
    }

    fn below(&self, k: &[String]) -> Vec<Vec<String>> {
        self.nodes.keys().filter(|n| n.len() >= k.len() && n[..k.len()] == *k).cloned().collect()
    }

    fn remove_dir_all(&mut self, k: &[String]) -> Result<(), String> {
        if !self.is_dir(k) {
            return Err("not a directory".to_string());
        }
        for n in self.below(k) {
            self.nodes.remove(&n);
        }
        Ok(())
    }

    fn remove_file(&mut self, k: &[String]) -> Result<(), String> {
        if !self.is_file(k) {
            return Err("not a file".to_string());
        }
        self.nodes.remove(k);
        Ok(())
    }

    fn rename(&mut self, from: &[String], to: &[String]) -> Result<(), String> {
        if !self.present(from) {
            return Err("source missing".to_string());
        }
        if self.is_dir(to) {
            return Err("destination is a folder".to_string());
        }
        let moved: Vec<(Vec<String>, Node)> =
            self.below(from).into_iter().map(|n| (n.clone(), self.nodes[&n].clone())).collect();
        for (n, _) in &moved {
            self.nodes.remove(n);
        }
        for (n, node) in moved {
            let mut m = to.to_vec();
            m.extend_from_slice(&n[from.len()..]);
            self.nodes.insert(m, node);
        }
        Ok(())
    }

    fn list(&self, k: &[String]) -> Result<Vec<ListedEntry>, String> {
        if !self.is_dir(k) {
            return Err("not a directory".to_string());
        }
        Ok(self
            .nodes
            .iter()
            .filter(|(n, _)| n.len() == k.len() + 1 && n[..k.len()] == *k)
            .map(|(n, node)| ListedEntry::Read {
                name: n[k.len()].clone(),
                is_dir: Ok(*node == Node::Dir),
                is_file: *node != Node::Dir,
            })
            .collect())
    }

    fn copy_file(&mut self, from: &[String], to: &[String]) -> Result<(), String> {
        match self.read(from) {
            Some(c) => self.write_file(to, &c),
            None => Err("source is not a file".to_string()),
        }
    }

    fn probe_save(&self, k: &[String]) -> SaveProbe {
        let child = |name: &str| {
            let mut c = k.to_vec();
            c.push(name.to_string());
            c
        };
        let cache = child("cache");
        let entries = self.list(k).ok().map(|v| {
            v.into_iter()
                .filter_map(|e| match e {
                    ListedEntry::Read { name, is_dir, is_file } => {
                        Some(DirEntryInfo { name, is_dir: is_dir.unwrap_or(false), is_file })
                    }
                    ListedEntry::Unreadable(_) => None,
                })
                .collect()
        });
        SaveProbe {
            is_dir: self.is_dir(k),
            settings_is_file: self.is_file(&child("settings.json")),
            auth_is_file: self.is_file(&child("auth.json")),
            cache_version_is_file: self.is_file(&child("cache_version.json")),
            cache_has_entry: self.is_dir(&cache) && !self.list(&cache).unwrap().is_empty(),
            entries,
        }
    }

    fn finished(r: Result<(), String>) -> Event {
        Event::Finished(r)
    }

    fn perform(&mut self, a: Action) -> Event {
        match a {
            Action::Probe(p) => Event::Answer(self.present(&key(&p))),
            Action::InspectSave(p) => Event::Answer(quantframe_dir_has_save(&self.probe_save(&key(&p)))),
            Action::RemoveDirAll(p) => Self::finished(self.remove_dir_all(&key(&p))),
            Action::RemoveFile(p) => Self::finished(self.remove_file(&key(&p))),
            Action::Rename { from, to } => Self::finished(self.rename(&key(&from), &key(&to))),
            Action::CopyTree { from, to } => Event::SubtaskFinished(self.copy_tree(&from, &to)),
            Action::RenameDbFiles(p) => Event::SubtaskFinished(self.rename_db_files(&p)),
            Action::WriteFile { path, contents } => Self::finished(self.write_file(&key(&path), &contents)),
            Action::CreateDirAll(p) => Self::finished(self.create_dir_all(&key(&p))),
            Action::ListDir(p) => Event::Listed(self.list(&key(&p))),
            Action::CopyFile { from, to } => Self::finished(self.copy_file(&key(&from), &key(&to))),
        }
    }

    fn copy_tree(&mut self, from: &DataPath, to: &DataPath) -> Result<(), SaveError> {
        let (mut m, mut next) = CopyTree::start(from, to);
        loop {
            match next {
                CopyNext::Done(r) => return r,
                CopyNext::Perform(a) => {
                    let e = self.perform(a);
                    assert!(m.accepts(&e));
                    next = m.step(e);
                }
            }
        }
    }

    fn rename_db_files(&mut self, dir: &DataPath) -> Result<(), SaveError> {
        let (mut m, mut next) = DbRename::start(dir);
        loop {
            match next {
                DbRenameNext::Done(r) => return r,
                DbRenameNext::Perform(a) => {
                    let e = self.perform(a);
                    assert!(m.accepts(&e));
                    next = m.step(e);
                }
            }
        }
    }

    fn stage(&mut self, local: &DataPath) -> Result<DataPath, SaveError> {
        let (mut m, mut next) = StageImport::start(local);
        loop {
            match next {
                StageNext::Done(r) => return r,
                StageNext::Perform(a) => {
                    let e = self.perform(a);
                    assert!(m.accepts(&e));
                    next = m.step(e);
                }
            }
        }
    }

    fn apply(&mut self, local: &DataPath) -> Result<Option<DataPath>, SaveError> {
        let (mut m, mut next) = ApplyImport::start(local);
        loop {
            match next {
                ApplyNext::Done(r) => return r,
                ApplyNext::Perform(a) => {
                    let e = self.perform(a);
                    assert!(m.accepts(&e));
                    next = m.step(e);
                }
            }
        }
    }
}

fn root() -> DataPath {
    DataPath::new("/local", '/')
}

fn at(p: &DataPath, name: &str) -> Vec<String> {
    key(&p.join(name))
}

#[test]
fn missing_or_empty_dir_is_not_a_save() {
    let mut fs = MemFs::new();
    let src = quantframe_path(&root());
    assert!(!quantframe_dir_has_save(&fs.probe_save(&key(&src))));
    fs.create_dir_all(&key(&src)).unwrap();
    assert!(!quantframe_dir_has_save(&fs.probe_save(&key(&src))));
}

#[test]
fn settings_or_sqlite_count_as_save() {
    let mut fs = MemFs::new();
    let src = quantframe_path(&root());
    fs.create_dir_all(&key(&src)).unwrap();
    fs.put(&[QUANTFRAME_APP_PATH, "settings.json"], "{}");
    assert!(quantframe_dir_has_save(&fs.probe_save(&key(&src))));

    fs.remove_file(&at(&src, "settings.json")).unwrap();
    fs.put(&[QUANTFRAME_APP_PATH, "quantframeV2.sqlite"], "db");
    assert!(quantframe_dir_has_save(&fs.probe_save(&key(&src))));
}

#[test]
fn stage_errors_when_quantframe_missing() {
    let mut fs = MemFs::new();
    let err = fs.stage(&root()).unwrap_err();
    assert!(err.message().contains("No Quantframe save found"));
    assert!(err.message().contains(QUANTFRAME_APP_PATH));
}

#[test]
fn stage_errors_when_quantframe_has_no_save_files() {
    let mut fs = MemFs::new();
    fs.create_dir_all(&key(&quantframe_path(&root()))).unwrap();
    let err = fs.stage(&root()).unwrap_err();
    assert!(err.message().contains("no save data was found"));
}

#[test]
fn stage_copies_save_renames_sqlite_and_skips_webview() {
    let mut fs = MemFs::new();
    let q = QUANTFRAME_APP_PATH;
    fs.put(&[q, "settings.json"], "{\"lang\":\"en\"}");
    fs.put(&[q, "auth.json"], "{\"token\":\"secret\"}");
    fs.put(&[q, "cache", "items.json"], "[]");
    fs.put(&[q, "quantframeV2.sqlite"], "db");
    fs.put(&[q, "quantframeV2.sqlite-wal"], "wal");
    fs.put(&[q, "quantframeV2.sqlite-shm"], "shm");
    fs.put(&[q, "EBWebView", "Cookies"], "should-not-copy");

    let staging = fs.stage(&root()).unwrap();
    assert!(fs.is_file(&at(&staging, "settings.json")));
    assert!(fs.is_file(&at(&staging, "auth.json")));
    assert!(fs.is_file(&key(&staging.join("cache").join("items.json"))));
    assert!(fs.is_file(&at(&staging, "kuantframeV2.sqlite")));
    assert!(fs.is_file(&at(&staging, "kuantframeV2.sqlite-wal")));
    assert!(fs.is_file(&at(&staging, "kuantframeV2.sqlite-shm")));
    assert!(!fs.present(&at(&staging, "quantframeV2.sqlite")));
    assert!(!fs.present(&at(&staging, "EBWebView")));
    assert!(fs.is_file(&key(&pending_flag_path(&root()))));
    // Source is left intact.
    assert!(fs.is_file(&at(&quantframe_path(&root()), "quantframeV2.sqlite")));
}

#[test]
fn apply_is_noop_without_flag() {
    let mut fs = MemFs::new();
    assert!(fs.apply(&root()).unwrap().is_none());
}

#[test]
fn apply_replaces_dest_and_keeps_backup() {
    let mut fs = MemFs::new();
    let q = QUANTFRAME_APP_PATH;
    let k = kuantframe::paths::KUANTFRAME_APP_PATH;
    fs.put(&[q, "settings.json"], "{\"from\":\"quantframe\"}");
    fs.put(&[q, "quantframeV2.sqlite"], "qf-db");
    fs.put(&[k, "settings.json"], "{\"from\":\"kuantframe\"}");
    fs.put(&[k, "kuantframeV2.sqlite"], "kf-db");

    fs.stage(&root()).unwrap();
    let backup = fs.apply(&root()).unwrap().expect("backup path");

    let dest = kuantframe_path(&root());
    assert_eq!(fs.read(&at(&dest, "settings.json")).unwrap(), "{\"from\":\"quantframe\"}");
    assert_eq!(fs.read(&at(&dest, "kuantframeV2.sqlite")).unwrap(), "qf-db");
    assert!(!fs.present(&at(&dest, "quantframeV2.sqlite")));
    assert!(!fs.present(&key(&pending_flag_path(&root()))));
    assert!(!fs.present(&key(&pending_import_path(&root()))));
    assert_eq!(fs.read(&at(&backup, "settings.json")).unwrap(), "{\"from\":\"kuantframe\"}");
    assert_eq!(fs.read(&at(&backup, "kuantframeV2.sqlite")).unwrap(), "kf-db");
}

#[test]
fn apply_clears_flag_when_staging_is_missing() {
    let mut fs = MemFs::new();
    fs.write_file(&key(&pending_flag_path(&root())), "quantframe-import").unwrap();
    let k = kuantframe::paths::KUANTFRAME_APP_PATH;
    fs.put(&[k, "settings.json"], "{\"keep\":true}");
    let err = fs.apply(&root()).unwrap_err();
    assert!(err.message().contains("staged save is missing"));
    assert!(!fs.present(&key(&pending_flag_path(&root()))));
    assert_eq!(fs.read(&at(&kuantframe_path(&root()), "settings.json")).unwrap(), "{\"keep\":true}");
}

#[test]
fn apply_picks_a_numbered_backup_when_the_name_is_taken() {
    let mut fs = MemFs::new();
    let q = QUANTFRAME_APP_PATH;
    let k = kuantframe::paths::KUANTFRAME_APP_PATH;
    fs.put(&[q, "settings.json"], "new");
    fs.put(&[k, "settings.json"], "old");
    fs.stage(&root()).unwrap();
    // Report the unnumbered backup name as taken.
    let (mut m, mut next) = ApplyImport::start(&root());
    let mut taken_once = false;
    let backup = loop {
        match next {
            ApplyNext::Done(r) => break r.unwrap().unwrap(),
            ApplyNext::Perform(Action::Probe(p)) if p.components().last().map_or(false, |n| n.starts_with("dev.kuantframe.backup-")) && !taken_once => {
                taken_once = true;
                next = m.step(Event::Answer(true));
            }
            ApplyNext::Perform(a) => {
                let e = fs.perform(a);
                next = m.step(e);
            }
        }
    };
    let name = backup.components().last().unwrap().clone();
    assert!(name.starts_with("dev.kuantframe.backup-"));
    assert!(name.ends_with("-1"));
    let stamp = &name["dev.kuantframe.backup-".len()..name.len() - 2];
    assert_eq!(stamp.len(), 15);
    assert!(stamp.chars().all(|c| c.is_ascii_digit() || c == '-'));
    assert_eq!(&stamp[8..9], "-");
    assert_eq!(fs.read(&at(&backup, "settings.json")).unwrap(), "old");
    assert_eq!(fs.read(&at(&kuantframe_path(&root()), "settings.json")).unwrap(), "new");
}

#[test]
fn apply_restores_backup_when_swap_fails() {
    let mut fs = MemFs::new();
    let q = QUANTFRAME_APP_PATH;
    let k = kuantframe::paths::KUANTFRAME_APP_PATH;
    fs.put(&[q, "settings.json"], "new");
    fs.put(&[k, "settings.json"], "old");
    fs.stage(&root()).unwrap();
    let (mut m, mut next) = ApplyImport::start(&root());
    let mut swaps = 0;
    let err = loop {
        match next {
            ApplyNext::Done(r) => break r.unwrap_err(),
            ApplyNext::Perform(Action::Rename { from, to })
                if key(&from) == key(&pending_import_path(&root())) && swaps == 0 =>
            {
                swaps += 1;
                let _ = (from, to);
                next = m.step(Event::Finished(Err("disk full".to_string())));
            }
            ApplyNext::Perform(a) => {
                let e = fs.perform(a);
                next = m.step(e);
            }
        }
    };
    assert_eq!(
        err.message(),
        "Could not replace Kuantframe data with the Quantframe save (disk full)"
    );
    assert_eq!(fs.read(&at(&kuantframe_path(&root()), "settings.json")).unwrap(), "old");
    assert!(fs.present(&key(&pending_flag_path(&root()))));
}

#[test]
fn stage_clears_an_earlier_staging_folder() {
    let mut fs = MemFs::new();
    let q = QUANTFRAME_APP_PATH;
    fs.put(&[q, "settings.json"], "s");
    fs.put(&[kuantframe::paths::PENDING_IMPORT_DIR, "stale.txt"], "old");
    let staging = fs.stage(&root()).unwrap();
    assert!(!fs.present(&at(&staging, "stale.txt")));
    assert!(fs.is_file(&at(&staging, "settings.json")));
}

#[test]
fn stage_reports_a_failed_flag_write() {
    let mut fs = MemFs::new();
    fs.put(&[QUANTFRAME_APP_PATH, "auth.json"], "a");
    let (mut m, mut next) = StageImport::start(&root());
    let err = loop {
        match next {
            StageNext::Done(r) => break r.unwrap_err(),
            StageNext::Perform(Action::WriteFile { .. }) => {
                next = m.step(Event::Finished(Err("denied".to_string())));
            }
            StageNext::Perform(a) => {
                let e = fs.perform(a);
                next = m.step(e);
            }
        }
    };
    assert_eq!(
        err.message(),
        "writing import flag: /local/dev.kuantframe.pending-import.flag (denied)"
    );
}

#[test]
fn copy_skips_webview_in_any_case_and_depth() {
    let mut fs = MemFs::new();
    fs.put(&["src", "a.txt"], "a");
    fs.put(&["src", "ebwebview", "x"], "x");
    fs.put(&["src", "sub", "EBWEBVIEW", "y"], "y");
    fs.put(&["src", "sub", "b.txt"], "b");
    let src = root().join("src");
    let dst = root().join("dst");
    fs.copy_tree(&src, &dst).unwrap();
    assert!(fs.is_file(&at(&dst, "a.txt")));
    assert!(fs.is_file(&key(&dst.join("sub").join("b.txt"))));
    assert!(!fs.present(&at(&dst, "ebwebview")));
    assert!(!fs.present(&key(&dst.join("sub").join("EBWEBVIEW"))));
}

#[test]
fn copy_reports_unreadable_entries_and_failed_copies() {
    let src = root().join("src");
    let dst = root().join("dst");
    let (mut m, _) = CopyTree::start(&src, &dst);
    assert!(matches!(m.step(Event::Finished(Ok(()))), CopyNext::Perform(Action::ListDir(_))));
    let listing = vec![
        ListedEntry::Read { name: "f".to_string(), is_dir: Ok(false), is_file: true },
        ListedEntry::Unreadable("bad entry".to_string()),
    ];
    assert!(matches!(m.step(Event::Listed(Ok(listing))), CopyNext::Perform(Action::CreateDirAll(_))));
    assert!(matches!(m.step(Event::Finished(Ok(()))), CopyNext::Perform(Action::CopyFile { .. })));
    match m.step(Event::Finished(Err("locked".to_string()))) {
        CopyNext::Done(Err(e)) => assert_eq!(
            e.message(),
            "Could not copy /local/src/f. Close Quantframe if it is running, then try again (locked)."
        ),
        _ => panic!("expected a copy failure"),
    }

    let (mut m2, _) = CopyTree::start(&src, &dst);
    m2.step(Event::Finished(Ok(())));
    let listing2 = vec![ListedEntry::Unreadable("bad entry".to_string())];
    match m2.step(Event::Listed(Ok(listing2))) {
        CopyNext::Done(Err(e)) => assert_eq!(e.message(), "reading Quantframe data: /local/src (bad entry)"),
        _ => panic!("expected a read failure"),
    }
}

#[test]
fn db_rename_replaces_existing_target() {
    let mut fs = MemFs::new();
    fs.put(&["d", "quantframeV2.sqlite"], "new");
    fs.put(&["d", "kuantframeV2.sqlite"], "old");
    fs.put(&["d", "quantframeV2"], "bare");
    fs.put(&["d", "other.txt"], "o");
    fs.create_dir_all(&key(&root().join("d").join("quantframeV2-dir"))).unwrap();
    let d = root().join("d");
    fs.rename_db_files(&d).unwrap();
    assert_eq!(fs.read(&at(&d, "kuantframeV2.sqlite")).unwrap(), "new");
    assert_eq!(fs.read(&at(&d, "kuantframeV2")).unwrap(), "bare");
    assert!(!fs.present(&at(&d, "quantframeV2.sqlite")));
    assert!(fs.is_file(&at(&d, "other.txt")));
    assert!(fs.is_dir(&at(&d, "quantframeV2-dir")));
}

#[test]
fn db_rename_reports_listing_failure() {
    let d = root().join("d");
    let (mut m, _) = DbRename::start(&d);
    match m.step(Event::Listed(Err("gone".to_string()))) {
        DbRenameNext::Done(Err(e)) => assert_eq!(e.message(), "listing database files: /local/d (gone)"),
        _ => panic!("expected a listing failure"),
    }
}

#[test]
fn error_messages_name_the_folder() {
    let src = quantframe_path(&DataPath::new("C:\\Users\\me\\AppData\\Local", '\\'));
    let e = SaveError::NoQuantframeSave { path: src.duplicate() };
    assert_eq!(
        e.message(),
        "No Quantframe save found at C:\\Users\\me\\AppData\\Local\\dev.kenya.quantframe. Install or run official Quantframe first, then try again."
    );
    let e2 = SaveError::NoSaveData { path: src };
    assert_eq!(
        e2.message(),
        "Quantframe folder exists at C:\\Users\\me\\AppData\\Local\\dev.kenya.quantframe but no save data was found (settings, cache, login, or database)."
    );
    let e3 = SaveError::BackupFailed { dest: kuantframe_path(&root()), detail: "busy".to_string() };
    assert_eq!(e3.message(), "Could not back up current Kuantframe data at /local/dev.kuantframe (busy)");
    assert_eq!(
        SaveError::StagedSaveMissing.message(),
        "A Quantframe import was pending, but the staged save is missing. No data was changed."
    );
}

#[test]
fn backup_folder_is_named_after_the_given_stamp() {
    let mut fs = MemFs::new();
    let q = QUANTFRAME_APP_PATH;
    let k = kuantframe::paths::KUANTFRAME_APP_PATH;
    fs.put(&[q, "settings.json"], "new");
    fs.put(&[k, "settings.json"], "old");
    fs.stage(&root()).unwrap();
    let (mut m, mut next) = ApplyImport::start(&root());
    let backup = loop {
        match next {
            ApplyNext::Done(r) => break r.unwrap().unwrap(),
            ApplyNext::Perform(a) => {
                let e = fs.perform(a);
                next = m.step_with_stamp(e, "20240131-235959");
            }
        }
    };
    assert_eq!(backup.display(), "/local/dev.kuantframe.backup-20240131-235959");
}

#[test]
fn import_reproduces_the_quantframe_tree() {
    let mut fs = MemFs::new();
    let q = QUANTFRAME_APP_PATH;
    let k = kuantframe::paths::KUANTFRAME_APP_PATH;
    fs.put(&[q, "settings.json"], "s");
    fs.put(&[q, "quantframeV2.sqlite"], "db");
    fs.put(&[q, "kuantframeV2.sqlite"], "older");
    fs.put(&[q, "quantframeV2-logs", "a.txt"], "log");
    fs.put(&[q, "cache", "items.json"], "[]");
    fs.put(&[q, "cache", "ebwebview", "x"], "no");
    fs.put(&[q, "EBWebView", "Cookies"], "no");
    fs.put(&[k, "old.json"], "kept");

    fs.stage(&root()).unwrap();
    let backup = fs.apply(&root()).unwrap().expect("backup path");

    let dest = key(&kuantframe_path(&root()));
    let mut found: Vec<(Vec<String>, Node)> = Vec::new();
    for n in fs.below(&dest) {
        found.push((n[dest.len()..].to_vec(), fs.nodes[&n].clone()));
    }
    let f = |c: &str| Node::File(c.to_string());
    let p = |parts: &[&str]| parts.iter().map(|s| s.to_string()).collect::<Vec<String>>();
    let expected: Vec<(Vec<String>, Node)> = vec![
        (p(&[]), Node::Dir),
        (p(&["cache"]), Node::Dir),
        (p(&["cache", "items.json"]), f("[]")),
        (p(&["kuantframeV2.sqlite"]), f("db")),
        (p(&["quantframeV2-logs"]), Node::Dir),
        (p(&["quantframeV2-logs", "a.txt"]), f("log")),
        (p(&["settings.json"]), f("s")),
    ];
    assert_eq!(found, expected);
    assert_eq!(fs.read(&at(&backup, "old.json")), Some("kept".to_string()));
    assert!(!fs.present(&key(&pending_import_path(&root()))));
    assert!(!fs.present(&key(&pending_flag_path(&root()))));
}
