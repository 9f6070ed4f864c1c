use kuantframe::entries::{db_file_rename, plan_db_renames, should_skip, ListedEntry};
use kuantframe::paths::{
    backup_dir_name, backup_path, kuantframe_path, pending_flag_path, pending_import_path, quantframe_path,
    DataPath,
};
use kuantframe::text::{concat2, eq_ignore_ascii_case, push_decimal, strip_prefix};

#[test]
fn paths_are_joined_below_local_data() {
    let local = DataPath::new("/home/u/.local/share", '/');
    assert_eq!(quantframe_path(&local).display(), "/home/u/.local/share/dev.kenya.quantframe");
    assert_eq!(kuantframe_path(&local).display(), "/home/u/.local/share/dev.kuantframe");
    assert_eq!(pending_import_path(&local).display(), "/home/u/.local/share/dev.kuantframe.pending-import");
    assert_eq!(pending_flag_path(&local).display(), "/home/u/.local/share/dev.kuantframe.pending-import.flag");
    assert_eq!(quantframe_path(&local).components(), &vec!["dev.kenya.quantframe".to_string()]);
    assert_eq!(quantframe_path(&local).root(), "/home/u/.local/share");
}

#[test]
fn windows_separator_is_used_in_display() {
    let local = DataPath::new("C:\\Users\\me\\AppData\\Local", '\\');
    assert_eq!(
        kuantframe_path(&local).join("cache").display(),
        "C:\\Users\\me\\AppData\\Local\\dev.kuantframe\\cache"
    );
    assert_eq!(local.separator(), '\\');
}

#[test]
fn backup_names_follow_the_stamp() {
    assert_eq!(backup_dir_name("20240101-120000", false, 7), "dev.kuantframe.backup-20240101-120000");
    assert_eq!(backup_dir_name("20240101-120000", true, 1), "dev.kuantframe.backup-20240101-120000-1");
    assert_eq!(backup_dir_name("20240101-120000", true, 4294967295), "dev.kuantframe.backup-20240101-120000-4294967295");
    let local = DataPath::new("/l", '/');
    assert_eq!(backup_path(&local, "s", true, 12).display(), "/l/dev.kuantframe.backup-s-12");
}

#[test]
fn decimal_digits() {
    let mut s = String::from("n=");
    push_decimal(&mut s, 0);
    assert_eq!(s, "n=0");
    let mut t = String::new();
    push_decimal(&mut t, 1050);
    assert_eq!(t, "1050");
}

#[test]
fn webview_is_skipped_without_regard_to_case() {
    assert!(should_skip("EBWebView"));
    assert!(should_skip("ebwebview"));
    assert!(should_skip("EBWEBVIEW"));
    assert!(!should_skip("EBWebView2"));
    assert!(!should_skip("cache"));
    assert!(eq_ignore_ascii_case("Straße", "STRAßE"));
    assert!(!eq_ignore_ascii_case("ß", "SS"));
}

#[test]
fn database_files_get_kuantframe_names() {
    assert_eq!(db_file_rename("quantframeV2.sqlite").unwrap(), "kuantframeV2.sqlite");
    assert_eq!(db_file_rename("quantframeV2.sqlite-wal").unwrap(), "kuantframeV2.sqlite-wal");
    assert_eq!(db_file_rename("quantframeV2").unwrap(), "kuantframeV2");
    assert!(db_file_rename("quantframe.sqlite").is_none());
    assert!(db_file_rename("QuantframeV2.sqlite").is_none());
    assert!(db_file_rename("settings.json").is_none());
}

#[test]
fn rename_plan_keeps_listing_order_and_skips_folders() {
    let listing = vec![
        ListedEntry::Read { name: "quantframeV2.sqlite-shm".to_string(), is_dir: Ok(false), is_file: true },
        ListedEntry::Read { name: "quantframeV2-folder".to_string(), is_dir: Ok(true), is_file: false },
        ListedEntry::Read { name: "settings.json".to_string(), is_dir: Ok(false), is_file: true },
        ListedEntry::Read { name: "quantframeV2.sqlite".to_string(), is_dir: Err("x".to_string()), is_file: true },
    ];
    let plan = plan_db_renames(&listing).unwrap();
    assert_eq!(
        plan,
        vec![
            ("quantframeV2.sqlite-shm".to_string(), "kuantframeV2.sqlite-shm".to_string()),
            ("quantframeV2.sqlite".to_string(), "kuantframeV2.sqlite".to_string()),
        ]
    );
    let broken = vec![
        ListedEntry::Read { name: "quantframeV2.sqlite".to_string(), is_dir: Ok(false), is_file: true },
        ListedEntry::Unreadable("first".to_string()),
        ListedEntry::Unreadable("second".to_string()),
    ];
    assert_eq!(plan_db_renames(&broken).unwrap_err(), "first");
}

#[test]
fn text_helpers() {
    assert_eq!(strip_prefix("quantframeV2.db", "quantframeV2").unwrap(), ".db");
    assert!(strip_prefix("quant", "quantframeV2").is_none());
    assert_eq!(concat2("ab", "cd"), "abcd");
}

#[test]
fn no_separator_is_doubled_after_a_root_that_ends_in_one() {
    let root = DataPath::new("/", '/');
    assert_eq!(quantframe_path(&root).display(), "/dev.kenya.quantframe");
    let drive = DataPath::new("C:\\", '\\');
    assert_eq!(kuantframe_path(&drive).join("cache").display(), "C:\\dev.kuantframe\\cache");
    let slash = DataPath::new("C:/data/", '\\');
    assert_eq!(kuantframe_path(&slash).display(), "C:/data/dev.kuantframe");
    let empty = DataPath::new("", '/');
    assert_eq!(kuantframe_path(&empty).display(), "dev.kuantframe");
}

#[test]
fn a_bare_drive_gets_no_separator() {
    let drive = DataPath::new("C:", '\\');
    assert_eq!(drive.join("x").display(), "C:x");
    assert_eq!(drive.join("x").join("y").display(), "C:x\\y");
    let unix = DataPath::new("C:", '/');
    assert_eq!(unix.join("x").display(), "C:/x");
}
