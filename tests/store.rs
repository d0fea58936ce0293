use std::collections::HashMap;

use diaryx::store::{
    finish_delete, entry_id_of_file_name, EntryStore, FileContents, FileRead, ListedFile,
    StoreError,
};

/// A directory held in memory: file path to text and modification time.
struct Disk {
    files: HashMap<String, (String, i64)>,
    clock: i64,
}

impl Disk {
    fn new() -> Disk {
        Disk { files: HashMap::new(), clock: 1_000 }
    }

    fn read(&self, path: &str) -> FileRead {
        match self.files.get(path) {
            Some((content, at)) => FileRead::Read(FileContents {
                content: content.clone(),
                modified_at: *at,
            }),
            None => FileRead::Missing,
        }
    }

    fn write(&mut self, path: String, content: String) {
        self.clock += 1;
        self.files.insert(path, (content, self.clock));
    }

    fn delete(&mut self, store: &EntryStore, id: &str) -> Result<(), StoreError> {
        let path = store.entry_path(id);
        let existed = self.files.contains_key(&path);
        let removed = self.files.remove(&path).is_some();
        finish_delete(existed, removed)
    }
}

fn store() -> EntryStore {
    EntryStore::new("/home/u/Documents/Diaryx/entries".to_string())
}

fn listed(name: &str, content: Option<(&str, i64)>) -> ListedFile {
    ListedFile {
        file_name: name.to_string(),
        read: content.map(|(c, at)| FileContents { content: c.to_string(), modified_at: at }),
    }
}

#[test]
fn scenario_create_get_save_delete() {
    let st = store();
    let mut disk = Disk::new();
    let (id, write) = st.create_entry("My Day", 1_714_550_400);
    assert_eq!(id, "2024-05-01_08-00-00");
    disk.write(write.path, write.content);

    let e = st.read_entry(&id, &disk.read(&st.entry_path(&id))).unwrap();
    assert_eq!(e.title, "My Day");
    assert!(e.content.starts_with("# My Day"));
    assert_eq!(e.id, id);

    let w = st.save_entry(&id, "# My Day\n\nWent well.");
    disk.write(w.path, w.content);
    let e = st.read_entry(&id, &disk.read(&st.entry_path(&id))).unwrap();
    assert_eq!(e.content, "# My Day\n\nWent well.");

    assert_eq!(disk.delete(&st, &id), Ok(()));
    let r = st.read_entry(&id, &disk.read(&st.entry_path(&id)));
    assert!(matches!(r, Err(StoreError::NotFound)));
}

#[test]
fn created_entry_reads_back_its_title() {
    let st = store();
    let mut disk = Disk::new();
    let (id, write) = st.create_entry("A #hashtag title", 0);
    assert_eq!(write.content, "# A #hashtag title\n\n");
    disk.write(write.path, write.content);
    let e = st.read_entry(&id, &disk.read(&st.entry_path(&id))).unwrap();
    assert_eq!(e.title, "A #hashtag title");
}

#[test]
fn save_round_trip_and_modification_time() {
    let st = store();
    let mut disk = Disk::new();
    let w = st.save_entry("note", "first");
    disk.write(w.path, w.content);
    let before = st.read_entry("note", &disk.read(&st.entry_path("note"))).unwrap();
    let w = st.save_entry("note", "second\nline");
    disk.write(w.path, w.content);
    let after = st.read_entry("note", &disk.read(&st.entry_path("note"))).unwrap();
    assert_eq!(after.content, "second\nline");
    assert!(after.modified_at >= before.modified_at);
    assert_eq!(after.created_at, after.modified_at);
}

#[test]
fn delete_twice_succeeds() {
    let st = store();
    let mut disk = Disk::new();
    let w = st.save_entry("gone", "x");
    disk.write(w.path, w.content);
    assert_eq!(disk.delete(&st, "gone"), Ok(()));
    assert_eq!(disk.delete(&st, "gone"), Ok(()));
}

#[test]
fn delete_outcomes() {
    assert_eq!(finish_delete(false, false), Ok(()));
    assert_eq!(finish_delete(true, true), Ok(()));
    assert_eq!(finish_delete(true, false), Err(StoreError::IoError));
}

#[test]
fn get_of_never_created_id_is_not_found() {
    let st = store();
    let disk = Disk::new();
    let r = st.read_entry("never", &disk.read(&st.entry_path("never")));
    assert!(matches!(r, Err(StoreError::NotFound)));
}

#[test]
fn get_of_unreadable_file_is_io_error() {
    let st = store();
    assert!(matches!(st.read_entry("x", &FileRead::Unreadable), Err(StoreError::IoError)));
}

#[test]
fn get_fills_every_field() {
    let st = store();
    let read = FileRead::Read(FileContents { content: "## Plans\nSome".to_string(), modified_at: 42 });
    let e = st.read_entry("2024-01-01_00-00-00", &read).unwrap();
    assert_eq!(e.id, "2024-01-01_00-00-00");
    assert_eq!(e.title, "Plans");
    assert_eq!(e.content, "## Plans\nSome");
    assert_eq!(e.created_at, 42);
    assert_eq!(e.modified_at, 42);
    assert_eq!(e.file_path, "/home/u/Documents/Diaryx/entries/2024-01-01_00-00-00.md");
}

#[test]
fn store_under_home() {
    let st = EntryStore::in_home(Some("/home/u".to_string())).unwrap();
    assert_eq!(st.root, "/home/u/Documents/Diaryx/entries");
    assert!(matches!(EntryStore::in_home(None), Err(StoreError::DirectoryUnavailable)));
}

#[test]
fn entry_paths() {
    assert_eq!(store().entry_path("abc"), "/home/u/Documents/Diaryx/entries/abc.md");
}

#[test]
fn file_names_that_mark_entries() {
    assert_eq!(entry_id_of_file_name("2024-01-01_10-00-00.md"), Some("2024-01-01_10-00-00".to_string()));
    assert_eq!(entry_id_of_file_name("a.md"), Some("a".to_string()));
    assert_eq!(entry_id_of_file_name("x.y.md"), Some("x.y".to_string()));
    assert_eq!(entry_id_of_file_name(".md"), None);
    assert_eq!(entry_id_of_file_name("notes.txt"), None);
    assert_eq!(entry_id_of_file_name("md"), None);
    assert_eq!(entry_id_of_file_name("readme.MD"), None);
}

#[test]
fn listing_of_empty_directory_is_empty() {
    assert!(store().list_entries(&Vec::new()).is_empty());
}

#[test]
fn listing_without_entry_files_is_empty() {
    let files = vec![listed("notes.txt", Some(("x", 5))), listed(".DS_Store", Some(("", 1)))];
    assert!(store().list_entries(&files).is_empty());
}

#[test]
fn listing_is_newest_first_and_skips_failures() {
    let files = vec![
        listed("old.md", Some(("# Old\nold body", 10))),
        listed("broken.md", None),
        listed("new.md", Some(("# New\nnew body", 30))),
        listed("image.png", Some(("binary", 50))),
        listed("mid.md", Some(("no heading", 20))),
    ];
    let r = store().list_entries(&files);
    let ids: Vec<&str> = r.iter().map(|m| m.id.as_str()).collect();
    assert_eq!(ids, vec!["new", "mid", "old"]);
    for pair in r.windows(2) {
        assert!(pair[0].modified_at >= pair[1].modified_at);
    }
    assert_eq!(r[0].title, "New");
    assert_eq!(r[0].preview, "new body");
    assert_eq!(r[1].title, "no heading");
    assert_eq!(r[1].preview, "");
    assert_eq!(r[2].created_at, 10);
    assert_eq!(r[2].file_path, "/home/u/Documents/Diaryx/entries/old.md");
}

#[test]
fn listing_keeps_equal_times_in_order_found() {
    let files = vec![
        listed("a.md", Some(("# A", 7))),
        listed("b.md", Some(("# B", 7))),
        listed("c.md", Some(("# C", 9))),
    ];
    let r = store().list_entries(&files);
    let ids: Vec<&str> = r.iter().map(|m| m.id.as_str()).collect();
    assert_eq!(ids, vec!["c", "a", "b"]);
}

#[test]
fn listing_preview_is_cut() {
    let content = format!("# Long\n{}", "z".repeat(200));
    let r = store().list_entries(&vec![listed("long.md", Some((&content, 1)))]);
    assert_eq!(r[0].preview, format!("{}...", "z".repeat(150)));
}
