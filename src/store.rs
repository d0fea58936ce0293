//! The entry store: a directory that holds one markdown file per entry.
//!
//! The store itself reads and writes nothing. For each operation it names the
//! file to touch and turns what the caller found there into the answer:
//! an entry, a listing, or one of the store's errors.

use vstd::prelude::*;
use vstd::string::*;
use crate::text::{
    entry_preview, entry_title, first_line, heading_text, is_white_space, lemma_line_break_after,
    preview_of, strip_heading_markers, title_of, trim_end, trim_start,
};
use crate::timestamp::{entry_id_at, id_text, CivilTime};

verus! {

broadcast use vstd::seq_lib::group_to_multiset_ensures;

/// Why an operation of the store failed.
#[derive(Clone, Copy, Debug, PartialEq, Eq, Structural)]
pub enum StoreError {
    /// The home location is unknown, or the entries directory cannot be made.
    DirectoryUnavailable,
    /// No file holds an entry with the requested id.
    NotFound,
    /// A file exists, but reading, writing, inspecting or removing it failed.
    IoError,
}

/// A file's text and its modification time, in milliseconds after the Unix
/// epoch (UTC).
pub struct FileContents {
    pub content: String,
    pub modified_at: i64,
}

pub struct FileContentsView {
    pub content: Seq<char>,
    pub modified_at: i64,
}

impl View for FileContents {
    type V = FileContentsView;

    open spec fn view(&self) -> FileContentsView {
        FileContentsView { content: self.content@, modified_at: self.modified_at }
    }
}

/// What came of reading the file of one entry.
pub enum FileRead {
    /// There is no such file.
    Missing,
    /// The file exists, but its text or its modification time could not be read.
    Unreadable,
    /// The file was read.
    Read(FileContents),
}

pub enum FileReadView {
    Missing,
    Unreadable,
    Read(FileContentsView),
}

impl View for FileRead {
    type V = FileReadView;

    open spec fn view(&self) -> FileReadView {
        match self {
            FileRead::Missing => FileReadView::Missing,
            FileRead::Unreadable => FileReadView::Unreadable,
            FileRead::Read(c) => FileReadView::Read(c@),
        }
    }
}

/// One file found in the entries directory, with what came of reading it
/// (`None` where its text or its modification time could not be read).
pub struct ListedFile {
    pub file_name: String,
    pub read: Option<FileContents>,
}

pub struct ListedFileView {
    pub file_name: Seq<char>,
    pub read: Option<FileContentsView>,
}

impl View for ListedFile {
    type V = ListedFileView;

    open spec fn view(&self) -> ListedFileView {
        ListedFileView {
            file_name: self.file_name@,
            read: match self.read {
                Some(c) => Some(c@),
                None => None,
            },
        }
    }
}

/// A journal entry in full.
pub struct Entry {
    pub id: String,
    pub title: String,
    pub content: String,
    pub created_at: i64,
    pub modified_at: i64,
    pub file_path: String,
}

pub struct EntryView {
    pub id: Seq<char>,
    pub title: Seq<char>,
    pub content: Seq<char>,
    pub created_at: i64,
    pub modified_at: i64,
    pub file_path: Seq<char>,
}

impl View for Entry {
    type V = EntryView;

    open spec fn view(&self) -> EntryView {
        EntryView {
            id: self.id@,
            title: self.title@,
            content: self.content@,
            created_at: self.created_at,
            modified_at: self.modified_at,
            file_path: self.file_path@,
        }
    }
}

/// What a listing shows of an entry: its text only as a preview.
pub struct EntryMetadata {
    pub id: String,
    pub title: String,
    pub created_at: i64,
    pub modified_at: i64,
    pub file_path: String,
    pub preview: String,
}

pub struct EntryMetadataView {
    pub id: Seq<char>,
    pub title: Seq<char>,
    pub created_at: i64,
    pub modified_at: i64,
    pub file_path: Seq<char>,
    pub preview: Seq<char>,
}

impl View for EntryMetadata {
    type V = EntryMetadataView;

    open spec fn view(&self) -> EntryMetadataView {
        EntryMetadataView {
            id: self.id@,
            title: self.title@,
            created_at: self.created_at,
            modified_at: self.modified_at,
            file_path: self.file_path@,
            preview: self.preview@,
        }
    }
}

/// The extension that marks a file as an entry.
pub open spec fn entry_suffix() -> Seq<char> {
    seq!['.', 'm', 'd']
}

/// The name of the file that holds entry `id`.
pub open spec fn entry_file_name(id: Seq<char>) -> Seq<char> {
    id + entry_suffix()
}

/// The path of file `name` in directory `dir`.
pub open spec fn path_in(dir: Seq<char>, name: Seq<char>) -> Seq<char> {
    dir + seq!['/'] + name
}

/// The id of the entry that file `name` holds, or `None` when the name does
/// not mark an entry.
pub open spec fn entry_id_of(name: Seq<char>) -> Option<Seq<char>> {
    if name.len() > entry_suffix().len() && name.skip(name.len() - entry_suffix().len())
        == entry_suffix() {
        Some(name.take(name.len() - entry_suffix().len()))
    } else {
        None
    }
}

/// Entry `id` as read from its file in directory `dir`.
pub open spec fn entry_of(dir: Seq<char>, id: Seq<char>, file: FileContentsView) -> EntryView {
    EntryView {
        id,
        title: title_of(file.content, id),
        content: file.content,
        created_at: file.modified_at,
        modified_at: file.modified_at,
        file_path: path_in(dir, entry_file_name(id)),
    }
}

/// What a listing shows of entry `id`, read from its file in directory `dir`.
pub open spec fn metadata_of(dir: Seq<char>, id: Seq<char>, file: FileContentsView) -> EntryMetadataView {
    EntryMetadataView {
        id,
        title: title_of(file.content, id),
        created_at: file.modified_at,
        modified_at: file.modified_at,
        file_path: path_in(dir, entry_file_name(id)),
        preview: preview_of(file.content),
    }
}

/// The answer to a request for entry `id`, given what reading its file gave.
pub open spec fn get_outcome(dir: Seq<char>, id: Seq<char>, read: FileReadView) -> Result<
    EntryView,
    StoreError,
> {
    match read {
        FileReadView::Missing => Err(StoreError::NotFound),
        FileReadView::Unreadable => Err(StoreError::IoError),
        FileReadView::Read(file) => Ok(entry_of(dir, id, file)),
    }
}

pub open spec fn entry_result_view(r: Result<Entry, StoreError>) -> Result<EntryView, StoreError> {
    match r {
        Ok(e) => Ok(e@),
        Err(err) => Err(err),
    }
}

/// The metadata of the entries among `files`, in the order of `files`: those
/// whose name marks an entry and which could be read.
pub open spec fn listing(dir: Seq<char>, files: Seq<ListedFileView>) -> Seq<EntryMetadataView>
    decreases files.len(),
{
    if files.len() == 0 {
        Seq::empty()
    } else {
        let rest = listing(dir, files.drop_last());
        let f = files.last();
        match (entry_id_of(f.file_name), f.read) {
            (Some(id), Some(file)) => rest.push(metadata_of(dir, id, file)),
            _ => rest,
        }
    }
}

/// Each entry was modified no earlier than every entry after it.
pub open spec fn newest_first(s: Seq<EntryMetadataView>) -> bool {
    forall|i: int, j: int| 0 <= i < j < s.len() ==> s[i].modified_at >= s[j].modified_at
}

pub open spec fn metadata_views(s: Seq<EntryMetadata>) -> Seq<EntryMetadataView> {
    s.map_values(|m: EntryMetadata| m@)
}

pub open spec fn listed_views(s: Seq<ListedFile>) -> Seq<ListedFileView> {
    s.map_values(|f: ListedFile| f@)
}

/// The text that a new entry titled `title` starts with: the title as a
/// heading, then a blank line.
pub open spec fn initial_content(title: Seq<char>) -> Seq<char> {
    seq!['#', ' '] + title + seq!['\n', '\n']
}

/// The answer to a request to delete an entry, given whether its file
/// existed and, if so, whether removing it succeeded.
pub open spec fn delete_outcome(existed: bool, removed: bool) -> Result<(), StoreError> {
    if existed && !removed {
        Err(StoreError::IoError)
    } else {
        Ok(())
    }
}

/// The id of the entry that file `name` holds, or `None` when its name does
/// not end in `.md` after at least one character.
pub fn entry_id_of_file_name(name: &str) -> (r: Option<String>)
    ensures
        match entry_id_of(name@) {
            Some(id) => r matches Some(s) && s@ == id,
            None => r is None,
        },
{
    let n = name.unicode_len();
    if n > 3 {
        let tail = name.substring_char(n - 3, n);
        if tail.get_char(0) == '.' && tail.get_char(1) == 'm' && tail.get_char(2) == 'd' {
            assert(tail@ =~= entry_suffix());
            Some(String::from_str(name.substring_char(0, n - 3)))
        } else {
            None
        }
    } else {
        None
    }
}

/// The answer to a request to delete an entry, given whether its file
/// existed and, if so, whether removing it succeeded. A missing file is no
/// failure: deleting is idempotent.
pub fn finish_delete(existed: bool, removed: bool) -> (r: Result<(), StoreError>)
    ensures
        r == delete_outcome(existed, removed),
{
    if existed && !removed {
        Err(StoreError::IoError)
    } else {
        Ok(())
    }
}

/// Where, in a listing that is newest first, an entry modified at `at` goes:
/// after every entry modified no earlier, before the rest.
fn insertion_point(r: &Vec<EntryMetadata>, at: i64) -> (j: usize)
    requires
        newest_first(metadata_views(r@)),
    ensures
        j <= r@.len(),
        forall|k: int| 0 <= k < j ==> r@[k].modified_at >= at,
        forall|k: int| j <= k < r@.len() ==> r@[k].modified_at < at,
{
    let mut j: usize = 0;
    while j < r.len() && r[j].modified_at >= at
        invariant
            j <= r@.len(),
            forall|k: int| 0 <= k < j ==> r@[k].modified_at >= at,
        decreases r@.len() - j,
    {
        j = j + 1;
    }
    assert forall|k: int| j <= k < r@.len() implies r@[k].modified_at < at by {
        assert(metadata_views(r@)[j as int].modified_at >= metadata_views(r@)[k].modified_at);
    }
    j
}

/// A file to write in full: its path and its new text.
pub struct FileWrite {
    pub path: String,
    pub content: String,
}

/// The entries directory, given by its path.
pub struct EntryStore {
    pub root: String,
}

impl View for EntryStore {
    type V = Seq<char>;

    open spec fn view(&self) -> Seq<char> {
        self.root@
    }
}

/// The entries directory under home location `home`.
pub open spec fn entries_dir_under(home: Seq<char>) -> Seq<char> {
    path_in(path_in(path_in(home, "Documents"@), "Diaryx"@), "entries"@)
}

impl EntryStore {
    /// The store that keeps its entries in directory `root`.
    pub fn new(root: String) -> (r: EntryStore)
        ensures
            r@ == root@,
    {
        EntryStore { root }
    }

    /// The store under the user's home location, `Documents/Diaryx/entries`;
    /// `DirectoryUnavailable` when the home location is unknown.
    pub fn in_home(home: Option<String>) -> (r: Result<EntryStore, StoreError>)
        ensures
            match home {
                Some(h) => r matches Ok(st) && st@ == entries_dir_under(h@),
                None => r == Err::<EntryStore, StoreError>(StoreError::DirectoryUnavailable),
            },
    {
        match home {
            Some(h) => {
                proof {
                    reveal_strlit("/Documents/Diaryx/entries");
                    reveal_strlit("Documents");
                    reveal_strlit("Diaryx");
                    reveal_strlit("entries");
                }
                let root = h.concat("/Documents/Diaryx/entries");
                assert(root@ =~= entries_dir_under(h@));
                Ok(EntryStore { root })
            },
            None => Err(StoreError::DirectoryUnavailable),
        }
    }

    /// The path of the file that holds entry `id`.
    pub fn entry_path(&self, id: &str) -> (r: String)
        ensures
            r@ == path_in(self@, entry_file_name(id@)),
    {
        proof {
            reveal_strlit("/");
            reveal_strlit(".md");
        }
        let r = self.root.clone().concat("/").concat(id).concat(".md");
        assert(r@ =~= path_in(self@, entry_file_name(id@)));
        r
    }

    /// Entry `id`, given what reading its file gave: `NotFound` when there is
    /// no such file, `IoError` when it could not be read.
    pub fn read_entry(&self, id: &str, read: &FileRead) -> (r: Result<Entry, StoreError>)
        ensures
            entry_result_view(r) == get_outcome(self@, id@, read@),
    {
        match read {
            FileRead::Missing => Err(StoreError::NotFound),
            FileRead::Unreadable => Err(StoreError::IoError),
            FileRead::Read(file) => {
                let title = entry_title(file.content.as_str(), id);
                Ok(
                    Entry {
                        id: String::from_str(id),
                        title,
                        content: file.content.clone(),
                        created_at: file.modified_at,
                        modified_at: file.modified_at,
                        file_path: self.entry_path(id),
                    },
                )
            },
        }
    }

    /// What a listing shows of entry `id`, read from `file`.
    pub fn entry_metadata(&self, id: &str, file: &FileContents) -> (r: EntryMetadata)
        ensures
            r@ == metadata_of(self@, id@, file@),
    {
        EntryMetadata {
            id: String::from_str(id),
            title: entry_title(file.content.as_str(), id),
            created_at: file.modified_at,
            modified_at: file.modified_at,
            file_path: self.entry_path(id),
            preview: entry_preview(file.content.as_str()),
        }
    }

    /// The listing of the directory whose files are `files`: the metadata of
    /// each file whose name marks an entry and which could be read (the others
    /// are passed over), the most recently modified first.
    pub fn list_entries(&self, files: &Vec<ListedFile>) -> (r: Vec<EntryMetadata>)
        ensures
            metadata_views(r@).to_multiset() == listing(self@, listed_views(files@)).to_multiset(),
            newest_first(metadata_views(r@)),
            r@.len() == listing(self@, listed_views(files@)).len(),
            files@.len() == 0 ==> r@.len() == 0,
    {
        let mut r: Vec<EntryMetadata> = Vec::new();
        let mut i: usize = 0;
        assert(metadata_views(r@) =~= Seq::<EntryMetadataView>::empty());
        assert(listed_views(files@).take(0) =~= Seq::<ListedFileView>::empty());
        while i < files.len()
            invariant
                i <= files@.len(),
                metadata_views(r@).to_multiset() == listing(
                    self@,
                    listed_views(files@).take(i as int),
                ).to_multiset(),
                newest_first(metadata_views(r@)),
            decreases files@.len() - i,
        {
            let f = &files[i];
            let ghost before = metadata_views(r@);
            let ghost lv = listed_views(files@);
            assert(lv.take(i + 1).drop_last() =~= lv.take(i as int));
            assert(lv.take(i + 1).last() == f@);
            let id = entry_id_of_file_name(f.file_name.as_str());
            if let Some(id) = id {
                if let Some(file) = &f.read {
                    let m = self.entry_metadata(id.as_str(), file);
                    let j = insertion_point(&r, m.modified_at);
                    r.insert(j, m);
                    proof {
                        let after = metadata_views(r@);
                        let x = m@;
                        before.insert_ensures(j as int, x);
                        assert(after =~= before.insert(j as int, x));
                        assert(after.remove(j as int) =~= before);
                        assert(after.contains(x)) by {
                            assert(after[j as int] == x);
                        }
                        assert(after.to_multiset() =~= before.to_multiset().insert(x));
                        assert forall|a: int, b: int|
                            0 <= a < b < after.len() implies after[a].modified_at
                            >= after[b].modified_at by {
                            if b < j {
                            } else if b == j {
                            } else if a < j {
                                assert(after[b] == before[b - 1]);
                            } else if a == j {
                                assert(after[b] == before[b - 1]);
                            } else {
                                assert(after[a] == before[a - 1]);
                                assert(after[b] == before[b - 1]);
                            }
                        }
                    }
                }
            }
            i = i + 1;
        }
        assert(listed_views(files@).take(files@.len() as int) =~= listed_views(files@));
        assert(metadata_views(r@).len() == r@.len());
        assert(listing(self@, listed_views(files@)).to_multiset().len() == listing(
            self@,
            listed_views(files@),
        ).len());
        r
    }

    /// The write that stores `content` as the whole text of entry `id`.
    pub fn save_entry(&self, id: &str, content: &str) -> (r: FileWrite)
        ensures
            r.path@ == path_in(self@, entry_file_name(id@)),
            r.content@ == content@,
    {
        FileWrite { path: self.entry_path(id), content: String::from_str(content) }
    }

    /// A new entry titled `title`, created `now_secs` seconds after the Unix
    /// epoch: its id, formed from that moment in UTC, and the write that
    /// starts its file with the title as a heading and a blank line.
    pub fn create_entry(&self, title: &str, now_secs: u64) -> (r: (String, FileWrite))
        ensures
            exists|t: CivilTime|
                t.is_valid() && t.unix_seconds() == now_secs && r.0@ == id_text(t),
            r.1.path@ == path_in(self@, entry_file_name(r.0@)),
            r.1.content@ == initial_content(title@),
    {
        let id = entry_id_at(now_secs);
        proof {
            reveal_strlit("# ");
            reveal_strlit("\n\n");
        }
        let content = String::from_str("# ").concat(title).concat("\n\n");
        assert(content@ =~= initial_content(title@));
        let path = self.entry_path(id.as_str());
        (id, FileWrite { path, content })
    }
}

/// The files of an entries directory, by name.
pub type DirectoryState = Map<Seq<char>, FileContentsView>;

/// What reading the file of entry `id` gives in directory state `d`.
pub open spec fn read_in(d: DirectoryState, id: Seq<char>) -> FileReadView {
    if d.contains_key(entry_file_name(id)) {
        FileReadView::Read(d[entry_file_name(id)])
    } else {
        FileReadView::Missing
    }
}

/// Directory state `d` once the file of entry `id` holds `content`, written
/// at `at`.
pub open spec fn after_write(d: DirectoryState, id: Seq<char>, content: Seq<char>, at: i64) -> DirectoryState {
    d.insert(entry_file_name(id), FileContentsView { content, modified_at: at })
}

/// Directory state `d` once the file of entry `id` is removed.
pub open spec fn after_remove(d: DirectoryState, id: Seq<char>) -> DirectoryState {
    d.remove(entry_file_name(id))
}

/// A title without line breaks and without white space at either end.
pub open spec fn is_plain_title(title: Seq<char>) -> bool {
    &&& forall|i: int| 0 <= i < title.len() ==> title[i] != '\n'
    &&& title.len() > 0 ==> !is_white_space(title[0]) && !is_white_space(title.last())
}

/// Reading back a new entry gives its title: the first line of the text
/// that a new entry starts with, read as a heading, is the title it was
/// created with, for every title without line breaks and without white
/// space at either end.
pub proof fn lemma_create_then_get(
    dir: Seq<char>,
    d: DirectoryState,
    id: Seq<char>,
    title: Seq<char>,
    at: i64,
)
    requires
        is_plain_title(title),
    ensures
        get_outcome(dir, id, read_in(after_write(d, id, initial_content(title), at), id)) matches Ok(
            e,
        ) && heading_text(first_line(e.content)) == title,
{
    let c = initial_content(title);
    let head = seq!['#', ' '] + title;
    assert(c =~= head + seq!['\n', '\n']);
    lemma_line_break_after(head, seq!['\n', '\n']);
    assert(first_line(c) =~= head);
    assert(head.drop_first() =~= seq![' '] + title);
    assert(strip_heading_markers(seq![' '] + title) == seq![' '] + title);
    assert((seq![' '] + title).drop_first() =~= title);
    assert(trim_start(seq![' '] + title) == trim_start(title));
    assert(trim_start(title) == title);
    assert(trim_end(title) == title);
}

/// Saving then reading an entry gives back exactly the text saved, with the
/// time of the write as its modification time.
pub proof fn lemma_save_then_get(
    dir: Seq<char>,
    d: DirectoryState,
    id: Seq<char>,
    content: Seq<char>,
    at: i64,
)
    ensures
        get_outcome(dir, id, read_in(after_write(d, id, content, at), id)) matches Ok(e)
            && e.content == content && e.modified_at == at && e.created_at == at,
{
}

/// Deleting is idempotent: once an entry's file is gone, deleting the entry
/// again succeeds, whatever a removal would have reported.
pub proof fn lemma_delete_twice(d: DirectoryState, id: Seq<char>, removed: bool)
    ensures
        delete_outcome(after_remove(d, id).contains_key(entry_file_name(id)), removed) == Ok::<
            (),
            StoreError,
        >(()),
{
}

/// Reading an entry whose file was never written fails with `NotFound`.
pub proof fn lemma_get_missing(dir: Seq<char>, d: DirectoryState, id: Seq<char>)
    requires
        !d.contains_key(entry_file_name(id)),
    ensures
        get_outcome(dir, id, read_in(d, id)) == Err::<EntryView, StoreError>(StoreError::NotFound),
{
}

/// A directory with no entry files, the empty one among them, lists as an
/// empty sequence.
pub proof fn lemma_listing_without_entries(dir: Seq<char>, files: Seq<ListedFileView>)
    requires
        forall|i: int| 0 <= i < files.len() ==> entry_id_of(#[trigger] files[i].file_name) is None,
    ensures
        listing(dir, files) == Seq::<EntryMetadataView>::empty(),
    decreases files.len(),
{
    if files.len() > 0 {
        let rest = files.drop_last();
        assert forall|i: int| 0 <= i < rest.len() implies entry_id_of(
            #[trigger] rest[i].file_name,
        ) is None by {
            assert(rest[i] == files[i]);
        }
        lemma_listing_without_entries(dir, rest);
        assert(entry_id_of(files[files.len() - 1].file_name) is None);
    }
}

} // verus!
