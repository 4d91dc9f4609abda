//! The storage gateway client: folder semantics over a flat key space, and
//! the part of each bucket operation that decides on what the store
//! returned.

use vstd::prelude::*;
use vstd::utf8::encode_utf8;

use crate::bindings::{
    automaton_builds, build_matcher, contains_ignoring_ascii_case, guessed_mime, matches_text,
    mime_for_path,
};
use crate::config::{S3Bucket, S3Config};
use crate::retry::RetryState;
use crate::text::{joined, name_of, same_text, strip_prefix};

verus! {

/// One entry of a listing: a folder (a common prefix) or a file (an object).
#[derive(Debug, Clone)]
pub struct FileList {
    /// The full key, or the prefix of a folder.
    pub path: String,
    /// The last path segment.
    pub name: String,
    /// Size in bytes; 0 for folders.
    pub size: u64,
    pub folder: bool,
    /// Where the file is served from, when the bucket has a CDN.
    pub cdn_url: Option<String>,
}

/// A listing entry as plain values.
pub struct FileListView {
    pub path: Seq<char>,
    pub name: Seq<char>,
    pub size: u64,
    pub folder: bool,
    pub cdn_url: Option<Seq<char>>,
}

impl View for FileList {
    type V = FileListView;

    open spec fn view(&self) -> FileListView {
        FileListView {
            path: self.path@,
            name: self.name@,
            size: self.size,
            folder: self.folder,
            cdn_url: match self.cdn_url {
                Some(u) => Some(u@),
                None => None,
            },
        }
    }
}

/// An object as the store lists it.
#[derive(Debug, Clone)]
pub struct ObjectInfo {
    pub key: String,
    pub size: u64,
}

/// What the store returned for one listing, all pages together.
#[derive(Debug, Clone)]
pub struct Listing {
    /// The objects, in the order the store gave them.
    pub objects: Vec<ObjectInfo>,
    /// The common prefixes under the delimiter: the folders.
    pub prefixes: Vec<String>,
}

/// Errors of the storage client.
#[derive(Debug)]
pub enum S3Error {
    /// No such object, or no single file to download.
    NotFound,
    /// No searcher could be built for the pattern.
    InvalidPattern,
    /// The upload part size is zero.
    InvalidPoolSize,
    /// The upload needs more parts than part numbers can count.
    TooManyParts,
}

/// The entry for a folder.
pub open spec fn folder_entry(prefix: Seq<char>) -> FileListView {
    FileListView { path: prefix, name: name_of(prefix), size: 0, folder: true, cdn_url: None }
}

/// The entry for a file, decorated with the CDN URL when `cdn` is non-empty.
pub open spec fn file_entry(key: Seq<char>, size: u64, cdn: Seq<char>) -> FileListView {
    FileListView {
        path: key,
        name: name_of(key),
        size,
        folder: false,
        cdn_url: if cdn.len() == 0 {
            None
        } else {
            Some(cdn + key)
        },
    }
}

/// The folder entries of `prefixes`, in order.
pub open spec fn listed_folders(prefixes: Seq<String>) -> Seq<FileListView>
    decreases prefixes.len(),
{
    if prefixes.len() == 0 {
        Seq::empty()
    } else {
        listed_folders(prefixes.drop_last()).push(folder_entry(prefixes.last()@))
    }
}

/// The file entries of `objects`, in order, leaving out the empty ones
/// (folder placeholders).
pub open spec fn listed_files(objects: Seq<ObjectInfo>, cdn: Seq<char>) -> Seq<FileListView>
    decreases objects.len(),
{
    if objects.len() == 0 {
        Seq::empty()
    } else {
        let prev = listed_files(objects.drop_last(), cdn);
        let o = objects.last();
        if o.size > 0 {
            prev.push(file_entry(o.key@, o.size, cdn))
        } else {
            prev
        }
    }
}

/// The entries that a search for `needle` keeps of `objects`: non-empty
/// objects whose key holds the needle, ASCII letters without case.
pub open spec fn searched_files(objects: Seq<ObjectInfo>, needle: Seq<u8>) -> Seq<FileListView>
    decreases objects.len(),
{
    if objects.len() == 0 {
        Seq::empty()
    } else {
        let prev = searched_files(objects.drop_last(), needle);
        let o = objects.last();
        if o.size > 0 && contains_ignoring_ascii_case(encode_utf8(o.key@), needle) {
            prev.push(file_entry(o.key@, o.size, Seq::empty()))
        } else {
            prev
        }
    }
}

/// The views of a vector of entries.
pub open spec fn views(v: Seq<FileList>) -> Seq<FileListView> {
    v.map_values(|e: FileList| e@)
}

/// The shortest pattern for which a search scans the bucket.
pub const MIN_SEARCH_LEN: usize = 3;

/// The key of the placeholder object that marks folder `path`.
pub open spec fn placeholder_key(path: Seq<char>) -> Seq<char> {
    path + "/.placeholder"@
}

/// The content type that an upload to `path` carries.
pub open spec fn upload_content_type(guess: bool, path: Seq<char>) -> Seq<char> {
    if guess {
        guessed_mime(path)
    } else {
        "application/octet-stream"@
    }
}

impl FileList {
    /// The entry for an object.
    pub fn from_object(o: &ObjectInfo) -> (r: FileList)
        ensures
            r@ == file_entry(o.key@, o.size, Seq::empty()),
    {
        FileList {
            name: strip_prefix(o.key.as_str()),
            path: o.key.as_str().to_owned(),
            size: o.size,
            folder: false,
            cdn_url: None,
        }
    }

    /// The entry for a common prefix.
    pub fn from_prefix(prefix: &String) -> (r: FileList)
        ensures
            r@ == folder_entry(prefix@),
    {
        FileList {
            name: strip_prefix(prefix.as_str()),
            path: prefix.as_str().to_owned(),
            size: 0,
            folder: true,
            cdn_url: None,
        }
    }
}

/// A handle on one configured bucket; the remote connection is held by the
/// caller, which hands each operation what the store returned.
pub struct S3Client {
    pub config: S3Bucket,
    /// The size of one upload part, in bytes.
    pub upload_memory_pool: usize,
}

impl S3Client {
    /// A client for `bucket_config` with the shared storage settings.
    pub fn new_from_bucket(s3_config: &S3Config, bucket_config: S3Bucket) -> (r: S3Client)
        ensures
            r.config == bucket_config,
            r.upload_memory_pool == s3_config.upload_memory_pool,
    {
        S3Client { config: bucket_config, upload_memory_pool: s3_config.upload_memory_pool }
    }

    /// A fresh retry budget for one remote call on this bucket.
    pub fn retry_state(&self) -> (r: RetryState)
        ensures
            r.tries == self.config.tries,
            r.expirations == 0,
    {
        RetryState::new(self.config.tries)
    }

    /// Whether an object with exactly the key `path` is in `listing`.
    pub fn key_exists(&self, path: &str, listing: &Listing) -> (r: bool)
        ensures
            r == exists|i: int| 0 <= i < listing.objects@.len() && #[trigger] listing.objects@[i].key@ == path@,
    {
        let mut i: usize = 0;
        while i < listing.objects.len()
            invariant
                i <= listing.objects.len(),
                forall|j: int| 0 <= j < i ==> #[trigger] listing.objects@[j].key@ != path@,
            decreases listing.objects.len() - i,
        {
            if same_text(listing.objects[i].key.as_str(), path) {
                return true;
            }
            i = i + 1;
        }
        false
    }

    /// The entries of a delimiter listing: folders first, then the
    /// non-empty files, each in the store's order.
    pub fn list(&self, listing: &Listing) -> (r: Vec<FileList>)
        ensures
            views(r@) == listed_folders(listing.prefixes@) + listed_files(
                listing.objects@,
                self.config.cdn_url@,
            ),
    {
        let mut r: Vec<FileList> = Vec::new();
        let mut i: usize = 0;
        while i < listing.prefixes.len()
            invariant
                i <= listing.prefixes.len(),
                views(r@) == listed_folders(listing.prefixes@.subrange(0, i as int)),
            decreases listing.prefixes.len() - i,
        {
            let e = FileList::from_prefix(&listing.prefixes[i]);
            let ghost before = r@;
            r.push(e);
            proof {
                assert(listing.prefixes@.subrange(0, i + 1).drop_last() =~= listing.prefixes@.subrange(0, i as int));
                assert(r@.drop_last() == before);
                assert(views(r@) =~= views(before).push(e@));
            }
            i = i + 1;
        }
        assert(listing.prefixes@.subrange(0, i as int) =~= listing.prefixes@);
        let cdn = self.config.cdn_url.as_str();
        let mut k: usize = 0;
        while k < listing.objects.len()
            invariant
                k <= listing.objects.len(),
                cdn@ == self.config.cdn_url@,
                views(r@) == listed_folders(listing.prefixes@) + listed_files(
                    listing.objects@.subrange(0, k as int),
                    cdn@,
                ),
            decreases listing.objects.len() - k,
        {
            let o = &listing.objects[k];
            assert(listing.objects@.subrange(0, k + 1).drop_last() =~= listing.objects@.subrange(0, k as int));
            if o.size > 0 {
                let mut e = FileList::from_object(o);
                if !cdn.is_empty() {
                    e.cdn_url = Some(joined(cdn, o.key.as_str()));
                }
                let ghost before = r@;
                r.push(e);
                assert(r@.drop_last() == before);
                assert(views(r@) =~= views(before).push(e@));
            }
            k = k + 1;
        }
        assert(listing.objects@.subrange(0, k as int) =~= listing.objects@);
        r
    }

    /// Whether a search for `pattern` scans the bucket: patterns shorter
    /// than three characters are answered with nothing, to keep a stray
    /// keystroke from listing the whole bucket.
    pub fn search_scans(pattern: &str) -> (r: bool)
        ensures
            r == (pattern@.len() >= MIN_SEARCH_LEN),
    {
        pattern.unicode_len() >= MIN_SEARCH_LEN
    }

    /// The result of a search for `pattern` over a flat listing of the whole
    /// bucket: the non-empty objects whose key contains the pattern, ASCII
    /// letters compared without case.
    pub fn search(&self, pattern: &str, listing: &Listing) -> (r: Result<Vec<FileList>, S3Error>)
        ensures
            pattern@.len() < MIN_SEARCH_LEN ==> (r matches Ok(v) && v.len() == 0),
            pattern@.len() >= MIN_SEARCH_LEN ==> match r {
                Ok(v) => views(v@) == searched_files(listing.objects@, encode_utf8(pattern@)),
                Err(e) => e is InvalidPattern && !automaton_builds(encode_utf8(pattern@)),
            },
            pattern@.len() >= MIN_SEARCH_LEN && automaton_builds(encode_utf8(pattern@)) ==> r is Ok,
    {
        if !Self::search_scans(pattern) {
            return Ok(Vec::new());
        }
        let m = match build_matcher(pattern) {
            Some(m) => m,
            None => return Err(S3Error::InvalidPattern),
        };
        let mut r: Vec<FileList> = Vec::new();
        let mut k: usize = 0;
        while k < listing.objects.len()
            invariant
                k <= listing.objects.len(),
                m.needle() == encode_utf8(pattern@),
                views(r@) == searched_files(listing.objects@.subrange(0, k as int), m.needle()),
            decreases listing.objects.len() - k,
        {
            let o = &listing.objects[k];
            assert(listing.objects@.subrange(0, k + 1).drop_last() =~= listing.objects@.subrange(0, k as int));
            if o.size > 0 && matches_text(&m, o.key.as_str()) {
                let e = FileList::from_object(o);
                let ghost before = r@;
                r.push(e);
                assert(r@.drop_last() == before);
                assert(views(r@) =~= views(before).push(e@));
            }
            k = k + 1;
        }
        assert(listing.objects@.subrange(0, k as int) =~= listing.objects@);
        Ok(r)
    }

    /// The content type of an upload to `path`: guessed from its extension
    /// when the bucket guesses, else `application/octet-stream`.
    pub fn content_type(&self, path: &str) -> (r: String)
        ensures
            r@ == upload_content_type(self.config.guess_mime, path@),
    {
        if self.config.guess_mime {
            mime_for_path(path)
        } else {
            "application/octet-stream".to_owned()
        }
    }

    /// Name, size and MIME type of the one file that a listing of the
    /// download path found; `NotFound` unless it found exactly one entry and
    /// that entry is a file.
    pub fn prepare_download(&self, entries: &Vec<FileList>) -> (r: Result<(String, u64, String), S3Error>)
        ensures
            r is Ok <==> entries.len() == 1 && !entries@[0].folder,
            r matches Ok((name, size, mime)) ==> name@ == entries@[0].name@ && size == entries@[0].size
                && mime@ == guessed_mime(entries@[0].name@),
            r matches Err(e) ==> e is NotFound,
    {
        if entries.len() != 1 || entries[0].folder {
            return Err(S3Error::NotFound);
        }
        let file = &entries[0];
        let mime = mime_for_path(file.name.as_str());
        Ok((file.name.as_str().to_owned(), file.size, mime))
    }

    /// The key of the placeholder object that `mkdir(path)` creates.
    pub fn mkdir_key(path: &str) -> (r: String)
        ensures
            r@ == placeholder_key(path@),
    {
        joined(path, "/.placeholder")
    }
}

} // verus!
