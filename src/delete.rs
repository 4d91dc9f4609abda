//! Recursive folder deletion: a breadth-first walk over the folders under a
//! path, collecting every file and placeholder key to delete first and the
//! folder markers to delete afterwards.

use vstd::prelude::*;

use crate::s3::{views, FileList, FileListView};
use crate::text::{has_no_slash, joined, lemma_segment_start, segment_start, texts};

verus! {

/// The key of the placeholder object inside folder prefix `folder`.
pub open spec fn folder_placeholder(folder: Seq<char>) -> Seq<char> {
    folder + ".placeholder"@
}

/// The keys that a listing adds to the first deletion phase: each file's
/// key and each folder's placeholder, in order.
pub open spec fn entry_keys(entries: Seq<FileListView>) -> Seq<Seq<char>>
    decreases entries.len(),
{
    if entries.len() == 0 {
        Seq::empty()
    } else {
        let e = entries.last();
        entry_keys(entries.drop_last()).push(
            if e.folder {
                folder_placeholder(e.path)
            } else {
                e.path
            },
        )
    }
}

/// The folders that a listing adds to the walk, in order.
pub open spec fn entry_folders(entries: Seq<FileListView>) -> Seq<Seq<char>>
    decreases entries.len(),
{
    if entries.len() == 0 {
        Seq::empty()
    } else {
        let e = entries.last();
        let prev = entry_folders(entries.drop_last());
        if e.folder {
            prev.push(e.path)
        } else {
            prev
        }
    }
}

/// Whether `l` holds an entry with this kind and path.
pub open spec fn has_entry(l: Seq<FileListView>, folder: bool, path: Seq<char>) -> bool {
    exists|i: int| 0 <= i < l.len() && l[i].folder == folder && #[trigger] l[i].path == path
}

/// The index of the first `/` of `s`, or its length when it holds none.
pub open spec fn first_slash(s: Seq<char>) -> int
    decreases s.len(),
{
    if s.len() == 0 {
        0
    } else if s[0] == '/' {
        0
    } else {
        1 + first_slash(s.drop_first())
    }
}

/// Whether listing `l` of `folder` shows what a faithful delimiter listing
/// shows of `bucket` (key to size): for every key under `folder`, the
/// sub-folder that holds it, or the key itself when it lies directly in
/// `folder` and is not empty.
pub open spec fn listing_covers(bucket: Map<Seq<char>, u64>, folder: Seq<char>, l: Seq<FileListView>) -> bool {
    forall|k: Seq<char>|
        #[trigger] bucket.dom().contains(k) && folder.is_prefix_of(k) ==> {
            let rest = k.subrange(folder.len() as int, k.len() as int);
            let j = first_slash(rest);
            if j < rest.len() {
                has_entry(l, true, k.subrange(0, folder.len() + j + 1))
            } else {
                bucket[k] > 0 ==> has_entry(l, false, k)
            }
        }
}

/// The state of one recursive deletion.
pub struct DeletePlan {
    delete_list: Vec<String>,
    folders: Vec<String>,
    cursor: usize,
    awaiting: bool,
    listings: Ghost<Seq<Seq<FileListView>>>,
}

impl DeletePlan {
    /// The file and placeholder keys collected so far.
    pub closed spec fn keys(&self) -> Seq<Seq<char>> {
        texts(self.delete_list@)
    }

    /// Every folder found so far, the starting path first; each is deleted
    /// as a marker at the end.
    pub closed spec fn folders(&self) -> Seq<Seq<char>> {
        texts(self.folders@)
    }

    /// How many folders have been handed out for listing.
    pub closed spec fn visited(&self) -> nat {
        self.cursor as nat
    }

    /// Whether the listing of the last folder handed out is still due.
    pub closed spec fn awaiting(&self) -> bool {
        self.awaiting
    }

    /// The listings taken in so far; listing `i` is that of folder `i`.
    pub closed spec fn listings(&self) -> Seq<Seq<FileListView>> {
        self.listings@
    }

    /// The plan's invariant; `new` establishes it and every method keeps
    /// it, so it holds of every plan.
    pub closed spec fn wf(&self) -> bool {
        &&& self.cursor <= self.folders@.len()
        &&& self.folders@.len() >= 1
        &&& self.listings@.len() + (if self.awaiting {
            1int
        } else {
            0int
        }) == self.cursor
        &&& forall|i: int|
            0 <= i < self.folders().len() ==> self.keys().contains(
                folder_placeholder(#[trigger] self.folders()[i]),
            )
        &&& forall|i: int, j: int|
            0 <= i < self.listings@.len() && 0 <= j < self.listings@[i].len() ==> {
                let e = #[trigger] self.listings@[i][j];
                if e.folder {
                    self.folders().contains(e.path)
                } else {
                    self.keys().contains(e.path)
                }
            }
    }

    /// The plan for deleting everything under `path`.
    pub fn new(path: &str) -> (r: DeletePlan)
        ensures
            r.wf(),
            r.keys() == seq![folder_placeholder(path@)],
            r.folders() == seq![path@],
            r.visited() == 0,
            !r.awaiting(),
    {
        let mut delete_list: Vec<String> = Vec::new();
        delete_list.push(joined(path, ".placeholder"));
        let mut folders: Vec<String> = Vec::new();
        folders.push(path.to_owned());
        let r = DeletePlan { delete_list, folders, cursor: 0, awaiting: false, listings: Ghost(Seq::empty()) };
        assert(r.keys() =~= seq![folder_placeholder(path@)]);
        assert(r.folders() =~= seq![path@]);
        assert(r.keys()[0] == folder_placeholder(r.folders()[0]));
        r
    }

    /// Whether a folder has been handed out and its listing not yet taken in.
    pub fn is_awaiting_listing(&self) -> (r: bool)
        ensures
            r == self.awaiting(),
    {
        self.awaiting
    }

    /// The next folder to list, in the order found; `None` once every
    /// folder found has been handed out.
    pub fn next_folder(&mut self) -> (r: Option<String>)
        requires
            old(self).wf(),
            !old(self).awaiting(),
        ensures
            final(self).wf(),
            final(self).keys() == old(self).keys(),
            final(self).folders() == old(self).folders(),
            final(self).listings() == old(self).listings(),
            old(self).visited() < old(self).folders().len() ==> {
                &&& r matches Some(f) && f@ == old(self).folders()[old(self).visited() as int]
                &&& final(self).visited() == old(self).visited() + 1
                &&& final(self).awaiting()
            },
            old(self).visited() == old(self).folders().len() ==> r is None && final(self).visited()
                == old(self).visited() && !final(self).awaiting(),
    {
        if self.cursor < self.folders.len() {
            let f = self.folders[self.cursor].clone();
            assert(f@ == self.folders()[self.cursor as int]);
            self.cursor = self.cursor + 1;
            self.awaiting = true;
            Some(f)
        } else {
            None
        }
    }

    /// Takes in the listing of the folder last handed out: files are queued
    /// for deletion, folders have their placeholder queued and join the
    /// walk.
    pub fn record_listing(&mut self, entries: &Vec<FileList>)
        requires
            old(self).wf(),
            old(self).awaiting(),
        ensures
            final(self).wf(),
            !final(self).awaiting(),
            final(self).keys() == old(self).keys() + entry_keys(views(entries@)),
            final(self).folders() == old(self).folders() + entry_folders(views(entries@)),
            final(self).visited() == old(self).visited(),
            final(self).listings() == old(self).listings().push(views(entries@)),
    {
        let ghost old_keys = self.keys();
        let ghost old_folders = self.folders();
        let mut i: usize = 0;
        while i < entries.len()
            invariant
                i <= entries.len(),
                self.cursor == old(self).cursor,
                self.awaiting == old(self).awaiting,
                self.listings == old(self).listings,
                self.cursor <= self.folders@.len(),
                old_keys == texts(old(self).delete_list@),
                old_folders == texts(old(self).folders@),
                texts(self.delete_list@) == old_keys + entry_keys(views(entries@.subrange(0, i as int))),
                texts(self.folders@) == old_folders + entry_folders(views(entries@.subrange(0, i as int))),
            decreases entries.len() - i,
        {
            let e = &entries[i];
            let ghost pre = views(entries@.subrange(0, i as int));
            assert(views(entries@.subrange(0, i + 1)) =~= pre.push(e@));
            assert(views(entries@.subrange(0, i + 1)).drop_last() =~= pre);
            let ghost dl = self.delete_list@;
            let ghost fl = self.folders@;
            if e.folder {
                self.delete_list.push(joined(e.path.as_str(), ".placeholder"));
                self.folders.push(e.path.clone());
                assert(texts(self.folders@) =~= texts(fl).push(e.path@));
            } else {
                self.delete_list.push(e.path.clone());
                assert(self.folders@ == fl);
            }
            assert(texts(self.delete_list@) =~= texts(dl).push(
                if e.folder {
                    folder_placeholder(e.path@)
                } else {
                    e.path@
                },
            ));
            i = i + 1;
        }
        assert(entries@.subrange(0, i as int) =~= entries@);
        let ghost l = views(entries@);
        self.awaiting = false;
        self.listings = Ghost(self.listings@.push(l));
        proof {
            lemma_entry_membership(l);
            let nk = self.keys();
            let nf = self.folders();
            let ek = entry_keys(l);
            let ef = entry_folders(l);
            assert(nk == old_keys + ek);
            assert(nf == old_folders + ef);
            assert forall|x: Seq<char>| old_keys.contains(x) implies nk.contains(x) by {
                let w = choose|w: int| 0 <= w < old_keys.len() && old_keys[w] == x;
                assert(nk[w] == x);
            }
            assert forall|x: Seq<char>| ek.contains(x) implies nk.contains(x) by {
                let w = choose|w: int| 0 <= w < ek.len() && ek[w] == x;
                assert(nk[old_keys.len() + w] == x);
            }
            assert forall|x: Seq<char>| old_folders.contains(x) implies nf.contains(x) by {
                let w = choose|w: int| 0 <= w < old_folders.len() && old_folders[w] == x;
                assert(nf[w] == x);
            }
            assert forall|x: Seq<char>| ef.contains(x) implies nf.contains(x) by {
                let w = choose|w: int| 0 <= w < ef.len() && ef[w] == x;
                assert(nf[old_folders.len() + w] == x);
            }
            assert forall|i: int| 0 <= i < nf.len() implies nk.contains(folder_placeholder(#[trigger] nf[i])) by {
                if i < old_folders.len() {
                    assert(nf[i] == old_folders[i]);
                } else {
                    assert(nf[i] == ef[i - old_folders.len()]);
                    assert(ef.contains(nf[i]));
                }
            }
            assert forall|i: int, j: int|
                0 <= i < self.listings@.len() && 0 <= j < self.listings@[i].len() implies {
                    let e = #[trigger] self.listings@[i][j];
                    if e.folder {
                        nf.contains(e.path)
                    } else {
                        nk.contains(e.path)
                    }
                } by {
                if i < old(self).listings@.len() {
                    assert(self.listings@[i] == old(self).listings@[i]);
                    let e = old(self).listings@[i][j];
                    if e.folder {
                        assert(old_folders.contains(e.path));
                    } else {
                        assert(old_keys.contains(e.path));
                    }
                } else {
                    assert(self.listings@[i] == l);
                }
            }
        }
    }

    /// Whether every folder found has been listed.
    pub fn is_done(&self) -> (r: bool)
        ensures
            r == (self.visited() == self.folders().len() && !self.awaiting()),
    {
        self.cursor == self.folders.len() && !self.awaiting
    }

    /// The keys to delete, in order: the files and placeholders first, then
    /// the folder markers.
    pub fn deletions(&self) -> (r: Vec<String>)
        ensures
            texts(r@) == self.keys() + self.folders(),
    {
        let mut r: Vec<String> = Vec::new();
        let mut i: usize = 0;
        while i < self.delete_list.len()
            invariant
                i <= self.delete_list.len(),
                texts(r@) == texts(self.delete_list@.subrange(0, i as int)),
            decreases self.delete_list.len() - i,
        {
            let c = self.delete_list[i].clone();
            let ghost before = r@;
            r.push(c);
            assert(texts(r@) =~= texts(before).push(c@));
            assert(texts(self.delete_list@.subrange(0, i + 1)) =~= texts(
                self.delete_list@.subrange(0, i as int),
            ).push(c@));
            i = i + 1;
        }
        let mut j: usize = 0;
        while j < self.folders.len()
            invariant
                j <= self.folders.len(),
                texts(r@) == texts(self.delete_list@) + texts(self.folders@.subrange(0, j as int)),
            decreases self.folders.len() - j,
        {
            let c = self.folders[j].clone();
            let ghost before = r@;
            r.push(c);
            assert(texts(r@) =~= texts(before).push(c@));
            assert(texts(self.folders@.subrange(0, j + 1)) =~= texts(
                self.folders@.subrange(0, j as int),
            ).push(c@));
            j = j + 1;
        }
        assert(self.delete_list@.subrange(0, i as int) =~= self.delete_list@);
        assert(self.folders@.subrange(0, j as int) =~= self.folders@);
        r
    }
}

/// Where the entries of a listing go: each folder's path to the walk and
/// its placeholder to the keys, each file's path to the keys.
proof fn lemma_entry_membership(l: Seq<FileListView>)
    ensures
        forall|j: int|
            0 <= j < l.len() ==> if (#[trigger] l[j]).folder {
                entry_folders(l).contains(l[j].path)
            } else {
                entry_keys(l).contains(l[j].path)
            },
        forall|x: Seq<char>| entry_folders(l).contains(x) ==> entry_keys(l).contains(folder_placeholder(x)),
    decreases l.len(),
{
    if l.len() > 0 {
        let d = l.drop_last();
        lemma_entry_membership(d);
        let e = l.last();
        let ek = entry_keys(l);
        let ef = entry_folders(l);
        assert(ek == entry_keys(d).push(if e.folder { folder_placeholder(e.path) } else { e.path }));
        assert forall|x: Seq<char>| entry_keys(d).contains(x) implies ek.contains(x) by {
            let w = choose|w: int| 0 <= w < entry_keys(d).len() && entry_keys(d)[w] == x;
            assert(ek[w] == x);
        }
        assert forall|x: Seq<char>| entry_folders(d).contains(x) implies ef.contains(x) by {
            let w = choose|w: int| 0 <= w < entry_folders(d).len() && entry_folders(d)[w] == x;
            if e.folder {
                assert(ef[w] == x);
            } else {
                assert(ef == entry_folders(d));
            }
        }
        assert(ek[ek.len() - 1] == if e.folder { folder_placeholder(e.path) } else { e.path });
        if e.folder {
            assert(ef[ef.len() - 1] == e.path);
        }
        assert forall|j: int| 0 <= j < l.len() implies if (#[trigger] l[j]).folder {
            ef.contains(l[j].path)
        } else {
            ek.contains(l[j].path)
        } by {
            if j < d.len() {
                assert(l[j] == d[j]);
            }
        }
        assert forall|x: Seq<char>| ef.contains(x) implies ek.contains(folder_placeholder(x)) by {
            let w = choose|w: int| 0 <= w < ef.len() && ef[w] == x;
            if e.folder && w == ef.len() - 1 {
                assert(x == e.path);
            } else {
                assert(entry_folders(d)[w] == x);
                assert(entry_folders(d).contains(x));
            }
        }
    }
}

/// The first slash of `s` is at `j` when `s[..j]` holds none and `s[j]` is
/// one; with none at all it is at the end.
proof fn lemma_first_slash(s: Seq<char>, j: int)
    requires
        0 <= j <= s.len(),
        has_no_slash(s.subrange(0, j)),
        j < s.len() ==> s[j] == '/',
    ensures
        first_slash(s) == j,
    decreases s.len(),
{
    if s.len() > 0 && j > 0 {
        assert(s[0] == s.subrange(0, j)[0]);
        assert forall|i: int| 0 <= i < j - 1 implies #[trigger] s.drop_first().subrange(0, j - 1)[i] != '/' by {
            assert(s.drop_first().subrange(0, j - 1)[i] == s.subrange(0, j)[i + 1]);
        }
        lemma_first_slash(s.drop_first(), j - 1);
    }
}

/// Each folder on the way from the start of the walk down to a key under
/// it is found by a complete walk.
proof fn lemma_reached(plan: DeletePlan, bucket: Map<Seq<char>, u64>, k: Seq<char>, m: int)
    requires
        plan.wf(),
        plan.visited() == plan.folders().len(),
        !plan.awaiting(),
        forall|i: int|
            0 <= i < plan.folders().len() ==> listing_covers(bucket, #[trigger] plan.folders()[i], plan.listings()[i]),
        bucket.dom().contains(k),
        plan.folders()[0].is_prefix_of(k),
        0 <= m <= k.len() - plan.folders()[0].len(),
        m == 0 || k[plan.folders()[0].len() + m - 1] == '/',
    ensures
        plan.folders().contains(k.subrange(0, plan.folders()[0].len() + m)),
    decreases m,
{
    let root = plan.folders()[0];
    let r = root.len() as int;
    let rest = k.subrange(r, k.len() as int);
    if m == 0 {
        assert(k.subrange(0, r) =~= root);
    } else {
        let pre = rest.subrange(0, m - 1);
        lemma_segment_start(pre);
        let p = segment_start(pre);
        if p > 0 {
            assert(k[r + p - 1] == pre[p - 1]);
        }
        lemma_reached(plan, bucket, k, p);
        let f = k.subrange(0, r + p);
        let i = choose|i: int| 0 <= i < plan.folders().len() && plan.folders()[i] == f;
        assert(listing_covers(bucket, plan.folders()[i], plan.listings()[i]));
        assert(f.is_prefix_of(k));
        let tail = k.subrange(f.len() as int, k.len() as int);
        assert forall|x: int| 0 <= x < m - 1 - p implies #[trigger] tail.subrange(0, m - 1 - p)[x] != '/' by {
            assert(tail.subrange(0, m - 1 - p)[x] == pre.subrange(p, m - 1)[x]);
        }
        assert(tail[m - 1 - p] == k[r + m - 1]);
        lemma_first_slash(tail, m - 1 - p);
        let l = plan.listings()[i];
        assert(has_entry(l, true, k.subrange(0, r + m)));
        let j = choose|j: int| 0 <= j < l.len() && l[j].folder == true && l[j].path == k.subrange(0, r + m);
        assert(l[j].folder);
    }
}

/// A complete walk, each folder listed faithfully, deletes every key under
/// the starting path but for empty files: every key with content, every
/// folder placeholder, and every key that names a folder (ends with `/`).
pub proof fn lemma_walk_deletes_everything(plan: DeletePlan, bucket: Map<Seq<char>, u64>)
    requires
        plan.wf(),
        plan.visited() == plan.folders().len(),
        !plan.awaiting(),
        forall|i: int|
            0 <= i < plan.folders().len() ==> listing_covers(bucket, #[trigger] plan.folders()[i], plan.listings()[i]),
    ensures
        forall|k: Seq<char>|
            #[trigger] bucket.dom().contains(k) && plan.folders()[0].is_prefix_of(k) ==> {
                let rest = k.subrange(plan.folders()[0].len() as int, k.len() as int);
                let name = rest.subrange(segment_start(rest), rest.len() as int);
                (bucket[k] > 0 || name.len() == 0 || name == ".placeholder"@) ==> (plan.keys()
                    + plan.folders()).contains(k)
            },
{
    let root = plan.folders()[0];
    let r = root.len() as int;
    let all = plan.keys() + plan.folders();
    assert forall|k: Seq<char>|
        #[trigger] bucket.dom().contains(k) && root.is_prefix_of(k) implies {
            let rest = k.subrange(r, k.len() as int);
            let name = rest.subrange(segment_start(rest), rest.len() as int);
            (bucket[k] > 0 || name.len() == 0 || name == ".placeholder"@) ==> all.contains(k)
        } by {
        let rest = k.subrange(r, k.len() as int);
        lemma_segment_start(rest);
        let s = segment_start(rest);
        let name = rest.subrange(s, rest.len() as int);
        if s > 0 {
            assert(k[r + s - 1] == rest[s - 1]);
        }
        lemma_reached(plan, bucket, k, s);
        let f = k.subrange(0, r + s);
        let i = choose|i: int| 0 <= i < plan.folders().len() && plan.folders()[i] == f;
        if name.len() == 0 {
            assert(k =~= f);
            assert(all[plan.keys().len() + i] == k);
        } else if name == ".placeholder"@ {
            assert(k =~= f + name);
            assert(plan.keys().contains(folder_placeholder(plan.folders()[i])));
            let w = choose|w: int| 0 <= w < plan.keys().len() && plan.keys()[w] == folder_placeholder(f);
            assert(all[w] == k);
        } else if bucket[k] > 0 {
            assert(listing_covers(bucket, plan.folders()[i], plan.listings()[i]));
            assert(f.is_prefix_of(k));
            let tail = k.subrange(f.len() as int, k.len() as int);
            assert(tail =~= name);
            assert(tail.subrange(0, tail.len() as int) =~= tail);
            lemma_first_slash(tail, tail.len() as int);
            let l = plan.listings()[i];
            let j = choose|j: int| 0 <= j < l.len() && l[j].folder == false && l[j].path == k;
            assert(!l[j].folder);
            assert(plan.keys().contains(k));
            let w = choose|w: int| 0 <= w < plan.keys().len() && plan.keys()[w] == k;
            assert(all[w] == k);
        }
    }
}

} // verus!
