//! Discovery of the remote tree.
//!
//! The crawler keeps a frontier of directories that still have to be listed.
//! It hands out one directory at a time, takes the listing back, and adds the
//! subdirectories it finds to the frontier. Any number of directories may be
//! out at once, so a transport is free to list them side by side. A
//! directory that cannot be listed fails the discovery.

use crate::api::FileInfo;
use crate::error::SyncError;
use crate::text::{any_prefix, starts_with_any, strip_leading, texts, trim_start};
use vstd::prelude::*;
use vstd::string::*;

verus! {

/// The path under which the directory `name` inside `parent` is listed.
/// It carries no leading slash, so it compares with a skip prefix as it
/// stands.
pub open spec fn child_path(parent: Seq<char>, name: Seq<char>) -> Seq<char> {
    trim_start(parent + name + "/"@, "/"@)
}

/// The entries of a listing that are files, in order.
pub open spec fn files_in(listing: Seq<FileInfo>) -> Seq<FileInfo>
    decreases listing.len(),
{
    if listing.len() == 0 {
        Seq::empty()
    } else if listing.last().is_directory {
        files_in(listing.drop_last())
    } else {
        files_in(listing.drop_last()).push(listing.last())
    }
}

/// The paths of the directories of a listing of `parent` that no skip
/// prefix covers, in order.
pub open spec fn children(parent: Seq<char>, listing: Seq<FileInfo>, skip: Seq<Seq<char>>) -> Seq<
    Seq<char>,
>
    decreases listing.len(),
{
    if listing.len() == 0 {
        Seq::empty()
    } else {
        let earlier = children(parent, listing.drop_last(), skip);
        let path = child_path(parent, listing.last().object_name@);
        if listing.last().is_directory && !any_prefix(path, skip) {
            earlier.push(path)
        } else {
            earlier
        }
    }
}

/// Every entry of `files_in` is a file.
pub proof fn lemma_files_in_holds_files(listing: Seq<FileInfo>)
    ensures
        forall|i: int| 0 <= i < files_in(listing).len() ==> !(#[trigger] files_in(
            listing,
        )[i]).is_directory,
    decreases listing.len(),
{
    if listing.len() > 0 {
        lemma_files_in_holds_files(listing.drop_last());
    }
}

/// A copy of a listed entry.
fn duplicate(file: &FileInfo) -> (copy: FileInfo)
    ensures
        copy == *file,
{
    let checksum = match &file.checksum {
        Some(text) => Some(text.clone()),
        None => None,
    };
    FileInfo {
        path: file.path.clone(),
        object_name: file.object_name.clone(),
        checksum,
        is_directory: file.is_directory,
    }
}

/// A discovery as a whole, for reasoning about where it ends.
pub struct Course {
    /// The directories that still have to be handed out.
    pub pending: Seq<Seq<char>>,
    /// The directories that are out.
    pub out: Seq<Seq<char>>,
    /// The directories whose listing has been taken back.
    pub listed: Set<Seq<char>>,
    /// The files found so far.
    pub found: Seq<FileInfo>,
}

/// What happens in a discovery.
pub enum Move {
    /// The next directory is handed out.
    Take,
    /// The listing of the directory at place `at` among those that are out
    /// is taken back.
    Give { at: int },
}

impl Course {
    /// Whether `path` has come up: it waits, is out, or is listed.
    pub open spec fn knows(&self, path: Seq<char>) -> bool {
        self.listed.contains(path) || self.out.contains(path) || self.pending.contains(path)
    }

    /// Whether the discovery is complete.
    pub open spec fn done(&self) -> bool {
        self.pending.len() == 0 && self.out.len() == 0
    }

    /// The discovery after the next directory is handed out. Where none
    /// waits nothing changes.
    pub open spec fn take(&self) -> Course {
        if self.pending.len() > 0 {
            Course {
                pending: self.pending.drop_last(),
                out: self.out.push(self.pending.last()),
                ..*self
            }
        } else {
            *self
        }
    }

    /// The discovery after `listing` is taken back for the directory at
    /// place `at` among those that are out. Where no such place exists
    /// nothing changes.
    pub open spec fn give(&self, at: int, listing: Seq<FileInfo>, skip: Seq<Seq<char>>) -> Course {
        if 0 <= at < self.out.len() {
            Course {
                pending: self.pending + children(self.out[at], listing, skip),
                out: self.out.remove(at),
                listed: self.listed.insert(self.out[at]),
                found: self.found + files_in(listing),
            }
        } else {
            *self
        }
    }

    /// The discovery after one move over `store`, which gives the listing
    /// of each directory.
    pub open spec fn after(
        &self,
        store: spec_fn(Seq<char>) -> Seq<FileInfo>,
        skip: Seq<Seq<char>>,
        step: Move,
    ) -> Course {
        match step {
            Move::Take => self.take(),
            Move::Give { at } => self.give(at, store(self.out[at]), skip),
        }
    }
}

/// The state of one discovery.
pub struct Crawler {
    skip: Vec<String>,
    pending: Vec<String>,
    awaited: usize,
    found: Vec<FileInfo>,
    failure: Option<SyncError>,
}

impl Crawler {
    /// The prefixes of the subtrees that are left out.
    pub closed spec fn skip(&self) -> Seq<Seq<char>> {
        texts(self.skip@)
    }

    /// The directories that still have to be handed out.
    pub closed spec fn pending(&self) -> Seq<Seq<char>> {
        texts(self.pending@)
    }

    /// The number of directories that are out: handed out, and their
    /// listing not yet taken back.
    pub closed spec fn awaited(&self) -> nat {
        self.awaited as nat
    }

    /// The files found so far.
    pub closed spec fn found(&self) -> Seq<FileInfo> {
        self.found@
    }

    /// The first failure to list a directory, if there was one.
    pub closed spec fn failure(&self) -> Option<SyncError> {
        self.failure
    }

    /// Whether the crawler stands where `course` stands.
    pub open spec fn follows(&self, course: Course) -> bool {
        &&& self.pending() == course.pending
        &&& self.awaited() == course.out.len()
        &&& self.found() == course.found
    }

    /// Whether no directory is among the files found so far. This holds of
    /// a new crawler, and `absorb` keeps it.
    pub open spec fn holds_files_only(&self) -> bool {
        forall|i: int| 0 <= i < self.found().len() ==> !(#[trigger] self.found()[i]).is_directory
    }

    /// A discovery of the subtree at `root`, leaving out what `skip` covers.
    pub fn new(root: String, skip: Vec<String>) -> (crawler: Self)
        ensures
            crawler.skip() == texts(skip@),
            crawler.pending() == seq![root@],
            crawler.awaited() == 0,
            crawler.found() == Seq::<FileInfo>::empty(),
            crawler.failure() is None,
    {
        let mut pending: Vec<String> = Vec::new();
        pending.push(root);
        let crawler = Crawler { skip, pending, awaited: 0, found: Vec::new(), failure: None };
        assert(crawler.pending() =~= seq![root@]);
        crawler
    }

    /// Hands out the next directory to list, if the frontier holds one.
    pub fn next_path(&mut self) -> (next: Option<String>)
        ensures
            next is Some <==> old(self).pending().len() > 0 && old(self).awaited() < usize::MAX,
            next matches Some(path) ==> {
                &&& path@ == old(self).pending().last()
                &&& final(self).pending() == old(self).pending().drop_last()
                &&& final(self).awaited() == old(self).awaited() + 1
            },
            next is None ==> final(self).pending() == old(self).pending() && final(self).awaited()
                == old(self).awaited(),
            final(self).skip() == old(self).skip(),
            final(self).found() == old(self).found(),
            final(self).failure() == old(self).failure(),
            forall|course: Course|
                next is Some && #[trigger] old(self).follows(course) ==> final(self).follows(
                    course.take(),
                ),
    {
        if self.awaited == usize::MAX {
            return None;
        }
        let ghost before = self.pending@;
        match self.pending.pop() {
            Some(path) => {
                self.awaited = self.awaited + 1;
                proof {
                    assert(texts(self.pending@) =~= texts(before).drop_last());
                }
                Some(path)
            },
            None => None,
        }
    }

    /// Takes back the listing of `parent`: its files are found, and its
    /// directories join the frontier unless a skip prefix covers them.
    pub fn absorb(&mut self, parent: &str, listing: &Vec<FileInfo>)
        requires
            old(self).awaited() > 0,
        ensures
            final(self).found() == old(self).found() + files_in(listing@),
            final(self).pending() == old(self).pending() + children(
                parent@,
                listing@,
                old(self).skip(),
            ),
            final(self).awaited() == old(self).awaited() - 1,
            final(self).skip() == old(self).skip(),
            final(self).failure() == old(self).failure(),
            old(self).holds_files_only() ==> final(self).holds_files_only(),
            forall|course: Course, at: int|
                #[trigger] old(self).follows(course) && 0 <= at < course.out.len()
                    && #[trigger] course.out[at] == parent@ ==> final(self).follows(
                    course.give(at, listing@, old(self).skip()),
                ),
    {
        let ghost found = self.found@;
        let ghost pending = texts(self.pending@);
        let ghost skip = texts(self.skip@);
        let mut i: usize = 0;
        proof {
            assert(listing@.take(0) =~= Seq::empty());
            assert(self.found@ =~= found + files_in(listing@.take(0)));
            assert(texts(self.pending@) =~= pending + children(parent@, listing@.take(0), skip));
        }
        while i < listing.len()
            invariant
                i <= listing.len(),
                self.awaited == old(self).awaited,
                self.skip == old(self).skip,
                self.failure == old(self).failure,
                skip == texts(self.skip@),
                self.found@ == found + files_in(listing@.take(i as int)),
                texts(self.pending@) == pending + children(parent@, listing@.take(i as int), skip),
            decreases listing.len() - i,
        {
            let entry = &listing[i];
            let ghost found_before = self.found@;
            let ghost pending_before = self.pending@;
            proof {
                assert(listing@.take(i + 1).drop_last() =~= listing@.take(i as int));
                assert(listing@.take(i + 1).last() == listing@[i as int]);
            }
            if entry.is_directory {
                let mut long = String::from_str(parent);
                long.append(entry.object_name.as_str());
                long.append("/");
                let path = strip_leading(long.as_str(), "/");
                if !starts_with_any(path.as_str(), &self.skip) {
                    self.pending.push(path);
                    proof {
                        assert(texts(self.pending@) =~= texts(pending_before).push(path@));
                    }
                }
            } else {
                let copy = duplicate(entry);
                self.found.push(copy);
            }
            proof {
                assert(self.found@ =~= found + files_in(listing@.take(i + 1)));
                assert(texts(self.pending@) =~= pending + children(
                    parent@,
                    listing@.take(i + 1),
                    skip,
                ));
            }
            i += 1;
        }
        proof {
            assert(listing@.take(listing.len() as int) =~= listing@);
            lemma_files_in_holds_files(listing@);
        }
        self.awaited = self.awaited - 1;
    }

    /// Takes a directory back whose listing failed. Nothing is found for
    /// it. The first such failure is kept, and fails the discovery.
    pub fn abandon(&mut self, fault: SyncError)
        requires
            old(self).awaited() > 0,
        ensures
            final(self).awaited() == old(self).awaited() - 1,
            final(self).failure() == (match old(self).failure() {
                Some(first) => Some(first),
                None => Some(fault),
            }),
            final(self).pending() == old(self).pending(),
            final(self).found() == old(self).found(),
            final(self).skip() == old(self).skip(),
    {
        self.awaited = self.awaited - 1;
        if self.failure.is_none() {
            self.failure = Some(fault);
        }
    }

    /// The first failure to list a directory, if there was one.
    pub fn failed(&self) -> (failure: Option<SyncError>)
        ensures
            failure == self.failure(),
    {
        self.failure
    }

    /// The number of directories that are out.
    pub fn awaiting(&self) -> (count: usize)
        ensures
            count == self.awaited(),
    {
        self.awaited
    }

    /// Whether the discovery is complete: nothing is left to hand out and
    /// nothing is out.
    pub fn is_done(&self) -> (done: bool)
        ensures
            done == (self.pending().len() == 0 && self.awaited() == 0),
    {
        self.pending.len() == 0 && self.awaited == 0
    }

    /// The files that the discovery found.
    pub fn into_files(self) -> (files: Vec<FileInfo>)
        ensures
            files@ == self.found(),
    {
        self.found
    }

    /// How the discovery ended: with the files it found, or with the first
    /// failure to list a directory.
    pub fn finish(self) -> (outcome: Result<Vec<FileInfo>, SyncError>)
        ensures
            outcome is Err <==> self.failure() is Some,
            outcome matches Err(fault) ==> self.failure() == Some(fault),
            outcome matches Ok(files) ==> files@ == self.found(),
    {
        match self.failure {
            Some(fault) => Err(fault),
            None => Ok(self.found),
        }
    }
}

/// The discovery from `root` after `moves`.
pub open spec fn course_after(
    store: spec_fn(Seq<char>) -> Seq<FileInfo>,
    skip: Seq<Seq<char>>,
    root: Seq<char>,
    moves: Seq<Move>,
) -> Course
    decreases moves.len(),
{
    if moves.len() == 0 {
        Course {
            pending: seq![root],
            out: Seq::empty(),
            listed: Set::empty(),
            found: Seq::empty(),
        }
    } else {
        course_after(store, skip, root, moves.drop_last()).after(store, skip, moves.last())
    }
}

/// Whether `trail` leads from `root` down through directories, each listed
/// in the one before it, with no skip prefix covering any below the root.
pub open spec fn descends(
    store: spec_fn(Seq<char>) -> Seq<FileInfo>,
    skip: Seq<Seq<char>>,
    root: Seq<char>,
    trail: Seq<Seq<char>>,
) -> bool {
    &&& trail.len() > 0
    &&& trail[0] == root
    &&& forall|i: int|
        0 < i < trail.len() ==> children(trail[i - 1], store(trail[i - 1]), skip).contains(
            #[trigger] trail[i],
        )
}

/// Whether the discovery has lost nothing: it knows the root, it knows
/// every directory that a listed directory leads to, and it has found
/// every file of every listed directory.
spec fn keeps_track(
    course: Course,
    store: spec_fn(Seq<char>) -> Seq<FileInfo>,
    skip: Seq<Seq<char>>,
    root: Seq<char>,
) -> bool {
    &&& course.knows(root)
    &&& forall|parent: Seq<char>, child: Seq<char>|
        course.listed.contains(parent) && #[trigger] children(
            parent,
            store(parent),
            skip,
        ).contains(child) ==> course.knows(child)
    &&& forall|path: Seq<char>, file: FileInfo|
        course.listed.contains(path) && #[trigger] files_in(store(path)).contains(file)
            ==> course.found.contains(file)
}

/// What a discovery knows before a move it knows after it.
proof fn lemma_move_forgets_nothing(
    course: Course,
    store: spec_fn(Seq<char>) -> Seq<FileInfo>,
    skip: Seq<Seq<char>>,
    step: Move,
    path: Seq<char>,
)
    requires
        course.knows(path),
    ensures
        course.after(store, skip, step).knows(path),
{
    let next = course.after(store, skip, step);
    match step {
        Move::Take => {
            if course.pending.len() > 0 {
                if course.out.contains(path) {
                    let j = choose|j: int| 0 <= j < course.out.len() && course.out[j] == path;
                    assert(next.out[j] == path);
                } else if course.pending.contains(path) {
                    let j = choose|j: int|
                        0 <= j < course.pending.len() && course.pending[j] == path;
                    if j == course.pending.len() - 1 {
                        assert(next.out[course.out.len() as int] == path);
                    } else {
                        assert(next.pending[j] == path);
                    }
                }
            }
        },
        Move::Give { at } => {
            if 0 <= at < course.out.len() {
                if course.listed.contains(path) {
                } else if course.out.contains(path) {
                    let j = choose|j: int| 0 <= j < course.out.len() && course.out[j] == path;
                    if j < at {
                        assert(next.out[j] == path);
                    } else if j > at {
                        assert(next.out[j - 1] == path);
                    }
                } else {
                    let j = choose|j: int|
                        0 <= j < course.pending.len() && course.pending[j] == path;
                    assert(next.pending[j] == path);
                }
            }
        },
    }
}

/// A discovery that has lost nothing loses nothing by a move.
proof fn lemma_move_keeps_track(
    course: Course,
    store: spec_fn(Seq<char>) -> Seq<FileInfo>,
    skip: Seq<Seq<char>>,
    root: Seq<char>,
    step: Move,
)
    requires
        keeps_track(course, store, skip, root),
    ensures
        keeps_track(course.after(store, skip, step), store, skip, root),
{
    let next = course.after(store, skip, step);
    lemma_move_forgets_nothing(course, store, skip, step, root);
    assert forall|parent: Seq<char>, child: Seq<char>|
        next.listed.contains(parent) && #[trigger] children(parent, store(parent), skip).contains(
            child,
        ) implies next.knows(child) by {
        if course.listed.contains(parent) {
            lemma_move_forgets_nothing(course, store, skip, step, child);
        } else {
            let at = step->at;
            let kids = children(parent, store(parent), skip);
            let k = choose|k: int| 0 <= k < kids.len() && kids[k] == child;
            assert(next.pending[course.pending.len() + k] == child);
        }
    }
    assert forall|path: Seq<char>, file: FileInfo|
        next.listed.contains(path) && #[trigger] files_in(store(path)).contains(
            file,
        ) implies next.found.contains(file) by {
        if course.listed.contains(path) {
            let j = choose|j: int| 0 <= j < course.found.len() && course.found[j] == file;
            assert(next.found[j] == file);
        } else {
            let files = files_in(store(path));
            let k = choose|k: int| 0 <= k < files.len() && files[k] == file;
            assert(next.found[course.found.len() + k] == file);
        }
    }
}

/// A discovery loses nothing, whatever its moves.
proof fn lemma_course_keeps_track(
    store: spec_fn(Seq<char>) -> Seq<FileInfo>,
    skip: Seq<Seq<char>>,
    root: Seq<char>,
    moves: Seq<Move>,
)
    ensures
        keeps_track(course_after(store, skip, root, moves), store, skip, root),
    decreases moves.len(),
{
    if moves.len() == 0 {
        assert(course_after(store, skip, root, moves).pending[0] == root);
    } else {
        lemma_course_keeps_track(store, skip, root, moves.drop_last());
        lemma_move_keeps_track(
            course_after(store, skip, root, moves.drop_last()),
            store,
            skip,
            root,
            moves.last(),
        );
    }
}

/// A complete discovery that has lost nothing has listed every directory
/// on a trail from the root.
proof fn lemma_done_means_listed(
    course: Course,
    store: spec_fn(Seq<char>) -> Seq<FileInfo>,
    skip: Seq<Seq<char>>,
    root: Seq<char>,
    trail: Seq<Seq<char>>,
    upto: int,
)
    requires
        keeps_track(course, store, skip, root),
        course.done(),
        descends(store, skip, root, trail),
        0 <= upto < trail.len(),
    ensures
        course.listed.contains(trail[upto]),
    decreases upto,
{
    if upto > 0 {
        lemma_done_means_listed(course, store, skip, root, trail, upto - 1);
        assert(children(trail[upto - 1], store(trail[upto - 1]), skip).contains(trail[upto]));
        assert(course.knows(trail[upto]));
    }
}

/// A complete discovery has found every file of every directory below the
/// root that no skip prefix cuts off. This holds in whatever order the
/// directories were handed out and their listings taken back.
pub proof fn lemma_discovery_finds_every_file(
    store: spec_fn(Seq<char>) -> Seq<FileInfo>,
    skip: Seq<Seq<char>>,
    root: Seq<char>,
    moves: Seq<Move>,
    trail: Seq<Seq<char>>,
    file: FileInfo,
)
    requires
        course_after(store, skip, root, moves).done(),
        descends(store, skip, root, trail),
        files_in(store(trail.last())).contains(file),
    ensures
        course_after(store, skip, root, moves).found.contains(file),
{
    let course = course_after(store, skip, root, moves);
    lemma_course_keeps_track(store, skip, root, moves);
    lemma_done_means_listed(course, store, skip, root, trail, trail.len() - 1);
}

} // verus!
