//! The plan of a session: what to upload and what to delete, and what
//! becomes of each entry once the content of the local file is at hand.

use crate::api::{digests, RemoteTree};
use crate::checksum::{content_digest, same_digest, sha256};
use crate::error::SyncError;
use crate::pathmap::PathMap;
use crate::text::{any_prefix, ends_with, starts_with_any, strip_leading, texts, trim_start};
use vstd::prelude::*;
use vstd::string::*;

verus! {

/// The local files by the remote path that each is to have. The value
/// names the local file.
pub type LocalTree = PathMap<String>;

/// The name of the local file that a tree records for each of its paths.
pub open spec fn local_files(tree: Map<Seq<char>, String>) -> Map<Seq<char>, Seq<char>> {
    tree.map_values(|name: String| name@)
}

/// The remote path of the local file at `relative` below the local root,
/// for a session that fills the remote directory `root`. It carries no
/// leading slash, as the paths of the remote tree carry none.
pub open spec fn mirrored(root: Seq<char>, relative: Seq<char>) -> Seq<char> {
    trim_start(root + relative, "/"@)
}

/// The remote path under which a local file is to be found in the store.
pub fn remote_name(root: &str, relative: &str) -> (name: String)
    ensures
        name@ == mirrored(root@, relative@),
{
    let mut long = String::from_str(root);
    long.append(relative);
    strip_leading(long.as_str(), "/")
}

/// One entry of the plan.
#[derive(Debug, Clone)]
pub enum SyncPlan {
    /// The local file may have to be uploaded. Whether it has to is decided
    /// once its content is read. `checksum` is what the store reported for
    /// the remote path, if it holds the path at all.
    Put { remote: String, local: String, checksum: Option<[u8; 32]> },
    /// The remote path has no local counterpart and is to be removed.
    Delete { remote: String },
}

/// What a plan holds for one path.
pub enum Planned {
    Put { local: Seq<char>, checksum: Option<Seq<u8>> },
    Delete,
}

impl SyncPlan {
    /// The remote path that the entry is about.
    pub open spec fn remote(&self) -> Seq<char> {
        match self {
            SyncPlan::Put { remote, .. } => remote@,
            SyncPlan::Delete { remote } => remote@,
        }
    }

    /// What the entry holds for its path.
    pub open spec fn planned(&self) -> Planned {
        match self {
            SyncPlan::Put { local, checksum, .. } => Planned::Put {
                local: local@,
                checksum: match checksum {
                    Some(bytes) => Some(bytes@),
                    None => None,
                },
            },
            SyncPlan::Delete { .. } => Planned::Delete,
        }
    }

    /// The place of the entry in the order of execution: uploads of other
    /// files come before uploads of documents, and deletions come last.
    pub open spec fn stage(&self) -> int {
        match self {
            SyncPlan::Put { remote, .. } => if is_document(remote@) {
                1
            } else {
                0
            },
            SyncPlan::Delete { .. } => 2,
        }
    }
}

/// Whether a path names a markup document, whose upload has to wait for
/// the files it may refer to.
pub open spec fn is_document(path: Seq<char>) -> bool {
    ".html"@.is_suffix_of(path) || ".htm"@.is_suffix_of(path)
}

/// What the plan has to hold, path by path. Every local file is a
/// candidate for upload. A remote file without a local counterpart is
/// deleted unless an ignore prefix covers its path.
pub open spec fn planned_for(
    local: Map<Seq<char>, Seq<char>>,
    remote: Map<Seq<char>, Option<Seq<u8>>>,
    ignore: Seq<Seq<char>>,
) -> Map<Seq<char>, Planned> {
    Map::new(
        |path: Seq<char>|
            local.contains_key(path) || (remote.contains_key(path) && !any_prefix(path, ignore)),
        |path: Seq<char>|
            if local.contains_key(path) {
                Planned::Put {
                    local: local[path],
                    checksum: if remote.contains_key(path) {
                        remote[path]
                    } else {
                        None
                    },
                }
            } else {
                Planned::Delete
            },
    )
}

/// Whether one of `entries` is about `path`.
pub open spec fn mentions(entries: Seq<SyncPlan>, path: Seq<char>) -> bool {
    exists|k: int| 0 <= k < entries.len() && (#[trigger] entries[k]).remote() == path
}

/// Whether every one of `entries` holds what `expected` holds for its path.
pub open spec fn drawn_from(entries: Seq<SyncPlan>, expected: Map<Seq<char>, Planned>) -> bool {
    forall|k: int|
        0 <= k < entries.len() ==> expected.contains_key((#[trigger] entries[k]).remote())
            && expected[entries[k].remote()] == entries[k].planned()
}

/// Whether no two of `entries` are about the same path.
pub open spec fn distinct_paths(entries: Seq<SyncPlan>) -> bool {
    forall|i: int, j: int|
        0 <= i < j < entries.len() ==> (#[trigger] entries[i]).remote() != (
        #[trigger] entries[j]).remote()
}

/// Whether `plan` holds exactly what `expected` holds: one entry for each
/// of its paths, with its decision, and nothing else.
pub open spec fn realizes(plan: Seq<SyncPlan>, expected: Map<Seq<char>, Planned>) -> bool {
    &&& drawn_from(plan, expected)
    &&& distinct_paths(plan)
    &&& forall|path: Seq<char>| #[trigger] expected.contains_key(path) ==> mentions(plan, path)
}

/// Whether the entries stand in the order of their stages.
pub open spec fn staged(plan: Seq<SyncPlan>) -> bool {
    forall|i: int, j: int|
        0 <= i < j < plan.len() ==> (#[trigger] plan[i]).stage() <= (#[trigger] plan[j]).stage()
}

/// Whether every one of `entries` belongs to `stage`.
pub open spec fn all_of_stage(entries: Seq<SyncPlan>, stage: int) -> bool {
    forall|k: int| 0 <= k < entries.len() ==> (#[trigger] entries[k]).stage() == stage
}

/// Whether a path names a markup document.
pub fn names_document(path: &str) -> (document: bool)
    ensures
        document == is_document(path@),
{
    ends_with(path, ".html") || ends_with(path, ".htm")
}

/// Whether every one of `entries` is about one of the first `upto` paths of
/// `order`.
spec fn taken_from(entries: Seq<SyncPlan>, order: Seq<Seq<char>>, upto: int) -> bool {
    forall|k: int| 0 <= k < entries.len() ==> among(order, upto, (#[trigger] entries[k]).remote())
}

/// Whether `path` is one of the first `upto` paths of `order`.
spec fn among(order: Seq<Seq<char>>, upto: int, path: Seq<char>) -> bool {
    exists|j: int| 0 <= j < upto && #[trigger] order[j] == path
}

/// Entries that come from the first paths of an order still do when one
/// more path is looked at.
proof fn lemma_taken_from_more(entries: Seq<SyncPlan>, order: Seq<Seq<char>>, upto: int)
    requires
        taken_from(entries, order, upto),
    ensures
        taken_from(entries, order, upto + 1),
{
    assert forall|k: int| 0 <= k < entries.len() implies among(
        order,
        upto + 1,
        (#[trigger] entries[k]).remote(),
    ) by {
        assert(among(order, upto, entries[k].remote()));
        let j = choose|j: int| 0 <= j < upto && #[trigger] order[j] == entries[k].remote();
        assert(0 <= j < upto + 1 && order[j] == entries[k].remote());
    }
}

/// What holds of a list of entries after the entry for the next path of an
/// order has joined it.
proof fn lemma_entry_joins(
    entries: Seq<SyncPlan>,
    entry: SyncPlan,
    order: Seq<Seq<char>>,
    upto: int,
)
    requires
        0 <= upto < order.len(),
        order.no_duplicates(),
        entry.remote() == order[upto],
        distinct_paths(entries),
        taken_from(entries, order, upto),
    ensures
        distinct_paths(entries.push(entry)),
        taken_from(entries.push(entry), order, upto + 1),
        mentions(entries.push(entry), order[upto]),
        forall|path: Seq<char>|
            mentions(entries, path) ==> #[trigger] mentions(entries.push(entry), path),
{
    let longer = entries.push(entry);
    assert(longer[entries.len() as int] == entry);
    assert forall|a: int, b: int| 0 <= a < b < longer.len() implies (#[trigger] longer[a]).remote()
        != (#[trigger] longer[b]).remote() by {
        assert(longer[a] == entries[a]);
        if b == entries.len() {
            assert(among(order, upto, entries[a].remote()));
            let j = choose|j: int| 0 <= j < upto && #[trigger] order[j] == entries[a].remote();
            assert(order[j] != order[upto]);
        } else {
            assert(longer[b] == entries[b]);
        }
    }
    assert forall|k: int| 0 <= k < longer.len() implies among(
        order,
        upto + 1,
        (#[trigger] longer[k]).remote(),
    ) by {
        if k < entries.len() {
            assert(longer[k] == entries[k]);
            assert(among(order, upto, entries[k].remote()));
            let j = choose|j: int| 0 <= j < upto && #[trigger] order[j] == entries[k].remote();
            assert(0 <= j < upto + 1 && order[j] == longer[k].remote());
        } else {
            assert(0 <= upto < upto + 1 && order[upto] == longer[k].remote());
        }
    }
    assert forall|path: Seq<char>| mentions(entries, path) implies #[trigger] mentions(
        longer,
        path,
    ) by {
        let k = choose|k: int| 0 <= k < entries.len() && (#[trigger] entries[k]).remote() == path;
        assert(longer[k] == entries[k]);
    }
}

/// What holds of a list of entries after one more that is drawn from
/// `expected` and belongs to `stage` has joined it.
proof fn lemma_entry_fits(
    entries: Seq<SyncPlan>,
    entry: SyncPlan,
    expected: Map<Seq<char>, Planned>,
    stage: int,
)
    requires
        drawn_from(entries, expected),
        all_of_stage(entries, stage),
        expected.contains_key(entry.remote()),
        expected[entry.remote()] == entry.planned(),
        entry.stage() == stage,
    ensures
        drawn_from(entries.push(entry), expected),
        all_of_stage(entries.push(entry), stage),
{
    let longer = entries.push(entry);
    assert forall|k: int| 0 <= k < longer.len() implies expected.contains_key(
        (#[trigger] longer[k]).remote(),
    ) && expected[longer[k].remote()] == longer[k].planned() && longer[k].stage() == stage by {
        if k < entries.len() {
            assert(longer[k] == entries[k]);
        }
    }
}

/// Three lists of entries, each of one stage and in the order of the
/// stages, make a plan for `expected` when together they mention each of
/// its paths once.
proof fn lemma_stages_make_plan(
    first: Seq<SyncPlan>,
    second: Seq<SyncPlan>,
    third: Seq<SyncPlan>,
    expected: Map<Seq<char>, Planned>,
)
    requires
        drawn_from(first, expected),
        drawn_from(second, expected),
        drawn_from(third, expected),
        all_of_stage(first, 0),
        all_of_stage(second, 1),
        all_of_stage(third, 2),
        distinct_paths(first),
        distinct_paths(second),
        distinct_paths(third),
        forall|path: Seq<char>| #[trigger]
            expected.contains_key(path) ==> mentions(first, path) || mentions(second, path)
                || mentions(third, path),
    ensures
        realizes(first + second + third, expected),
        staged(first + second + third),
{
    let plan = first + second + third;
    let a = first.len() as int;
    let b = a + second.len();
    assert forall|k: int| 0 <= k < plan.len() implies expected.contains_key(
        (#[trigger] plan[k]).remote(),
    ) && expected[plan[k].remote()] == plan[k].planned() && plan[k].stage() == (if k < a {
        0int
    } else if k < b {
        1int
    } else {
        2int
    }) by {
        if k < a {
            assert(plan[k] == first[k]);
        } else if k < b {
            assert(plan[k] == second[k - a]);
        } else {
            assert(plan[k] == third[k - b]);
        }
    }
    assert forall|x: int, y: int| 0 <= x < y < plan.len() implies (#[trigger] plan[x]).remote() != (
    #[trigger] plan[y]).remote() by {
        // An entry decides by its path and by what it holds for the path to
        // which stage it belongs. Entries of different stages are therefore
        // about different paths.
        assert(expected[plan[x].remote()] == plan[x].planned());
        assert(expected[plan[y].remote()] == plan[y].planned());
        if y < a {
            assert(plan[x] == first[x] && plan[y] == first[y]);
        } else if a <= x && y < b {
            assert(plan[x] == second[x - a] && plan[y] == second[y - a]);
        } else if b <= x {
            assert(plan[x] == third[x - b] && plan[y] == third[y - b]);
        } else {
            assert(plan[x].stage() != plan[y].stage());
        }
    }
    assert forall|path: Seq<char>| #[trigger] expected.contains_key(path) implies mentions(
        plan,
        path,
    ) by {
        if mentions(first, path) {
            let k = choose|k: int| 0 <= k < first.len() && (#[trigger] first[k]).remote() == path;
            assert(plan[k] == first[k]);
        } else if mentions(second, path) {
            let k = choose|k: int|
                0 <= k < second.len() && (#[trigger] second[k]).remote() == path;
            assert(plan[a + k] == second[k]);
        } else {
            let k = choose|k: int| 0 <= k < third.len() && (#[trigger] third[k]).remote() == path;
            assert(plan[b + k] == third[k]);
        }
    }
}

/// Compares the two trees. The plan holds one upload candidate for each
/// local file and one deletion for each remote file that has no local
/// counterpart and that no ignore prefix covers. Candidates that are not
/// documents come first, then the documents, then the deletions.
pub fn plan_sync(local: &LocalTree, remote: &RemoteTree, ignore: &Vec<String>) -> (plan: Vec<
    SyncPlan,
>)
    ensures
        realizes(plan@, planned_for(local_files(local@), digests(remote@), texts(ignore@))),
        staged(plan@),
{
    let ghost expected = planned_for(local_files(local@), digests(remote@), texts(ignore@));
    let mut assets: Vec<SyncPlan> = Vec::new();
    let mut documents: Vec<SyncPlan> = Vec::new();
    let mut deletions: Vec<SyncPlan> = Vec::new();

    let count: usize = local.len();
    let mut i: usize = 0;
    while i < count
        invariant
            i <= count == local.order().len(),
            local.order().no_duplicates(),
            forall|path: Seq<char>| local@.contains_key(path) <==> local.order().contains(path),
            expected == planned_for(local_files(local@), digests(remote@), texts(ignore@)),
            drawn_from(assets@, expected),
            drawn_from(documents@, expected),
            all_of_stage(assets@, 0),
            all_of_stage(documents@, 1),
            taken_from(assets@, local.order(), i as int),
            taken_from(documents@, local.order(), i as int),
            distinct_paths(assets@),
            distinct_paths(documents@),
            forall|j: int|
                0 <= j < i ==> mentions(assets@, #[trigger] local.order()[j]) || mentions(
                    documents@,
                    local.order()[j],
                ),
        decreases count - i,
    {
        let path = local.path_at(i);
        let name = local.value_at(i);
        let checksum = match remote.get(path.as_str()) {
            Some(meta) => meta.checksum,
            None => None,
        };
        let entry = SyncPlan::Put { remote: path.clone(), local: name.clone(), checksum };
        proof {
            assert(local.order().contains(path@));
            assert(expected.contains_key(path@));
            assert(expected[path@] == entry.planned());
        }
        if names_document(path.as_str()) {
            proof {
                lemma_entry_fits(documents@, entry, expected, 1);
                lemma_entry_joins(documents@, entry, local.order(), i as int);
                lemma_taken_from_more(assets@, local.order(), i as int);
            }
            documents.push(entry);
        } else {
            proof {
                lemma_entry_fits(assets@, entry, expected, 0);
                lemma_entry_joins(assets@, entry, local.order(), i as int);
                lemma_taken_from_more(documents@, local.order(), i as int);
            }
            assets.push(entry);
        }
        i += 1;
    }

    let remote_count: usize = remote.len();
    let mut r: usize = 0;
    while r < remote_count
        invariant
            r <= remote_count == remote.order().len(),
            remote.order().no_duplicates(),
            forall|path: Seq<char>| remote@.contains_key(path) <==> remote.order().contains(path),
            expected == planned_for(local_files(local@), digests(remote@), texts(ignore@)),
            drawn_from(deletions@, expected),
            all_of_stage(deletions@, 2),
            taken_from(deletions@, remote.order(), r as int),
            distinct_paths(deletions@),
            forall|j: int|
                0 <= j < r && !local@.contains_key(#[trigger] remote.order()[j]) && !any_prefix(
                    remote.order()[j],
                    texts(ignore@),
                ) ==> mentions(deletions@, remote.order()[j]),
        decreases remote_count - r,
    {
        let path = remote.path_at(r);
        proof {
            assert(remote.order().contains(path@));
        }
        if !local.contains(path.as_str()) && !starts_with_any(path.as_str(), ignore) {
            let entry = SyncPlan::Delete { remote: path.clone() };
            proof {
                assert(expected.contains_key(path@));
                lemma_entry_fits(deletions@, entry, expected, 2);
                lemma_entry_joins(deletions@, entry, remote.order(), r as int);
            }
            deletions.push(entry);
        } else {
            proof {
                lemma_taken_from_more(deletions@, remote.order(), r as int);
            }
        }
        r += 1;
    }

    proof {
        assert forall|path: Seq<char>| #[trigger] expected.contains_key(path) implies mentions(
            assets@,
            path,
        ) || mentions(documents@, path) || mentions(deletions@, path) by {
            if local@.contains_key(path) {
                assert(local.order().contains(path));
                let j = choose|j: int| 0 <= j < local.order().len() && local.order()[j] == path;
                assert(mentions(assets@, local.order()[j]) || mentions(
                    documents@,
                    local.order()[j],
                ));
            } else {
                assert(remote@.contains_key(path));
                assert(remote.order().contains(path));
                let j = choose|j: int| 0 <= j < remote.order().len() && remote.order()[j] == path;
                assert(mentions(deletions@, remote.order()[j]));
            }
        }
        lemma_stages_make_plan(assets@, documents@, deletions@, expected);
    }
    let mut plan = assets;
    plan.append(&mut documents);
    plan.append(&mut deletions);
    plan
}

/// The number of entries at the head of the plan that make up its first
/// wave: the uploads of files that are not documents. Under concurrent
/// execution the first wave has to be complete before the rest is begun;
/// the rest may then run together.
pub fn first_wave_len(plan: &Vec<SyncPlan>) -> (count: usize)
    ensures
        count <= plan.len(),
        all_of_stage(plan@.take(count as int), 0),
        count < plan.len() ==> plan[count as int].stage() != 0,
        staged(plan@) ==> forall|k: int|
            count <= k < plan.len() ==> (#[trigger] plan[k]).stage() > 0,
{
    let mut count: usize = 0;
    while count < plan.len()
        invariant
            count <= plan.len(),
            all_of_stage(plan@.take(count as int), 0),
        decreases plan.len() - count,
    {
        let early = match &plan[count] {
            SyncPlan::Put { remote, .. } => !names_document(remote.as_str()),
            SyncPlan::Delete { .. } => false,
        };
        if !early {
            return count;
        }
        count += 1;
    }
    count
}

/// The media type that the infer crate reads from the first bytes of
/// `content`, where it knows them.
pub uninterp spec fn inferred_media_type(content: Seq<u8>) -> Option<Seq<char>>;

/// `infer::get`: the kind of file that `content` begins like, if the crate
/// knows one. Of the kind the wrapper hands on the name of its media type,
/// as `Type::mime_type` gives it.
#[verifier::external_body]
fn infer_media_type(content: &[u8]) -> (kind: Option<&'static str>)
    ensures
        kind is Some <==> inferred_media_type(content@) is Some,
        kind matches Some(name) ==> inferred_media_type(content@) == Some(name@),
{
    match infer::get(content) {
        Some(kind) => Some(kind.mime_type()),
        None => None,
    }
}

/// What is done about one remote path.
#[derive(Debug)]
pub enum SyncAction {
    /// The content is uploaded, with its media type where one was found.
    Put { content: Vec<u8>, mime_type: Option<String> },
    /// The remote file is removed.
    Delete,
    /// The remote file holds the same content already: nothing is sent.
    Ignore,
}

/// A sync action over sequences.
pub enum Resolved {
    Put { content: Seq<u8>, mime_type: Option<Seq<char>> },
    Delete,
    Ignore,
}

impl View for SyncAction {
    type V = Resolved;

    open spec fn view(&self) -> Resolved {
        match self {
            SyncAction::Put { content, mime_type } => Resolved::Put {
                content: content@,
                mime_type: match mime_type {
                    Some(name) => Some(name@),
                    None => None,
                },
            },
            SyncAction::Delete => Resolved::Delete,
            SyncAction::Ignore => Resolved::Ignore,
        }
    }
}

/// A plan entry after its resolution.
#[derive(Debug)]
pub struct Execution {
    pub remote: String,
    pub action: SyncAction,
}

/// What an upload candidate comes to, given the digest of the local
/// content and the media type found for it: nothing is sent where the
/// store reported that very digest.
pub open spec fn settled(
    checksum: Option<Seq<u8>>,
    content: Seq<u8>,
    digest: Seq<u8>,
    mime_type: Option<Seq<char>>,
) -> Resolved {
    if checksum == Some(digest) {
        Resolved::Ignore
    } else {
        Resolved::Put { content, mime_type }
    }
}

/// What a plan entry comes to. `content` is what reading the local file
/// gave, `None` where it could not be read. A deletion reads no file.
pub open spec fn resolution(planned: Planned, content: Option<Seq<u8>>) -> Result<
    Resolved,
    SyncError,
> {
    match planned {
        Planned::Delete => Ok(Resolved::Delete),
        Planned::Put { checksum, .. } => match content {
            None => Err(SyncError::LocalRead),
            Some(bytes) => Ok(
                settled(checksum, bytes, sha256(bytes), inferred_media_type(bytes)),
            ),
        },
    }
}

/// Decides between upload and no operation for one candidate.
pub fn settle(
    checksum: Option<[u8; 32]>,
    content: Vec<u8>,
    digest: [u8; 32],
    mime_type: Option<String>,
) -> (action: SyncAction)
    ensures
        action@ == settled(
            match checksum {
                Some(bytes) => Some(bytes@),
                None => None,
            },
            content@,
            digest@,
            match mime_type {
                Some(name) => Some(name@),
                None => None,
            },
        ),
{
    let unchanged = match checksum {
        Some(known) => same_digest(&known, &digest),
        None => false,
    };
    if unchanged {
        SyncAction::Ignore
    } else {
        SyncAction::Put { content, mime_type }
    }
}

/// Resolves one plan entry. For an upload candidate the content is
/// digested and compared with what the store reported.
pub fn plan_execution(job: &SyncPlan, content: Option<Vec<u8>>) -> (outcome: Result<
    Execution,
    SyncError,
>)
    ensures
        match outcome {
            Ok(execution) => execution.remote@ == job.remote() && resolution(
                job.planned(),
                match content {
                    Some(bytes) => Some(bytes@),
                    None => None,
                },
            ) == Ok::<Resolved, SyncError>(execution.action@),
            Err(fault) => resolution(job.planned(), None) == Err::<Resolved, SyncError>(fault)
                && content is None,
        },
{
    match job {
        SyncPlan::Delete { remote } => Ok(
            Execution { remote: remote.clone(), action: SyncAction::Delete },
        ),
        SyncPlan::Put { remote, checksum, .. } => match content {
            None => Err(SyncError::LocalRead),
            Some(bytes) => {
                let digest = content_digest(bytes.as_slice());
                let mime_type = match infer_media_type(bytes.as_slice()) {
                    Some(name) => Some(String::from_str(name)),
                    None => None,
                };
                let action = settle(*checksum, bytes, digest, mime_type);
                Ok(Execution { remote: remote.clone(), action })
            },
        },
    }
}

} // verus!
