//! The storage zone as the engine sees it: the requests that address it, the
//! answers it gives, and the listing of its files.

use crate::checksum::{
    decode_checksum, decoded, is_checksum_text, lemma_spelling_decodes, spells, DIGEST_LEN,
};
use crate::error::SyncError;
use crate::pathmap::PathMap;
use crate::text::{same_text, strip_leading, trim_start};
use vstd::prelude::*;
use vstd::string::*;

verus! {

/// One entry of a directory listing, as the store reports it.
#[derive(Debug, Clone)]
pub struct FileInfo {
    /// The absolute path of the directory that holds the entry. It begins
    /// with the name of the zone and ends with a slash.
    pub path: String,
    /// The name of the entry inside that directory.
    pub object_name: String,
    /// The digest of the content in hexadecimal digits, where the store
    /// reports one.
    pub checksum: Option<String>,
    /// Whether the entry is a directory.
    pub is_directory: bool,
}

/// What the engine keeps of a remote file.
#[derive(Debug, Clone, Copy)]
pub struct FileMeta {
    pub checksum: Option<[u8; 32]>,
}

impl FileMeta {
    /// The digest as a sequence of bytes.
    pub open spec fn digest(&self) -> Option<Seq<u8>> {
        match self.checksum {
            Some(bytes) => Some(bytes@),
            None => None,
        }
    }
}

/// The remote files by their path relative to the zone.
pub type RemoteTree = PathMap<FileMeta>;

/// The digest that a tree records for each of its paths.
pub open spec fn digests(tree: Map<Seq<char>, FileMeta>) -> Map<Seq<char>, Option<Seq<u8>>> {
    tree.map_values(|meta: FileMeta| meta.digest())
}

/// The kind of a call to the store.
#[derive(Debug, Clone, Copy, PartialEq, Eq)]
pub enum Method {
    Get,
    Put,
    Delete,
}

/// A call to the store, ready for a transport to send.
#[derive(Debug)]
pub struct Request {
    pub method: Method,
    pub url: String,
    /// The value of the access key header.
    pub access_key: String,
    /// The value of the content type header, on calls that carry content.
    pub content_type: Option<String>,
    pub body: Vec<u8>,
}

impl Request {
    /// Whether the request is exactly the one that the arguments describe.
    pub open spec fn carries(
        &self,
        method: Method,
        url: Seq<char>,
        access_key: Seq<char>,
        content_type: Option<Seq<char>>,
        body: Seq<u8>,
    ) -> bool {
        &&& self.method == method
        &&& self.url@ == url
        &&& self.access_key@ == access_key
        &&& match self.content_type {
            Some(kind) => content_type == Some(kind@),
            None => content_type is None,
        }
        &&& self.body@ == body
    }
}

/// The address of `path` in `zone` at `endpoint`.
pub open spec fn url_of(endpoint: Seq<char>, zone: Seq<char>, path: Seq<char>) -> Seq<char> {
    "https://"@ + endpoint + "/"@ + zone + "/"@ + path
}

/// What every absolute path of a listing of `zone` begins with.
pub open spec fn zone_prefix(zone: Seq<char>) -> Seq<char> {
    "/"@ + zone + "/"@
}

/// The content type of content whose kind is not known.
pub open spec fn fallback_content_type() -> Seq<char> {
    "application/octet-stream"@
}

/// Whether a status counts as success.
pub open spec fn is_success(status: u16) -> bool {
    200 <= status < 300
}

/// The path of a listed entry relative to `zone`.
pub open spec fn remote_key(zone: Seq<char>, file: FileInfo) -> Seq<char> {
    trim_start(file.path@, zone_prefix(zone)) + file.object_name@
}

/// Whether the checksum of a listed entry, if it has one, can be decoded.
pub open spec fn checksum_decodes(file: FileInfo) -> bool {
    file.checksum matches Some(text) ==> is_checksum_text(text@)
}

/// The digest that a listed entry reports.
pub open spec fn reported_digest(file: FileInfo) -> Option<Seq<u8>> {
    match file.checksum {
        Some(text) => Some(decoded(text@)),
        None => None,
    }
}

/// Whether a listed entry goes into the tree: directories do not, nor does
/// the lock sentinel.
pub open spec fn is_kept(zone: Seq<char>, lockfile: Seq<char>, file: FileInfo) -> bool {
    !file.is_directory && remote_key(zone, file) != lockfile
}

/// The tree that a listing describes: each kept entry under its relative
/// path with the digest it reports. Where a path is listed twice the later
/// entry counts.
pub open spec fn listed_tree(zone: Seq<char>, lockfile: Seq<char>, files: Seq<FileInfo>) -> Map<
    Seq<char>,
    Option<Seq<u8>>,
>
    decreases files.len(),
{
    if files.len() == 0 {
        Map::empty()
    } else {
        let earlier = listed_tree(zone, lockfile, files.drop_last());
        if is_kept(zone, lockfile, files.last()) {
            earlier.insert(remote_key(zone, files.last()), reported_digest(files.last()))
        } else {
            earlier
        }
    }
}

/// A file whose listed checksum writes a digest, in digits of either case,
/// stands in the tree with that digest. This holds of an entry that goes
/// into the tree and whose path no later such entry has; of two entries
/// for one path the later one counts.
pub proof fn lemma_listing_gives_digest_back(
    zone: Seq<char>,
    lockfile: Seq<char>,
    files: Seq<FileInfo>,
    at: int,
    digest: Seq<u8>,
)
    requires
        0 <= at < files.len(),
        is_kept(zone, lockfile, files[at]),
        files[at].checksum matches Some(text) && spells(text@, digest),
        digest.len() == DIGEST_LEN,
        forall|later: int|
            at < later < files.len() && is_kept(zone, lockfile, #[trigger] files[later])
                ==> remote_key(zone, files[later]) != remote_key(zone, files[at]),
    ensures
        checksum_decodes(files[at]),
        listed_tree(zone, lockfile, files).contains_key(remote_key(zone, files[at])),
        listed_tree(zone, lockfile, files)[remote_key(zone, files[at])] == Some(digest),
    decreases files.len(),
{
    lemma_spelling_decodes(files[at].checksum->0@, digest);
    if at < files.len() - 1 {
        let earlier = files.drop_last();
        assert(earlier[at] == files[at]);
        assert forall|later: int|
            at < later < earlier.len() && is_kept(
                zone,
                lockfile,
                #[trigger] earlier[later],
            ) implies remote_key(zone, earlier[later]) != remote_key(zone, earlier[at]) by {
            assert(earlier[later] == files[later]);
        }
        lemma_listing_gives_digest_back(zone, lockfile, earlier, at, digest);
        assert(files.last() == files[files.len() - 1]);
    }
}

/// Judges the answer to a call: `None` stands for a call that got no answer.
pub fn check_reply(status: Option<u16>) -> (outcome: Result<(), SyncError>)
    ensures
        outcome is Ok <==> (status matches Some(code) && is_success(code)),
        outcome matches Err(fault) ==> fault == (match status {
            Some(code) => SyncError::Network { status: code },
            None => SyncError::Unreachable,
        }),
{
    match status {
        Some(code) => {
            if 200 <= code && code < 300 {
                Ok(())
            } else {
                Err(SyncError::Network { status: code })
            }
        },
        None => Err(SyncError::Unreachable),
    }
}

/// What it takes to address one storage zone.
#[derive(Debug, Clone)]
pub struct StorageZoneClient {
    access_key: String,
    endpoint: String,
    storage_zone: String,
}

impl StorageZoneClient {
    pub closed spec fn access_key(&self) -> Seq<char> {
        self.access_key@
    }

    pub closed spec fn endpoint(&self) -> Seq<char> {
        self.endpoint@
    }

    pub closed spec fn storage_zone(&self) -> Seq<char> {
        self.storage_zone@
    }

    /// The address of `path` in this zone.
    pub open spec fn url(&self, path: Seq<char>) -> Seq<char> {
        url_of(self.endpoint(), self.storage_zone(), path)
    }

    pub fn new(access_key: String, endpoint: String, storage_zone: String) -> (client: Self)
        ensures
            client.access_key() == access_key@,
            client.endpoint() == endpoint@,
            client.storage_zone() == storage_zone@,
    {
        StorageZoneClient { access_key, endpoint, storage_zone }
    }

    /// The address of `path` in this zone.
    pub fn url_for(&self, path: &str) -> (url: String)
        ensures
            url@ == self.url(path@),
    {
        let mut url = String::from_str("https://");
        url.append(self.endpoint.as_str());
        url.append("/");
        url.append(self.storage_zone.as_str());
        url.append("/");
        url.append(path);
        url
    }

    /// The call that reads the object at `path`.
    pub fn read_file(&self, path: &str) -> (request: Request)
        ensures
            request.carries(Method::Get, self.url(path@), self.access_key(), None, Seq::empty()),
    {
        Request {
            method: Method::Get,
            url: self.url_for(path),
            access_key: self.access_key.clone(),
            content_type: None,
            body: Vec::new(),
        }
    }

    /// The call that creates or replaces the object at `path`. Content
    /// whose kind is not known travels as plain binary content.
    pub fn put_file(&self, path: &str, body: Vec<u8>, content_type: Option<&str>) -> (request:
        Request)
        ensures
            request.carries(
                Method::Put,
                self.url(path@),
                self.access_key(),
                Some(
                    match content_type {
                        Some(kind) => kind@,
                        None => fallback_content_type(),
                    },
                ),
                body@,
            ),
    {
        let kind = match content_type {
            Some(kind) => String::from_str(kind),
            None => String::from_str("application/octet-stream"),
        };
        Request {
            method: Method::Put,
            url: self.url_for(path),
            access_key: self.access_key.clone(),
            content_type: Some(kind),
            body,
        }
    }

    /// The call that removes the object at `path`.
    pub fn delete_file(&self, path: &str) -> (request: Request)
        ensures
            request.carries(Method::Delete, self.url(path@), self.access_key(), None, Seq::empty()),
    {
        Request {
            method: Method::Delete,
            url: self.url_for(path),
            access_key: self.access_key.clone(),
            content_type: None,
            body: Vec::new(),
        }
    }

    /// The path of a listed entry relative to this zone.
    pub fn relative_path(&self, file: &FileInfo) -> (key: String)
        ensures
            key@ == remote_key(self.storage_zone(), *file),
    {
        let mut prefix = String::from_str("/");
        prefix.append(self.storage_zone.as_str());
        prefix.append("/");
        let mut key = strip_leading(file.path.as_str(), prefix.as_str());
        key.append(file.object_name.as_str());
        key
    }

    /// Builds the remote tree from the entries that discovery found. The
    /// checksum of every file is decoded; one that is malformed fails the
    /// whole listing.
    pub fn list_files(&self, files: &Vec<FileInfo>, lockfile: &str) -> (outcome: Result<
        RemoteTree,
        SyncError,
    >)
        ensures
            outcome is Ok <==> forall|i: int|
                0 <= i < files.len() && !files[i].is_directory ==> checksum_decodes(
                    #[trigger] files[i],
                ),
            outcome matches Ok(tree) ==> digests(tree@) == listed_tree(
                self.storage_zone(),
                lockfile@,
                files@,
            ),
            outcome matches Err(fault) ==> fault == SyncError::ChecksumDecode,
    {
        let mut tree: RemoteTree = PathMap::new();
        let mut i: usize = 0;
        assert(files@.take(0) =~= Seq::empty());
        assert(digests(tree@) =~= listed_tree(self.storage_zone(), lockfile@, files@.take(0)));
        while i < files.len()
            invariant
                i <= files.len(),
                forall|j: int|
                    0 <= j < i && !files[j].is_directory ==> checksum_decodes(#[trigger] files[j]),
                digests(tree@) == listed_tree(
                    self.storage_zone(),
                    lockfile@,
                    files@.take(i as int),
                ),
            decreases files.len() - i,
        {
            let file = &files[i];
            let ghost earlier = tree@;
            proof {
                assert(files@.take(i + 1).drop_last() =~= files@.take(i as int));
                assert(files@.take(i + 1).last() == files[i as int]);
            }
            if !file.is_directory {
                let checksum = match &file.checksum {
                    Some(text) => {
                        match decode_checksum(text.as_str()) {
                            Ok(digest) => Some(digest),
                            Err(fault) => {
                                return Err(fault);
                            },
                        }
                    },
                    None => None,
                };
                let key = self.relative_path(file);
                if !same_text(key.as_str(), lockfile) {
                    let meta = FileMeta { checksum };
                    tree.insert(key, meta);
                    proof {
                        assert(meta.digest() == reported_digest(*file));
                        assert(digests(tree@) =~= digests(earlier).insert(key@, meta.digest()));
                    }
                }
            }
            i += 1;
        }
        proof {
            assert(files@.take(files.len() as int) =~= files@);
        }
        Ok(tree)
    }
}

} // verus!
