//! The remote side: where a region's service is reached, how its answers
//! are told apart, and how a zone is walked one level at a time.

use vstd::prelude::*;
use vstd::string::StringExecFns;
use crate::model::StorageObject;
use crate::text::{decimal, decimal_text, same_text};

verus! {

/// The address of the storage service of a region, by the region's code.
/// The empty code stands for the main region.
pub open spec fn endpoint(region: Seq<char>) -> Option<Seq<char>> {
    if region == "uk"@ {
        Some("https://uk.storage.bunnycdn.com"@)
    } else if region == "us_ny"@ || region == "ny"@ {
        Some("https://ny.storage.bunnycdn.com"@)
    } else if region == "us_la"@ || region == "la"@ {
        Some("https://la.storage.bunnycdn.com"@)
    } else if region == "sg"@ {
        Some("https://sg.storage.bunnycdn.com"@)
    } else if region == "se"@ {
        Some("https://se.storage.bunnycdn.com"@)
    } else if region == "br"@ {
        Some("https://br.storage.bunnycdn.com"@)
    } else if region == "sa"@ {
        Some("https://ja.storage.bunnycdn.com"@)
    } else if region == "au"@ || region == "au_syd"@ || region == "syd"@ {
        Some("https://syd.storage.bunnycdn.com"@)
    } else if region == ""@ || region == "de"@ {
        Some("https://storage.bunnycdn.com"@)
    } else {
        None
    }
}

/// The address of the storage service of `region`; `None` for a code that
/// names no region.
pub fn base_url(region: &str) -> (r: Option<String>)
    ensures
        r.is_some() == endpoint(region@).is_some(),
        r.is_some() ==> r.unwrap()@ == endpoint(region@).unwrap(),
{
    if same_text(region, "uk") {
        Some(String::from_str("https://uk.storage.bunnycdn.com"))
    } else if same_text(region, "us_ny") || same_text(region, "ny") {
        Some(String::from_str("https://ny.storage.bunnycdn.com"))
    } else if same_text(region, "us_la") || same_text(region, "la") {
        Some(String::from_str("https://la.storage.bunnycdn.com"))
    } else if same_text(region, "sg") {
        Some(String::from_str("https://sg.storage.bunnycdn.com"))
    } else if same_text(region, "se") {
        Some(String::from_str("https://se.storage.bunnycdn.com"))
    } else if same_text(region, "br") {
        Some(String::from_str("https://br.storage.bunnycdn.com"))
    } else if same_text(region, "sa") {
        Some(String::from_str("https://ja.storage.bunnycdn.com"))
    } else if same_text(region, "au") || same_text(region, "au_syd") || same_text(region, "syd") {
        Some(String::from_str("https://syd.storage.bunnycdn.com"))
    } else if same_text(region, "") || same_text(region, "de") {
        Some(String::from_str("https://storage.bunnycdn.com"))
    } else {
        None
    }
}

/// The address of the object or pseudo-directory at `path`.
pub open spec fn url_of(base_url: Seq<char>, path: Seq<char>) -> Seq<char> {
    base_url + seq!['/'] + path
}

/// The address of the object or pseudo-directory at `path` on the service
/// at `base_url`.
pub fn object_url(base_url: &str, path: &str) -> (r: String)
    ensures
        r@ == url_of(base_url@, path@),
{
    proof {
        reveal_strlit("/");
        assert("/"@ =~= seq!['/']);
    }
    let mut out = String::from_str(base_url);
    out.append("/");
    out.append(path);
    out
}

/// What a request asks of the service.
#[derive(Clone, Copy, Debug, PartialEq, Eq, Structural)]
pub enum Operation {
    /// List one pseudo-directory.
    List,
    /// Store an object.
    Put,
    /// Fetch an object.
    Get,
    /// Delete an object.
    Delete,
}

/// Why the service did not do what a request asked.
#[derive(Clone, Debug, PartialEq, Eq)]
pub enum RemoteError {
    /// The key was not accepted.
    Unauthorized,
    /// Nothing is at the path.
    NotFound { path: String },
    /// The key gives no access to the path.
    Forbidden { path: String },
    /// Any other answer that is no success, with its status code.
    Failed { operation: Operation, url: String, status: u16 },
}

/// A failure over plain sequences of characters.
pub enum RemoteErrorView {
    Unauthorized,
    NotFound { path: Seq<char> },
    Forbidden { path: Seq<char> },
    Failed { operation: Operation, url: Seq<char>, status: u16 },
}

impl View for RemoteError {
    type V = RemoteErrorView;

    open spec fn view(&self) -> RemoteErrorView {
        match *self {
            RemoteError::Unauthorized => RemoteErrorView::Unauthorized,
            RemoteError::NotFound { path } => RemoteErrorView::NotFound { path: path@ },
            RemoteError::Forbidden { path } => RemoteErrorView::Forbidden { path: path@ },
            RemoteError::Failed { operation, url, status } => RemoteErrorView::Failed {
                operation,
                url: url@,
                status,
            },
        }
    }
}

/// Whether a status code reports success.
pub open spec fn is_success(status: u16) -> bool {
    200 <= status < 300
}

/// What the answer with the code `status` means for a request on `path`,
/// which was sent to `url`: `None` for a success, else the failure.
pub open spec fn failure_of(
    operation: Operation,
    status: u16,
    url: Seq<char>,
    path: Seq<char>,
) -> Option<RemoteErrorView> {
    if status == 401 {
        Some(RemoteErrorView::Unauthorized)
    } else if status == 404 {
        Some(RemoteErrorView::NotFound { path })
    } else if status == 403 {
        Some(RemoteErrorView::Forbidden { path })
    } else if is_success(status) {
        None
    } else {
        Some(RemoteErrorView::Failed { operation, url, status })
    }
}

/// Tells the answers of the service apart by their status code: 401, 404
/// and 403 each have their own failure, any other code from 200 to 299 is a
/// success, and the rest is a failure that carries the code.
pub fn check_status(operation: Operation, status: u16, url: &str, path: &str) -> (r: Result<
    (),
    RemoteError,
>)
    ensures
        r.is_ok() == failure_of(operation, status, url@, path@).is_none(),
        r.is_err() ==> Some(r.unwrap_err()@) == failure_of(operation, status, url@, path@),
{
    if status == 401 {
        Err(RemoteError::Unauthorized)
    } else if status == 404 {
        Err(RemoteError::NotFound { path: String::from_str(path) })
    } else if status == 403 {
        Err(RemoteError::Forbidden { path: String::from_str(path) })
    } else if 200 <= status && status < 300 {
        Ok(())
    } else {
        Err(RemoteError::Failed { operation, url: String::from_str(url), status })
    }
}

/// The words that say what a request was for.
pub open spec fn purpose(operation: Operation) -> Seq<char> {
    match operation {
        Operation::List => "Failed to get objects from "@,
        Operation::Put => "Failed to put object to "@,
        Operation::Get => "Failed to get object from "@,
        Operation::Delete => "Failed to delete object from "@,
    }
}

/// The line that tells a user of a failure.
pub open spec fn failure_text(error: RemoteErrorView) -> Seq<char> {
    match error {
        RemoteErrorView::Unauthorized => "Remote unauthorized"@,
        RemoteErrorView::NotFound { path } => "Not found: Path "@ + path + " does not exist"@,
        RemoteErrorView::Forbidden { path } => "Forbidden: Access denied to path "@ + path,
        RemoteErrorView::Failed { operation, url, status } => purpose(operation) + url + ": HTTP "@
            + decimal_text(status as nat),
    }
}

impl RemoteError {
    /// The line that tells a user of the failure.
    pub fn message(&self) -> (r: String)
        ensures
            r@ == failure_text(self@),
    {
        match self {
            RemoteError::Unauthorized => String::from_str("Remote unauthorized"),
            RemoteError::NotFound { path } => {
                let mut out = String::from_str("Not found: Path ");
                out.append(path.as_str());
                out.append(" does not exist");
                out
            },
            RemoteError::Forbidden { path } => {
                let mut out = String::from_str("Forbidden: Access denied to path ");
                out.append(path.as_str());
                out
            },
            RemoteError::Failed { operation, url, status } => {
                let mut out = match operation {
                    Operation::List => String::from_str("Failed to get objects from "),
                    Operation::Put => String::from_str("Failed to put object to "),
                    Operation::Get => String::from_str("Failed to get object from "),
                    Operation::Delete => String::from_str("Failed to delete object from "),
                };
                out.append(url.as_str());
                out.append(": HTTP ");
                let code = decimal(*status);
                out.append(code.as_str());
                out
            },
        }
    }
}

/// The paths under which the pseudo-directories among `records` are listed,
/// in the order of the records.
pub open spec fn child_paths(records: Seq<StorageObject>) -> Seq<Seq<char>>
    decreases records.len(),
{
    if records.len() == 0 {
        Seq::empty()
    } else {
        let before = child_paths(records.drop_last());
        if records.last().is_directory {
            before.push(records.last().directory_path())
        } else {
            before
        }
    }
}

/// The number of pseudo-directories among `records`.
pub open spec fn directory_count(records: Seq<StorageObject>) -> nat {
    child_paths(records).len()
}

/// The paths of `paths` as plain sequences.
pub open spec fn path_views(paths: Seq<String>) -> Seq<Seq<char>> {
    paths.map_values(|p: String| p@)
}

/// The enumeration of a zone, which the service lists one pseudo-directory
/// at a time.
///
/// The walk holds the paths that are still to be listed and the entries
/// found so far. Its user asks for the next path, lists it, and hands the
/// listing back, until no path is left. A listing that fails ends the
/// enumeration: the walk is dropped then, and nothing comes of it.
pub struct RemoteWalk {
    pending: Vec<String>,
    objects: Vec<StorageObject>,
    listed: Ghost<nat>,
}

impl RemoteWalk {
    /// The paths that are still to be listed; the last is next.
    pub closed spec fn pending(&self) -> Seq<Seq<char>> {
        path_views(self.pending@)
    }

    /// The entries found so far, in the order in which they were listed.
    pub closed spec fn objects(&self) -> Seq<StorageObject> {
        self.objects@
    }

    /// The number of paths that were handed out for listing.
    pub closed spec fn listed(&self) -> nat {
        self.listed@
    }

    /// Every pseudo-directory that was found is listed once, and so is the
    /// root: the paths handed out and those still pending are one more than
    /// the pseudo-directories found.
    pub open spec fn wf(&self) -> bool {
        self.listed() + self.pending().len() == 1 + directory_count(self.objects())
    }

    /// Whether nothing is left to list.
    pub open spec fn finished(&self) -> bool {
        self.pending().len() == 0
    }

    /// A walk that starts at the pseudo-directory `root`.
    pub fn new(root: &str) -> (r: RemoteWalk)
        ensures
            r.wf(),
            r.pending() == seq![root@],
            r.objects() == Seq::<StorageObject>::empty(),
            r.listed() == 0,
    {
        let mut pending: Vec<String> = Vec::new();
        pending.push(String::from_str(root));
        let r = RemoteWalk { pending, objects: Vec::new(), listed: Ghost(0) };
        proof {
            assert(r.pending() =~= seq![root@]);
        }
        r
    }

    /// The path to list next, which is the one that was found last; `None`
    /// when the walk is finished.
    pub fn next_path(&mut self) -> (r: Option<String>)
        requires
            old(self).wf(),
        ensures
            final(self).wf(),
            final(self).objects() == old(self).objects(),
            old(self).finished() ==> r.is_none() && final(self).pending() == old(self).pending()
                && final(self).listed() == old(self).listed(),
            !old(self).finished() ==> r.is_some() && r.unwrap()@ == old(self).pending().last()
                && final(self).pending() == old(self).pending().drop_last() && final(self).listed()
                == old(self).listed() + 1,
    {
        let next = self.pending.pop();
        proof {
            if next.is_some() {
                self.listed = Ghost((self.listed@ + 1) as nat);
                assert(self.pending() =~= old(self).pending().drop_last());
            }
        }
        next
    }

    /// Takes in the listing of the path that was handed out last: every
    /// entry is kept, and every pseudo-directory among them is to be listed
    /// in turn.
    pub fn record(&mut self, records: Vec<StorageObject>)
        requires
            old(self).wf(),
        ensures
            final(self).wf(),
            final(self).objects() == old(self).objects() + records@,
            final(self).pending() == old(self).pending() + child_paths(records@),
            final(self).listed() == old(self).listed(),
    {
        let mut records = records;
        let ghost listing = records@;
        let mut i: usize = 0;
        while i < records.len()
            invariant
                i <= records@.len(),
                records@ == listing,
                self.objects == old(self).objects,
                self.listed == old(self).listed,
                self.pending() == old(self).pending() + child_paths(listing.take(i as int)),
            decreases records.len() - i,
        {
            proof {
                let upto = listing.take(i as int + 1);
                assert(upto.drop_last() =~= listing.take(i as int));
                assert(upto.last() == listing[i as int]);
            }
            if records[i].is_directory {
                let path = records[i].child_path();
                let ghost before = self.pending@;
                self.pending.push(path);
                proof {
                    assert(path_views(before.push(path)) =~= path_views(before).push(path@));
                    assert(child_paths(listing.take(i as int + 1)) == child_paths(
                        listing.take(i as int),
                    ).push(listing[i as int].directory_path()));
                    assert(self.pending() =~= old(self).pending() + child_paths(
                        listing.take(i as int + 1),
                    ));
                }
            }
            i += 1;
        }
        proof {
            assert(listing.take(i as int) =~= listing);
            lemma_child_paths_concat(old(self).objects(), listing);
        }
        self.objects.append(&mut records);
    }

    /// The entries that the walk found.
    pub fn into_objects(self) -> (r: Vec<StorageObject>)
        ensures
            r@ == self.objects(),
    {
        self.objects
    }
}

/// The pseudo-directories of two listings in a row are those of the first
/// followed by those of the second.
pub proof fn lemma_child_paths_concat(first: Seq<StorageObject>, second: Seq<StorageObject>)
    ensures
        child_paths(first + second) == child_paths(first) + child_paths(second),
    decreases second.len(),
{
    if second.len() == 0 {
        assert(first + second =~= first);
        assert(child_paths(first) + child_paths(second) =~= child_paths(first));
    } else {
        let all = first + second;
        assert(all.drop_last() =~= first + second.drop_last());
        assert(all.last() == second.last());
        lemma_child_paths_concat(first, second.drop_last());
        assert(child_paths(all) =~= child_paths(first) + child_paths(second));
    }
}

/// A finished walk has listed the root and each pseudo-directory it found,
/// and nothing else: as many paths as it found pseudo-directories, and one
/// more.
pub proof fn lemma_finished_walk_listed_each_directory_once(walk: RemoteWalk)
    requires
        walk.wf(),
        walk.finished(),
    ensures
        walk.listed() == 1 + directory_count(walk.objects()),
{
}

} // verus!
