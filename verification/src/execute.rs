//! Execution of the plan: what is sent for each entry, and the count of
//! results that tells when a session is through.

use crate::api::{fallback_content_type, Method, Request, StorageZoneClient};
use crate::checksum::sha256;
use crate::error::SyncError;
use crate::planning::{
    plan_execution, planned_for, resolution, Execution, Resolved, SyncAction, SyncPlan,
};
use crate::session::Session;
use crate::text::same_text;
use vstd::prelude::*;
use vstd::string::*;

verus! {

/// What became of one plan entry, for the report.
#[derive(Debug, Clone, Copy, PartialEq, Eq)]
pub enum Event {
    Put,
    Unchanged,
    Delete,
}

impl Event {
    /// The word by which the report names the event.
    pub open spec fn word(&self) -> Seq<char> {
        match self {
            Event::Put => "put"@,
            Event::Unchanged => "unchanged"@,
            Event::Delete => "delete"@,
        }
    }

    /// The word by which the report names the event.
    pub fn label(&self) -> (word: &'static str)
        ensures
            word@ == self.word(),
    {
        match self {
            Event::Put => "put",
            Event::Unchanged => "unchanged",
            Event::Delete => "delete",
        }
    }
}

/// The event that an action is reported as.
pub open spec fn event_of(action: Resolved) -> Event {
    match action {
        Resolved::Put { .. } => Event::Put,
        Resolved::Ignore => Event::Unchanged,
        Resolved::Delete => Event::Delete,
    }
}

/// Whether a call is sent for an action on `remote`. Nothing is sent unless
/// the session may change the store. Content that is unchanged needs no
/// call, and the lock sentinel is never deleted for the plan.
pub open spec fn sends(
    changes: bool,
    action: Resolved,
    remote: Seq<char>,
    lockfile: Seq<char>,
) -> bool {
    changes && match action {
        Resolved::Put { .. } => true,
        Resolved::Ignore => false,
        Resolved::Delete => remote != lockfile,
    }
}

/// Whether `request` is the call that carries out `action` on `remote`.
pub open spec fn carries_out(
    request: Request,
    client: StorageZoneClient,
    action: Resolved,
    remote: Seq<char>,
) -> bool {
    match action {
        Resolved::Put { content, mime_type } => request.carries(
            Method::Put,
            client.url(remote),
            client.access_key(),
            Some(
                match mime_type {
                    Some(name) => name,
                    None => fallback_content_type(),
                },
            ),
            content,
        ),
        Resolved::Delete => request.carries(
            Method::Delete,
            client.url(remote),
            client.access_key(),
            None,
            Seq::empty(),
        ),
        Resolved::Ignore => false,
    }
}

/// What the store holds, path by path, once every entry of the plan has
/// taken effect: what was deleted is gone, what was uploaded is there with
/// the digest of its content, and the rest is as it was. `contents` gives
/// the content of the local file behind each path.
pub open spec fn store_after(
    local: Map<Seq<char>, Seq<char>>,
    remote: Map<Seq<char>, Option<Seq<u8>>>,
    ignore: Seq<Seq<char>>,
    contents: Map<Seq<char>, Seq<u8>>,
    lockfile: Seq<char>,
) -> Map<Seq<char>, Option<Seq<u8>>> {
    let plan = planned_for(local, remote, ignore);
    Map::new(
        |path: Seq<char>|
            (remote.contains_key(path) || plan.contains_key(path)) && !(plan.contains_key(path)
                && sends(true, Resolved::Delete, path, lockfile) && plan[path] is Delete),
        |path: Seq<char>|
            if plan.contains_key(path) && resolution(plan[path], Some(contents[path]))
                is Ok && resolution(plan[path], Some(contents[path]))->Ok_0 is Put {
                Some(sha256(contents[path]))
            } else {
                remote[path]
            },
    )
}

/// A second session over the same local tree sends nothing. Every upload
/// candidate of its plan finds its content in the store already, and
/// nothing is left to delete but, at most, the lock sentinel, which is
/// never deleted for the plan.
pub proof fn lemma_second_run_sends_nothing(
    local: Map<Seq<char>, Seq<char>>,
    remote: Map<Seq<char>, Option<Seq<u8>>>,
    ignore: Seq<Seq<char>>,
    contents: Map<Seq<char>, Seq<u8>>,
    lockfile: Seq<char>,
)
    ensures
        forall|path: Seq<char>| #[trigger]
            planned_for(
                local,
                store_after(local, remote, ignore, contents, lockfile),
                ignore,
            ).contains_key(path) ==> {
                let again = planned_for(
                    local,
                    store_after(local, remote, ignore, contents, lockfile),
                    ignore,
                );
                &&& resolution(again[path], Some(contents[path])) is Ok
                &&& !sends(
                    true,
                    resolution(again[path], Some(contents[path]))->Ok_0,
                    path,
                    lockfile,
                )
                &&& again[path] is Put ==> resolution(again[path], Some(contents[path])) == Ok::<
                    Resolved,
                    SyncError,
                >(Resolved::Ignore)
                &&& again[path] is Delete ==> path == lockfile
            },
{
    let plan = planned_for(local, remote, ignore);
    let store = store_after(local, remote, ignore, contents, lockfile);
    let again = planned_for(local, store, ignore);
    assert forall|path: Seq<char>| #[trigger] again.contains_key(path) implies resolution(
        again[path],
        Some(contents[path]),
    ) is Ok && !sends(true, resolution(again[path], Some(contents[path]))->Ok_0, path, lockfile)
        && (again[path] is Put ==> resolution(again[path], Some(contents[path])) == Ok::<
        Resolved,
        SyncError,
    >(Resolved::Ignore)) && (again[path] is Delete ==> path == lockfile) by {
        if local.contains_key(path) {
            assert(plan.contains_key(path));
            assert(store.contains_key(path));
            assert(store[path] == Some(sha256(contents[path])));
        } else {
            assert(store.contains_key(path));
            if remote.contains_key(path) {
                assert(plan.contains_key(path) && plan[path] is Delete);
            }
        }
    }
}

/// What the executor does about one plan entry.
#[derive(Debug)]
pub struct JobReport {
    pub remote: String,
    pub event: Event,
    /// The call to send, if one is to be sent.
    pub request: Option<Request>,
}

impl JobReport {
    /// Whether the report is the one for `action` on `remote`.
    pub open spec fn tells(
        &self,
        client: StorageZoneClient,
        changes: bool,
        action: Resolved,
        remote: Seq<char>,
        lockfile: Seq<char>,
    ) -> bool {
        &&& self.remote@ == remote
        &&& self.event == event_of(action)
        &&& self.request is Some <==> sends(changes, action, remote, lockfile)
        &&& self.request matches Some(request) ==> carries_out(request, client, action, remote)
    }
}

/// A call to the store, over sequences.
pub struct Call {
    pub method: Method,
    pub url: Seq<char>,
    pub access_key: Seq<char>,
    pub content_type: Option<Seq<char>>,
    pub body: Seq<u8>,
}

/// The call that is sent for an action on `remote`, if one is sent.
pub open spec fn call_for(
    client: StorageZoneClient,
    changes: bool,
    action: Resolved,
    remote: Seq<char>,
    lockfile: Seq<char>,
) -> Option<Call> {
    if sends(changes, action, remote, lockfile) {
        match action {
            Resolved::Put { content, mime_type } => Some(
                Call {
                    method: Method::Put,
                    url: client.url(remote),
                    access_key: client.access_key(),
                    content_type: Some(
                        match mime_type {
                            Some(name) => name,
                            None => fallback_content_type(),
                        },
                    ),
                    body: content,
                },
            ),
            _ => Some(
                Call {
                    method: Method::Delete,
                    url: client.url(remote),
                    access_key: client.access_key(),
                    content_type: None,
                    body: Seq::empty(),
                },
            ),
        }
    } else {
        None
    }
}

/// The call that a report holds, if it holds one.
pub open spec fn call_of(report: JobReport) -> Option<Call> {
    match report.request {
        Some(request) => Some(
            Call {
                method: request.method,
                url: request.url@,
                access_key: request.access_key@,
                content_type: match request.content_type {
                    Some(kind) => Some(kind@),
                    None => None,
                },
                body: request.body@,
            },
        ),
        None => None,
    }
}

/// A report holds the call that is sent for its entry, and no other.
pub proof fn lemma_report_holds_the_call(
    report: JobReport,
    client: StorageZoneClient,
    changes: bool,
    action: Resolved,
    remote: Seq<char>,
    lockfile: Seq<char>,
)
    requires
        report.tells(client, changes, action, remote, lockfile),
    ensures
        call_of(report) == call_for(client, changes, action, remote, lockfile),
{
}

/// One entry of a plan together with what reading its local file gave.
pub struct Work {
    pub job: SyncPlan,
    pub content: Option<Seq<u8>>,
}

/// The call that one piece of work comes to, if it comes to one. Work
/// whose file cannot be read comes to none.
pub open spec fn call_for_work(
    client: StorageZoneClient,
    changes: bool,
    lockfile: Seq<char>,
    work: Work,
) -> Option<Call> {
    match resolution(work.job.planned(), work.content) {
        Ok(action) => call_for(client, changes, action, work.job.remote(), lockfile),
        Err(_) => None,
    }
}

/// The calls that pieces of work come to, in the order of the work.
pub open spec fn calls_for(
    client: StorageZoneClient,
    changes: bool,
    lockfile: Seq<char>,
    works: Seq<Work>,
) -> Seq<Option<Call>> {
    works.map_values(|work: Work| call_for_work(client, changes, lockfile, work))
}

/// Two sequences of the same items, in whatever order, have the same
/// images under one function.
proof fn lemma_same_items_same_images<A, B>(one: Seq<A>, other: Seq<A>, f: spec_fn(A) -> B)
    requires
        one.to_multiset() == other.to_multiset(),
    ensures
        one.map_values(f).to_multiset() == other.map_values(f).to_multiset(),
    decreases one.len(),
{
    one.to_multiset_ensures();
    other.to_multiset_ensures();
    let one_images = one.map_values(f);
    let other_images = other.map_values(f);
    if one.len() == 0 {
        assert(one_images =~= other_images);
    } else {
        let last = one.len() - 1;
        let item = one[last];
        assert(one.contains(item));
        assert(one.to_multiset().count(item) > 0);
        assert(other.contains(item));
        let at = choose|at: int| 0 <= at < other.len() && other[at] == item;
        assert(one.remove(last).to_multiset() == other.remove(at).to_multiset());
        lemma_same_items_same_images(one.remove(last), other.remove(at), f);
        one_images.to_multiset_ensures();
        other_images.to_multiset_ensures();
        assert(one_images.remove(last) =~= one.remove(last).map_values(f));
        assert(other_images.remove(at) =~= other.remove(at).map_values(f));
        assert(one_images[last] == f(item));
        assert(other_images[at] == f(item));
        assert(one_images.contains(f(item)));
        assert(other_images.contains(f(item)));
        let image = f(item);
        assert(one_images.to_multiset().remove(image) == other_images.to_multiset().remove(image));
        assert forall|any: B| one_images.to_multiset().count(any) == other_images.to_multiset().count(
            any,
        ) by {
            assert(one_images.to_multiset().remove(image).count(any)
                == other_images.to_multiset().remove(image).count(any));
        }
        assert(one_images.to_multiset() =~= other_images.to_multiset());
    }
}

/// The calls that a plan comes to are the same in whatever order its
/// entries are executed: the same work in another order comes to the same
/// calls, each as often. How many workers share the plan, and which of
/// them takes which entry, therefore changes nothing of what is sent.
pub proof fn lemma_calls_do_not_depend_on_order(
    client: StorageZoneClient,
    changes: bool,
    lockfile: Seq<char>,
    works: Seq<Work>,
    shuffled: Seq<Work>,
)
    requires
        works.to_multiset() == shuffled.to_multiset(),
    ensures
        calls_for(client, changes, lockfile, works).to_multiset() == calls_for(
            client,
            changes,
            lockfile,
            shuffled,
        ).to_multiset(),
{
    lemma_same_items_same_images(
        works,
        shuffled,
        |work: Work| call_for_work(client, changes, lockfile, work),
    );
}

/// Turns a resolved entry into the call that carries it out, where the
/// session may change the store, and into its line of the report.
pub fn dispatch(
    session: &Session,
    client: &StorageZoneClient,
    execution: Execution,
    lockfile: &str,
) -> (report: JobReport)
    ensures
        report.tells(*client, session.may_change(), execution.action@, execution.remote@, lockfile@),
{
    let Execution { remote, action } = execution;
    let changes = session.permits_changes();
    match action {
        SyncAction::Put { content, mime_type } => {
            let request = if changes {
                let kind = match &mime_type {
                    Some(name) => Some(name.as_str()),
                    None => None,
                };
                Some(client.put_file(remote.as_str(), content, kind))
            } else {
                None
            };
            JobReport { remote, event: Event::Put, request }
        },
        SyncAction::Ignore => JobReport { remote, event: Event::Unchanged, request: None },
        SyncAction::Delete => {
            let request = if changes && !same_text(remote.as_str(), lockfile) {
                Some(client.delete_file(remote.as_str()))
            } else {
                None
            };
            JobReport { remote, event: Event::Delete, request }
        },
    }
}

/// Resolves one plan entry and says what to send for it. `content` is what
/// reading the local file of a candidate gave, `None` where it could not be
/// read; for a deletion it plays no part.
pub fn execute_job(
    session: &Session,
    client: &StorageZoneClient,
    job: &SyncPlan,
    content: Option<Vec<u8>>,
    lockfile: &str,
) -> (outcome: Result<JobReport, SyncError>)
    ensures
        match resolution(
            job.planned(),
            match content {
                Some(bytes) => Some(bytes@),
                None => None,
            },
        ) {
            Ok(action) => outcome matches Ok(report) && report.tells(
                *client,
                session.may_change(),
                action,
                job.remote(),
                lockfile@,
            ) && call_of(report) == call_for(
                *client,
                session.may_change(),
                action,
                job.remote(),
                lockfile@,
            ),
            Err(fault) => outcome matches Err(found) && found == fault,
        },
{
    match plan_execution(job, content) {
        Ok(execution) => Ok(dispatch(session, client, execution, lockfile)),
        Err(fault) => Err(fault),
    }
}

/// The line by which the report tells of one entry.
pub fn report_line(remote: &str, event: Event) -> (line: String)
    ensures
        line@ == remote@ + ": "@ + event.word(),
{
    let mut line = String::from_str(remote);
    line.append(": ");
    line.append(event.label());
    line
}

/// Whether the entries are reported one by one: in a preview, and where
/// the session was asked to be verbose.
pub fn is_reported(verbose: bool, dry_run: bool) -> (reported: bool)
    ensures
        reported == (verbose || dry_run),
{
    verbose || dry_run
}

/// The count of the results of one execution.
///
/// Every entry of the plan that is handed to a worker comes back as one
/// result. The execution is through when as many results have come back as
/// the plan has entries, in whatever order. The first failure that comes
/// back is kept; it fails the session once the execution is through.
#[derive(Debug)]
pub struct Tally {
    expected: usize,
    first_wave: usize,
    received: usize,
    failure: Option<SyncError>,
}

/// The count of results over plain numbers.
pub struct Count {
    /// The number of entries of the plan.
    pub expected: nat,
    /// The number of entries at the head of the plan that make up its
    /// first wave.
    pub first_wave: nat,
    /// The number of results that have come back.
    pub received: nat,
    /// The first failure among them.
    pub failure: Option<SyncError>,
}

impl Count {
    /// Whether every result has come back.
    pub open spec fn complete(&self) -> bool {
        self.received == self.expected
    }

    /// The number of entries at the head of the plan that may be with the
    /// workers: the first wave alone until all its results are back, the
    /// whole plan after that.
    pub open spec fn released(&self) -> nat {
        if self.received < self.first_wave {
            self.first_wave
        } else {
            self.expected
        }
    }

    /// The count after one more result. A result beyond the expected
    /// number is not counted.
    pub open spec fn with(&self, outcome: Result<(), SyncError>) -> Count {
        if self.received < self.expected {
            Count {
                received: self.received + 1,
                failure: match self.failure {
                    Some(fault) => Some(fault),
                    None => match outcome {
                        Err(fault) => Some(fault),
                        Ok(()) => None,
                    },
                },
                ..*self
            }
        } else {
            *self
        }
    }

    /// How the execution ended, once it is through.
    pub open spec fn result(&self) -> Option<Result<(), SyncError>> {
        if self.complete() {
            Some(
                match self.failure {
                    Some(fault) => Err(fault),
                    None => Ok(()),
                },
            )
        } else {
            None
        }
    }
}

/// The count of `expected` entries, of which the first `first_wave` make up
/// the first wave, before any result.
pub open spec fn fresh_count(expected: nat, first_wave: nat) -> Count {
    Count {
        expected,
        first_wave: if first_wave <= expected {
            first_wave
        } else {
            expected
        },
        received: 0,
        failure: None,
    }
}

/// The count after the results `outcomes`, in the order in which they came
/// back.
pub open spec fn count_after(
    expected: nat,
    first_wave: nat,
    outcomes: Seq<Result<(), SyncError>>,
) -> Count
    decreases outcomes.len(),
{
    if outcomes.len() == 0 {
        fresh_count(expected, first_wave)
    } else {
        count_after(expected, first_wave, outcomes.drop_last()).with(outcomes.last())
    }
}

/// The first failure among `outcomes`.
pub open spec fn first_failure(outcomes: Seq<Result<(), SyncError>>) -> Option<SyncError>
    decreases outcomes.len(),
{
    if outcomes.len() == 0 {
        None
    } else {
        match first_failure(outcomes.drop_last()) {
            Some(fault) => Some(fault),
            None => match outcomes.last() {
                Err(fault) => Some(fault),
                Ok(()) => None,
            },
        }
    }
}

/// An execution is through exactly when one result has come back for each
/// entry of the plan. Until then it has no result. Then it fails with the
/// first failure that came back, and succeeds where none did.
pub proof fn lemma_through_when_all_are_back(
    expected: nat,
    first_wave: nat,
    outcomes: Seq<Result<(), SyncError>>,
)
    requires
        outcomes.len() <= expected,
    ensures
        count_after(expected, first_wave, outcomes).received == outcomes.len(),
        count_after(expected, first_wave, outcomes).expected == expected,
        count_after(expected, first_wave, outcomes).first_wave == fresh_count(
            expected,
            first_wave,
        ).first_wave,
        count_after(expected, first_wave, outcomes).complete() <==> outcomes.len() == expected,
        count_after(expected, first_wave, outcomes).failure == first_failure(outcomes),
        count_after(expected, first_wave, outcomes).result() is Some <==> outcomes.len()
            == expected,
        count_after(expected, first_wave, outcomes).released() <= expected,
        outcomes.len() < first_wave ==> count_after(expected, first_wave, outcomes).released()
            <= first_wave,
    decreases outcomes.len(),
{
    if outcomes.len() > 0 {
        lemma_through_when_all_are_back(expected, first_wave, outcomes.drop_last());
    }
}

/// The first failure among results is none exactly when every result is a
/// success.
pub proof fn lemma_no_failure_means_all_succeeded(outcomes: Seq<Result<(), SyncError>>)
    ensures
        first_failure(outcomes) is None <==> forall|i: int|
            0 <= i < outcomes.len() ==> (#[trigger] outcomes[i]) is Ok,
    decreases outcomes.len(),
{
    if outcomes.len() > 0 {
        let earlier = outcomes.drop_last();
        lemma_no_failure_means_all_succeeded(earlier);
        if first_failure(outcomes) is None {
            assert forall|i: int| 0 <= i < outcomes.len() implies (#[trigger] outcomes[i]) is Ok by {
                if i < earlier.len() {
                    assert(earlier[i] == outcomes[i]);
                }
            }
        } else if first_failure(earlier) is Some {
            let i = choose|i: int| 0 <= i < earlier.len() && !((#[trigger] earlier[i]) is Ok);
            assert(earlier[i] == outcomes[i]);
        }
    }
}

/// Whether an execution succeeds does not depend on the order in which its
/// results come back, and so not on how many workers share the plan nor on
/// which of them is quicker: the same results in another order complete
/// the same count, and fail it exactly when they fail it in this order.
pub proof fn lemma_order_does_not_decide(
    expected: nat,
    first_wave: nat,
    outcomes: Seq<Result<(), SyncError>>,
    shuffled: Seq<Result<(), SyncError>>,
)
    requires
        outcomes.len() == expected,
        outcomes.to_multiset() == shuffled.to_multiset(),
    ensures
        count_after(expected, first_wave, outcomes).complete(),
        count_after(expected, first_wave, shuffled).complete(),
        count_after(expected, first_wave, shuffled).result() is Some,
        count_after(expected, first_wave, shuffled).result()->0 is Ok <==> count_after(
            expected,
            first_wave,
            outcomes,
        ).result()->0 is Ok,
{
    outcomes.to_multiset_ensures();
    shuffled.to_multiset_ensures();
    lemma_through_when_all_are_back(expected, first_wave, outcomes);
    lemma_through_when_all_are_back(expected, first_wave, shuffled);
    lemma_no_failure_means_all_succeeded(outcomes);
    lemma_no_failure_means_all_succeeded(shuffled);
    if first_failure(outcomes) is None && first_failure(shuffled) is Some {
        let i = choose|i: int| 0 <= i < shuffled.len() && !((#[trigger] shuffled[i]) is Ok);
        assert(shuffled.contains(shuffled[i]));
        assert(shuffled.to_multiset().count(shuffled[i]) > 0);
        assert(outcomes.to_multiset().count(shuffled[i]) > 0);
        assert(outcomes.contains(shuffled[i]));
        let j = choose|j: int| 0 <= j < outcomes.len() && outcomes[j] == shuffled[i];
        assert(outcomes[j] is Ok);
    }
    if first_failure(shuffled) is None && first_failure(outcomes) is Some {
        let i = choose|i: int| 0 <= i < outcomes.len() && !((#[trigger] outcomes[i]) is Ok);
        assert(outcomes.contains(outcomes[i]));
        assert(outcomes.to_multiset().count(outcomes[i]) > 0);
        assert(shuffled.to_multiset().count(outcomes[i]) > 0);
        assert(shuffled.contains(outcomes[i]));
        let j = choose|j: int| 0 <= j < shuffled.len() && shuffled[j] == outcomes[i];
        assert(shuffled[j] is Ok);
    }
}

impl View for Tally {
    type V = Count;

    closed spec fn view(&self) -> Count {
        Count {
            expected: self.expected as nat,
            first_wave: self.first_wave as nat,
            received: self.received as nat,
            failure: self.failure,
        }
    }
}

impl Tally {
    #[verifier::type_invariant]
    closed spec fn bounded(&self) -> bool {
        self.received <= self.expected && self.first_wave <= self.expected
    }

    /// The count for a plan of `expected` entries whose first `first_wave`
    /// entries make up the first wave.
    pub fn new(expected: usize, first_wave: usize) -> (tally: Self)
        ensures
            tally@ == fresh_count(expected as nat, first_wave as nat),
    {
        Tally {
            expected,
            first_wave: if first_wave <= expected {
                first_wave
            } else {
                expected
            },
            received: 0,
            failure: None,
        }
    }

    /// Counts one result.
    pub fn record(&mut self, outcome: Result<(), SyncError>)
        ensures
            final(self)@ == old(self)@.with(outcome),
    {
        proof {
            use_type_invariant(&*self);
        }
        if self.received < self.expected {
            let failure = match self.failure {
                Some(fault) => Some(fault),
                None => match outcome {
                    Err(fault) => Some(fault),
                    Ok(()) => None,
                },
            };
            *self = Tally {
                expected: self.expected,
                first_wave: self.first_wave,
                received: self.received + 1,
                failure,
            };
        }
    }

    /// The number of results that have come back.
    pub fn received(&self) -> (count: usize)
        ensures
            count == self@.received,
    {
        self.received
    }

    /// The number of entries at the head of the plan that may be with the
    /// workers by now.
    pub fn released(&self) -> (count: usize)
        ensures
            count == self@.released(),
    {
        if self.received < self.first_wave {
            self.first_wave
        } else {
            self.expected
        }
    }

    /// Whether every result has come back.
    pub fn is_complete(&self) -> (complete: bool)
        ensures
            complete == self@.complete(),
    {
        self.received == self.expected
    }

    /// How the execution ended, once it is through.
    pub fn finish(&self) -> (outcome: Option<Result<(), SyncError>>)
        ensures
            outcome == self@.result(),
    {
        if self.received == self.expected {
            match self.failure {
                Some(fault) => Some(Err(fault)),
                None => Some(Ok(())),
            }
        } else {
            None
        }
    }
}

} // verus!
