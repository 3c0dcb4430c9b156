//! The reconciliation loop and what it asks of a DNS provider.
//!
//! One cycle resolves the public address, fetches the provider's records,
//! submits an update for each record whose content differs from the address,
//! and sleeps. [`Updater`] takes the decisions of that cycle and leaves every
//! outside step to its caller: [`Updater::run`] is resumed with the outcome of
//! one step and answers with the next.

use vstd::prelude::*;
use reqwest::header::HeaderMap;
use crate::address::{ExternalAddress, IpAddress};
use crate::headers::header_entries;

verus! {

/// The shortest interval between two cycles, in seconds.
pub const MIN_POLL_RATE: usize = 60;

/// The discovery service, as a host name and a port.
pub const STUN_SERVER: &'static str = "stun.cloudflare.com:3478";

/// Why the public address could not be resolved.
#[derive(Clone, Copy, Debug, PartialEq, Eq, Structural)]
pub enum ResolveError {
    /// No local endpoint could be bound.
    Bind,
    /// The name of the discovery service did not resolve.
    Lookup,
    /// The discovery service has no IPv4 address.
    NoIpv4Server,
    /// The exchange with the discovery service failed.
    Exchange,
}

/// Why the provider's records could not be fetched.
#[derive(Clone, Copy, Debug, PartialEq, Eq, Structural)]
pub enum FetchError {
    /// The credential cannot be sent in a header.
    Credential,
    /// The request was not answered, or the answer could not be read.
    Transport,
    /// The answer is not of the expected form.
    Malformed,
    /// The provider reports that the request did not succeed.
    Unsuccessful,
}

/// Why an update did not reach the provider.
#[derive(Clone, Copy, Debug, PartialEq, Eq, Structural)]
pub enum UpdateError {
    /// The request was not answered.
    Transport,
    /// The provider answered with a status outside 200 to 299.
    Rejected(u16),
}

/// How the transport saw an update request end.
#[derive(Clone, Copy, Debug, PartialEq, Eq, Structural)]
pub enum UpdateReply {
    /// The request was not answered.
    Failed,
    /// The provider answered with this status.
    Status(u16),
}

/// What became of an update: it succeeded on a status from 200 to 299.
pub open spec fn update_result(reply: UpdateReply) -> Result<(), UpdateError> {
    match reply {
        UpdateReply::Failed => Err(UpdateError::Transport),
        UpdateReply::Status(status) => if 200 <= status <= 299 {
            Ok(())
        } else {
            Err(UpdateError::Rejected(status))
        },
    }
}

/// Tells a successful update from a failed one.
pub fn update_outcome(reply: UpdateReply) -> (r: Result<(), UpdateError>)
    ensures
        r == update_result(reply),
{
    match reply {
        UpdateReply::Failed => Err(UpdateError::Transport),
        UpdateReply::Status(status) => if 200 <= status && status <= 299 {
            Ok(())
        } else {
            Err(UpdateError::Rejected(status))
        },
    }
}

/// The three settings that the environment supplies, each as the text found
/// there, if any.
pub struct Environment {
    pub poll_rate: Option<String>,
    pub api_key: Option<String>,
    pub zone_id: Option<String>,
}

/// The request that fetches the provider's records: a `GET` of `url`.
pub struct FetchRequest {
    pub url: String,
    pub headers: HeaderMap,
}

pub struct FetchRequestView {
    pub url: Seq<char>,
    pub headers: Map<Seq<char>, Seq<u8>>,
}

impl View for FetchRequest {
    type V = FetchRequestView;

    open spec fn view(&self) -> FetchRequestView {
        FetchRequestView { url: self.url@, headers: header_entries(self.headers) }
    }
}

/// The request that overwrites one record: a `PUT` of `payload` to `url`.
pub struct UpdateRequest<P: View> {
    pub url: String,
    pub headers: HeaderMap,
    pub payload: P,
}

pub struct UpdateRequestView<P> {
    pub url: Seq<char>,
    pub headers: Map<Seq<char>, Seq<u8>>,
    pub payload: P,
}

impl<P: View> View for UpdateRequest<P> {
    type V = UpdateRequestView<P::V>;

    open spec fn view(&self) -> UpdateRequestView<P::V> {
        UpdateRequestView {
            url: self.url@,
            headers: header_entries(self.headers),
            payload: self.payload@,
        }
    }
}

/// The text of an optional string.
pub open spec fn option_text(text: Option<String>) -> Option<Seq<char>> {
    match text {
        Some(text) => Some(text@),
        None => None,
    }
}

/// A source of the interval between two cycles.
pub trait Config {
    /// The interval in seconds, never below [`MIN_POLL_RATE`].
    fn get_poll_rate() -> (rate: usize)
        ensures
            rate >= MIN_POLL_RATE,
    ;
}

/// A DNS record under a provider's management.
pub trait Record: Sized {
    /// The provider's identifier of the record, absent while the record is
    /// not tied to one of the provider's.
    spec fn id(&self) -> Option<Seq<char>>;

    spec fn name(&self) -> Seq<char>;

    spec fn content(&self) -> IpAddress;

    /// The record with its content replaced.
    spec fn with_content(&self, content: IpAddress) -> Self;

    /// Replacing the content changes the content and neither the identifier
    /// nor the name.
    proof fn lemma_with_content(&self, content: IpAddress)
        ensures
            self.with_content(content).content() == content,
            self.with_content(content).id() == self.id(),
            self.with_content(content).name() == self.name(),
    ;

    fn get_id(&self) -> (r: Option<String>)
        ensures
            option_text(r) == self.id(),
    ;

    fn get_name(&self) -> (r: String)
        ensures
            r@ == self.name(),
    ;

    fn get_content(&self) -> (r: IpAddress)
        ensures
            r == self.content(),
    ;

    fn update_content(&self, new_content: IpAddress) -> (r: Self)
        ensures
            r == self.with_content(new_content),
    ;

    /// Whether two records are equivalent: whether content, identifier and
    /// name agree. Nothing else that a record holds is compared.
    fn eq(&self, other: &Self) -> (r: bool)
        ensures
            r == (self.content() == other.content() && self.id() == other.id() && self.name()
                == other.name()),
    {
        if self.get_content() != other.get_content() {
            return false;
        }
        let same_id = match (self.get_id(), other.get_id()) {
            (Some(a), Some(b)) => a == b,
            (None, None) => true,
            _ => false,
        };
        let a = self.get_name();
        let b = other.get_name();
        same_id && a == b
    }
}

/// What [`Record::eq`] decides: two records are equivalent where content,
/// identifier and name agree.
pub open spec fn equivalent<R: Record>(a: &R, b: &R) -> bool {
    a.content() == b.content() && a.id() == b.id() && a.name() == b.name()
}

/// The first IPv4 endpoint among `servers`.
pub open spec fn first_ipv4(servers: Seq<ExternalAddress>) -> Option<ExternalAddress>
    decreases servers.len(),
{
    if servers.len() == 0 {
        None
    } else if servers[0].ip.is_ipv4() {
        Some(servers[0])
    } else {
        first_ipv4(servers.skip(1))
    }
}

/// The endpoint picked is the first IPv4 endpoint: it is one of the servers,
/// and every server before it is of the other family. None is picked only
/// where no server is an IPv4 endpoint.
pub proof fn first_ipv4_is_first(servers: Seq<ExternalAddress>) -> (at: int)
    ensures
        match first_ipv4(servers) {
            Some(server) => {
                &&& 0 <= at < servers.len()
                &&& servers[at] == server
                &&& server.ip.is_ipv4()
                &&& forall|j: int| 0 <= j < at ==> !(#[trigger] servers[j]).ip.is_ipv4()
            },
            None => forall|j: int| 0 <= j < servers.len() ==> !(#[trigger] servers[j]).ip.is_ipv4(),
        },
    decreases servers.len(),
{
    if servers.len() == 0 {
        0
    } else if servers[0].ip.is_ipv4() {
        0
    } else {
        let rest = servers.skip(1);
        let inner = first_ipv4_is_first(rest);
        assert forall|j: int| 1 <= j < servers.len() implies #[trigger] servers[j] == rest[j - 1] by {}
        if first_ipv4(servers) is Some {
            assert(servers[inner + 1] == rest[inner]);
            assert forall|j: int| 0 <= j < inner + 1 implies !(#[trigger] servers[j]).ip.is_ipv4() by {
                if j > 0 {
                    assert(!rest[j - 1].ip.is_ipv4());
                }
            }
        } else {
            assert forall|j: int| 0 <= j < servers.len() implies !(#[trigger] servers[j]).ip.is_ipv4() by {
                if j > 0 {
                    assert(!rest[j - 1].ip.is_ipv4());
                }
            }
        }
        inner + 1
    }
}

/// What a DNS provider offers to the reconciliation loop: its records, an
/// update of one record, and the interval between two cycles.
///
/// A provider sends nothing itself. It says which request to send, and is told
/// how the request ended.
pub trait ApiTrait: Sized {
    type RecordType: Record;

    /// What the transport makes of the answer to a fetch.
    type Listing;

    /// What an update request carries.
    type Payload: View;

    /// The records last fetched.
    spec fn records(&self) -> Seq<Self::RecordType>;

    spec fn poll_rate(&self) -> usize;

    /// The records that [`ApiTrait::get_records`] leaves after a fetch that
    /// ended as `fetched`.
    spec fn listed(&self, fetched: Result<Self::Listing, FetchError>) -> Seq<Self::RecordType>;

    /// The request that fetches the records, where one can be made.
    spec fn fetch_request(&self) -> Result<FetchRequestView, FetchError>;

    /// The request that submits `record`.
    spec fn update_request(&self, record: &Self::RecordType) -> UpdateRequestView<
        <Self::Payload as View>::V,
    >;

    /// A fetch that failed leaves the records as they were.
    proof fn lemma_failed_fetch(&self, fetched: Result<Self::Listing, FetchError>)
        requires
            fetched is Err,
        ensures
            self.listed(fetched) == self.records(),
    ;

    /// A provider that polls every `poll_rate` seconds, and no more often
    /// than every [`MIN_POLL_RATE`]; it has fetched nothing yet.
    fn new(poll_rate: usize, api_key: String, environment: &Environment) -> (api: Self)
        ensures
            api.poll_rate() == if poll_rate < MIN_POLL_RATE {
                MIN_POLL_RATE
            } else {
                poll_rate
            },
            api.records() == Seq::<Self::RecordType>::empty(),
    ;

    /// Picks the endpoint of the discovery service to query, among those that
    /// its name resolved to: the first IPv4 endpoint.
    fn check_ip(&self, servers: &Vec<ExternalAddress>) -> (r: Result<
        ExternalAddress,
        ResolveError,
    >)
        ensures
            r == match first_ipv4(servers@) {
                Some(server) => Ok::<ExternalAddress, ResolveError>(server),
                None => Err(ResolveError::NoIpv4Server),
            },
    {
        let mut i: usize = 0;
        assert(servers@.skip(0) =~= servers@);
        while i < servers.len()
            invariant
                i <= servers@.len(),
                first_ipv4(servers@) == first_ipv4(servers@.skip(i as int)),
            decreases servers@.len() - i,
        {
            if servers[i].is_ipv4() {
                assert(servers@.skip(i as int)[0] == servers@[i as int]);
                return Ok(servers[i]);
            }
            assert(servers@.skip(i as int).skip(1) =~= servers@.skip(i + 1));
            i += 1;
        }
        Err(ResolveError::NoIpv4Server)
    }

    /// The request to send for the records, or why none can be made.
    fn list_request(&self) -> (r: Result<FetchRequest, FetchError>)
        ensures
            match r {
                Ok(request) => self.fetch_request() == Ok::<FetchRequestView, FetchError>(
                    request@,
                ),
                Err(e) => self.fetch_request() == Err::<FetchRequestView, FetchError>(e),
            },
    ;

    /// Takes in how the fetch ended, and gives the records as they are then.
    /// The settings stay: the interval and the requests are what they were.
    fn get_records(&mut self, fetched: Result<Self::Listing, FetchError>) -> (r: &Vec<
        Self::RecordType,
    >)
        ensures
            final(self).records() == old(self).listed(fetched),
            final(self).poll_rate() == old(self).poll_rate(),
            final(self).fetch_request() == old(self).fetch_request(),
            forall|record: Self::RecordType| #[trigger]
                final(self).update_request(&record) == old(self).update_request(&record),
            r@ == final(self).records(),
    ;

    /// The request to send to submit `record`.
    fn prepare_update(&self, record: &Self::RecordType) -> (r: UpdateRequest<Self::Payload>)
        ensures
            r@ == self.update_request(record),
    ;

    /// Takes in how the update of `record` ended. Gives `record` back, both
    /// after a success and after a failure. The settings stay: the interval
    /// and the requests are what they were.
    fn update_record(&mut self, record: &Self::RecordType, reply: UpdateReply) -> (r:
        Self::RecordType)
        ensures
            r == *record,
            final(self).poll_rate() == old(self).poll_rate(),
            final(self).fetch_request() == old(self).fetch_request(),
            forall|other: Self::RecordType| #[trigger]
                final(self).update_request(&other) == old(self).update_request(&other),
    ;

    fn get_poll_rate(&self) -> (r: usize)
        ensures
            r == self.poll_rate(),
    ;
}

/// The updates that one cycle submits, in order: for each record whose
/// candidate (the record with `ip` as its content) is not equivalent to the
/// record, the candidate.
pub open spec fn plan<R: Record>(records: Seq<R>, ip: IpAddress) -> Seq<R>
    decreases records.len(),
{
    if records.len() == 0 {
        Seq::empty()
    } else {
        let rest = plan(records.drop_last(), ip);
        let record = records.last();
        if equivalent(&record.with_content(ip), &record) {
            rest
        } else {
            rest.push(record.with_content(ip))
        }
    }
}

/// Computes the updates of one cycle.
pub fn plan_updates<R: Record>(records: &Vec<R>, ip: IpAddress) -> (updates: Vec<R>)
    ensures
        updates@ == plan(records@, ip),
{
    let mut updates: Vec<R> = Vec::new();
    let mut i: usize = 0;
    while i < records.len()
        invariant
            i <= records@.len(),
            updates@ == plan(records@.take(i as int), ip),
        decreases records@.len() - i,
    {
        let candidate = records[i].update_content(ip);
        assert(records@.take(i + 1).drop_last() =~= records@.take(i as int));
        if !candidate.eq(&records[i]) {
            updates.push(candidate);
        }
        i += 1;
    }
    assert(records@.take(records@.len() as int) =~= records@);
    updates
}

/// The update that a single record calls for: none where its content is the
/// resolved address already, and otherwise one, which differs from the record
/// in its content alone.
pub open spec fn update_of<R: Record>(record: R, ip: IpAddress) -> Seq<R> {
    if record.content() == ip {
        Seq::empty()
    } else {
        seq![record.with_content(ip)]
    }
}

/// A snapshot of one record is answered by the update of that record.
pub proof fn plan_of_one_record<R: Record>(record: R, ip: IpAddress)
    ensures
        plan(seq![record], ip) == update_of(record, ip),
{
    record.lemma_with_content(ip);
    assert(seq![record].drop_last() =~= Seq::<R>::empty());
    assert(plan(seq![record].drop_last(), ip) =~= Seq::<R>::empty());
    assert(plan(seq![record], ip) =~= update_of(record, ip));
}

/// Records are taken one by one and in order: the updates for two snapshots
/// put together are the updates for the first followed by those for the
/// second.
pub proof fn plan_of_concatenation<R: Record>(first: Seq<R>, second: Seq<R>, ip: IpAddress)
    ensures
        plan(first + second, ip) == plan(first, ip) + plan(second, ip),
    decreases second.len(),
{
    if second.len() == 0 {
        assert(first + second =~= first);
        assert(plan(first, ip) + plan(second, ip) =~= plan(first, ip));
    } else {
        assert((first + second).drop_last() =~= first + second.drop_last());
        plan_of_concatenation(first, second.drop_last(), ip);
        assert(plan(first + second, ip) =~= plan(first, ip) + plan(second, ip));
    }
}

/// Each record of a snapshot is answered on its own: by exactly one update,
/// with the resolved address as its content, where the record's content
/// differs from the address, and by none where it does not. The updates for
/// the records before it come first, those for the records after it last.
pub proof fn plan_record_by_record<R: Record>(records: Seq<R>, ip: IpAddress, i: int)
    requires
        0 <= i < records.len(),
    ensures
        plan(records, ip) == plan(records.take(i), ip) + update_of(records[i], ip) + plan(
            records.skip(i + 1),
            ip,
        ),
{
    let before = records.take(i);
    let after = records.skip(i + 1);
    assert(records =~= before + seq![records[i]] + after);
    plan_of_concatenation(before + seq![records[i]], after, ip);
    plan_of_concatenation(before, seq![records[i]], ip);
    plan_of_one_record(records[i], ip);
}

/// Where a cycle stands: which outcome the updater waits for.
#[derive(Clone, Copy, Debug, PartialEq, Eq, Structural)]
pub enum Phase {
    /// Between two cycles.
    Idle,
    /// The name of the discovery service is being resolved.
    Locating,
    /// The discovery service is being queried.
    Resolving,
    /// The fetch request is under way.
    Fetching,
    /// An update request is under way.
    Updating,
}

/// The outside step that the updater asks for.
pub enum Action<T: ApiTrait> {
    /// Bind a local endpoint at `bind`, and resolve `name` to its endpoints.
    Locate { bind: ExternalAddress, name: &'static str },
    /// Ask the discovery service at `server` for the public address.
    Discover { server: ExternalAddress },
    /// Send the fetch request.
    Fetch(FetchRequest),
    /// Send the update request.
    Update(UpdateRequest<T::Payload>),
    /// Sleep for so many seconds.
    Sleep(u64),
}

pub enum ActionView<T: ApiTrait> {
    Locate { bind: ExternalAddress, name: Seq<char> },
    Discover { server: ExternalAddress },
    Fetch(FetchRequestView),
    Update(UpdateRequestView<<T::Payload as View>::V>),
    Sleep(u64),
}

impl<T: ApiTrait> View for Action<T> {
    type V = ActionView<T>;

    open spec fn view(&self) -> ActionView<T> {
        match *self {
            Action::Locate { bind, name } => ActionView::Locate { bind, name: name@ },
            Action::Discover { server } => ActionView::Discover { server },
            Action::Fetch(request) => ActionView::Fetch(request@),
            Action::Update(request) => ActionView::Update(request@),
            Action::Sleep(seconds) => ActionView::Sleep(seconds),
        }
    }
}

/// How the step that the updater asked for ended.
pub enum Event<T: ApiTrait> {
    /// The sleep is over, or the updater is started.
    Wake,
    /// The endpoints that the name of the discovery service resolved to.
    Located(Result<Vec<ExternalAddress>, ResolveError>),
    /// The public endpoint that the discovery service saw.
    Discovered(Result<ExternalAddress, ResolveError>),
    /// What came back for the fetch request.
    Fetched(Result<T::Listing, FetchError>),
    /// How the update request ended.
    Updated(UpdateReply),
}

/// The reconciliation loop over one provider.
pub struct Updater<T: ApiTrait> {
    api: T,
    phase: Phase,
    address: Option<IpAddress>,
    pending: Vec<T::RecordType>,
    next: usize,
}

/// What an updater holds: its provider, where the cycle stands, the address
/// resolved in this cycle, the updates of this cycle in order, and how many
/// of them have been answered.
pub struct UpdaterView<T: ApiTrait> {
    pub api: T,
    pub phase: Phase,
    pub address: Option<IpAddress>,
    pub pending: Seq<T::RecordType>,
    pub next: nat,
}

/// The local endpoint to bind: any address, any port.
pub open spec fn any_endpoint() -> ExternalAddress {
    ExternalAddress { ip: IpAddress::V4(0, 0, 0, 0), port: 0 }
}

/// The endpoint of the discovery service to query, given what its name
/// resolved to.
pub open spec fn located_server(found: Result<Vec<ExternalAddress>, ResolveError>) -> Result<
    ExternalAddress,
    ResolveError,
> {
    match found {
        Ok(servers) => match first_ipv4(servers@) {
            Some(server) => Ok(server),
            None => Err(ResolveError::NoIpv4Server),
        },
        Err(e) => Err(e),
    }
}

impl<T: ApiTrait> View for Updater<T> {
    type V = UpdaterView<T>;

    closed spec fn view(&self) -> UpdaterView<T> {
        UpdaterView {
            api: self.api,
            phase: self.phase,
            address: self.address,
            pending: self.pending@,
            next: self.next as nat,
        }
    }
}

impl<T: ApiTrait> Updater<T> {
    /// While an update is under way it is one of the updates of the cycle,
    /// and while records are fetched the address is known.
    pub open spec fn wf(&self) -> bool {
        &&& self@.phase is Updating ==> self@.next < self@.pending.len()
        &&& self@.phase is Fetching ==> self@.address is Some
    }

    /// Whether `event` is the outcome that the updater waits for.
    pub open spec fn awaits(&self, event: Event<T>) -> bool {
        match event {
            Event::Wake => self@.phase is Idle,
            Event::Located(_) => self@.phase is Locating,
            Event::Discovered(_) => self@.phase is Resolving,
            Event::Fetched(_) => self@.phase is Fetching,
            Event::Updated(_) => self@.phase is Updating,
        }
    }

    /// The cycle goes on with its `n`-th update where there is one, and ends
    /// with a sleep of the provider's interval where there is none.
    pub open spec fn submits(post: UpdaterView<T>, n: nat, action: ActionView<T>) -> bool {
        if n < post.pending.len() {
            &&& post.phase is Updating
            &&& post.next == n
            &&& action == ActionView::<T>::Update(post.api.update_request(&post.pending[n as int]))
        } else {
            &&& post.phase is Idle
            &&& action == ActionView::<T>::Sleep(post.api.poll_rate() as u64)
        }
    }

    /// The fetch ended as `fetched`, with `ip` the address resolved: the
    /// provider has taken the outcome in, the updates of the cycle are those
    /// that its records call for, and the first of them is submitted.
    pub open spec fn reconciles(
        api: T,
        fetched: Result<T::Listing, FetchError>,
        ip: IpAddress,
        post: UpdaterView<T>,
        action: ActionView<T>,
    ) -> bool {
        &&& post.api.records() == api.listed(fetched)
        &&& post.api.poll_rate() == api.poll_rate()
        &&& post.api.fetch_request() == api.fetch_request()
        &&& forall|record: T::RecordType| #[trigger]
            post.api.update_request(&record) == api.update_request(&record)
        &&& post.address == Some(ip)
        &&& post.pending == plan(post.api.records(), ip)
        &&& Self::submits(post, 0, action)
    }

    /// The cycle is given up: nothing changes but the phase, and the updater
    /// sleeps for the provider's interval.
    pub open spec fn gives_up(pre: UpdaterView<T>, post: UpdaterView<T>, action: ActionView<T>)
        -> bool {
        &&& post == UpdaterView { phase: Phase::Idle, ..pre }
        &&& action == ActionView::<T>::Sleep(pre.api.poll_rate() as u64)
    }

    /// One step of the loop: what the updater is after `event`, and which
    /// action it asks for.
    pub open spec fn transition(
        pre: UpdaterView<T>,
        event: Event<T>,
        post: UpdaterView<T>,
        action: ActionView<T>,
    ) -> bool {
        match event {
            Event::Wake => {
                &&& post == UpdaterView { phase: Phase::Locating, ..pre }
                &&& action == ActionView::<T>::Locate { bind: any_endpoint(), name: STUN_SERVER@ }
            },
            Event::Located(found) => match located_server(found) {
                Ok(server) => {
                    &&& post == UpdaterView { phase: Phase::Resolving, ..pre }
                    &&& action == ActionView::<T>::Discover { server }
                },
                Err(_) => Self::gives_up(pre, post, action),
            },
            Event::Discovered(Ok(address)) => match pre.api.fetch_request() {
                Ok(request) => {
                    &&& post == UpdaterView {
                        phase: Phase::Fetching,
                        address: Some(address.ip),
                        ..pre
                    }
                    &&& action == ActionView::<T>::Fetch(request)
                },
                Err(e) => Self::reconciles(pre.api, Err(e), address.ip, post, action),
            },
            Event::Discovered(Err(_)) => Self::gives_up(pre, post, action),
            Event::Fetched(fetched) => Self::reconciles(
                pre.api,
                fetched,
                pre.address->0,
                post,
                action,
            ),
            Event::Updated(_) => {
                &&& post.api.poll_rate() == pre.api.poll_rate()
                &&& post.api.fetch_request() == pre.api.fetch_request()
                &&& forall|record: T::RecordType| #[trigger]
                    post.api.update_request(&record) == pre.api.update_request(&record)
                &&& post.address == pre.address
                &&& post.pending == pre.pending
                &&& Self::submits(post, pre.next + 1, action)
            },
        }
    }

    /// The updates of the cycle that have been submitted: while an update is
    /// under way, those up to it; else all of them.
    pub open spec fn submitted(view: UpdaterView<T>) -> Seq<T::RecordType> {
        if view.phase is Updating {
            view.pending.take(view.next as int + 1)
        } else {
            view.pending
        }
    }

    /// Each update of a cycle is submitted once, in order, and nothing else
    /// is. After the fetch the first update is submitted, if there is one.
    /// After each answer to an update the next one is submitted, and the
    /// updater sleeps only when all have been. A cycle without updates goes to
    /// sleep at once.
    pub proof fn updates_are_submitted_one_by_one(
        pre: UpdaterView<T>,
        event: Event<T>,
        post: UpdaterView<T>,
        action: ActionView<T>,
    )
        requires
            Self::transition(pre, event, post, action),
            event is Fetched || event is Updated,
            event is Updated ==> pre.phase is Updating && pre.next < pre.pending.len(),
        ensures
            action is Update || action is Sleep,
            event is Fetched ==> post.pending == plan(post.api.records(), pre.address->0),
            event is Updated ==> post.pending == pre.pending,
            action matches ActionView::Update(request) ==> {
                &&& post.phase is Updating
                &&& post.next < post.pending.len()
                &&& request == post.api.update_request(&post.pending[post.next as int])
                &&& Self::submitted(post) == (if event is Updated {
                    Self::submitted(pre)
                } else {
                    Seq::<T::RecordType>::empty()
                }).push(post.pending[post.next as int])
            },
            action is Sleep ==> {
                &&& post.phase is Idle
                &&& Self::submitted(post) == post.pending
                &&& event is Updated ==> Self::submitted(pre) == pre.pending
                &&& event is Fetched ==> post.pending.len() == 0
            },
    {
        if event is Updated {
            let n = pre.next as int;
            if n + 1 < pre.pending.len() {
                assert(pre.pending.take(n + 2) =~= pre.pending.take(n + 1).push(pre.pending[n + 1]));
            } else {
                assert(pre.pending.take(n + 1) =~= pre.pending);
            }
        } else {
            if post.pending.len() > 0 {
                assert(post.pending.take(1) =~= Seq::<T::RecordType>::empty().push(post.pending[0]));
            }
        }
    }

    /// An updater over a new provider, between two cycles. The provider is
    /// the one that [`ApiTrait::new`] gives for the interval, the credential
    /// and the environment as they are handed in: the updater changes none of
    /// them, and asks nothing else of the provider.
    pub fn new(poll_rate: usize, api_key: String, environment: &Environment) -> (updater: Self)
        ensures
            updater.wf(),
            call_ensures(T::new, (poll_rate, api_key, environment), updater@.api),
            updater@.phase is Idle,
            updater@.address is None,
            updater@.pending == Seq::<T::RecordType>::empty(),
            updater@.next == 0,
            updater@.api.records() == Seq::<T::RecordType>::empty(),
            updater@.api.poll_rate() == if poll_rate < MIN_POLL_RATE {
                MIN_POLL_RATE
            } else {
                poll_rate
            },
    {
        Updater {
            api: T::new(poll_rate, api_key, environment),
            phase: Phase::Idle,
            address: None,
            pending: Vec::new(),
            next: 0,
        }
    }

    /// An updater over a provider that exists already, between two cycles.
    pub fn with_api(api: T) -> (updater: Self)
        ensures
            updater.wf(),
            updater@ == (UpdaterView {
                api,
                phase: Phase::Idle,
                address: None,
                pending: Seq::<T::RecordType>::empty(),
                next: 0,
            }),
    {
        Updater { api, phase: Phase::Idle, address: None, pending: Vec::new(), next: 0 }
    }

    /// Where the cycle stands.
    pub fn phase(&self) -> (phase: Phase)
        ensures
            phase == self@.phase,
    {
        self.phase
    }

    /// The provider.
    pub fn api(&self) -> (api: &T)
        ensures
            *api == self@.api,
    {
        &self.api
    }

    /// Whether [`Updater::run`] may be called with `event`: whether the
    /// updater is well formed and `event` is the outcome that it waits for.
    pub fn accepts(&self, event: &Event<T>) -> (r: bool)
        ensures
            r == (self.wf() && self.awaits(*event)),
    {
        let well_formed = match self.phase {
            Phase::Updating => self.next < self.pending.len(),
            Phase::Fetching => self.address.is_some(),
            _ => true,
        };
        well_formed && match event {
            Event::Wake => self.phase == Phase::Idle,
            Event::Located(_) => self.phase == Phase::Locating,
            Event::Discovered(_) => self.phase == Phase::Resolving,
            Event::Fetched(_) => self.phase == Phase::Fetching,
            Event::Updated(_) => self.phase == Phase::Updating,
        }
    }

    fn give_up(&mut self) -> (action: Action<T>)
        ensures
            Self::gives_up(old(self)@, final(self)@, action@),
            final(self).wf(),
    {
        self.phase = Phase::Idle;
        Action::Sleep(self.api.get_poll_rate() as u64)
    }

    fn submit(&mut self, n: usize) -> (action: Action<T>)
        ensures
            Self::submits(final(self)@, n as nat, action@),
            final(self)@.api == old(self)@.api,
            final(self)@.address == old(self)@.address,
            final(self)@.pending == old(self)@.pending,
            final(self).wf(),
    {
        if n < self.pending.len() {
            self.phase = Phase::Updating;
            self.next = n;
            Action::Update(self.api.prepare_update(&self.pending[n]))
        } else {
            self.phase = Phase::Idle;
            Action::Sleep(self.api.get_poll_rate() as u64)
        }
    }

    fn reconcile(&mut self, fetched: Result<T::Listing, FetchError>, ip: IpAddress) -> (action:
        Action<T>)
        ensures
            Self::reconciles(old(self)@.api, fetched, ip, final(self)@, action@),
            final(self).wf(),
    {
        let records = self.api.get_records(fetched);
        let updates = plan_updates(records, ip);
        self.pending = updates;
        self.address = Some(ip);
        self.submit(0)
    }

    /// Resumes the loop with the outcome of the action that it asked for
    /// last, and runs it up to the next action.
    ///
    /// A failure to resolve the address ends the cycle: no record is fetched
    /// or updated before the next sleep is over.
    pub fn run(&mut self, event: Event<T>) -> (action: Action<T>)
        requires
            old(self).wf(),
            old(self).awaits(event),
        ensures
            final(self).wf(),
            Self::transition(old(self)@, event, final(self)@, action@),
    {
        match event {
            Event::Wake => {
                self.phase = Phase::Locating;
                Action::Locate {
                    bind: ExternalAddress { ip: IpAddress::V4(0, 0, 0, 0), port: 0 },
                    name: STUN_SERVER,
                }
            },
            Event::Located(found) => {
                let server = match found {
                    Ok(servers) => self.api.check_ip(&servers),
                    Err(e) => Err(e),
                };
                match server {
                    Ok(server) => {
                        self.phase = Phase::Resolving;
                        Action::Discover { server }
                    },
                    Err(_) => self.give_up(),
                }
            },
            Event::Discovered(resolved) => match resolved {
                Ok(address) => match self.api.list_request() {
                    Ok(request) => {
                        self.phase = Phase::Fetching;
                        self.address = Some(address.ip);
                        Action::Fetch(request)
                    },
                    Err(e) => self.reconcile(Err(e), address.ip),
                },
                Err(_) => self.give_up(),
            },
            Event::Fetched(fetched) => {
                let ip = match self.address {
                    Some(ip) => ip,
                    None => vstd::pervasive::unreached(),
                };
                self.reconcile(fetched, ip)
            },
            Event::Updated(reply) => {
                let n = self.next;
                assert(n < self.pending.len());
                let _ = self.api.update_record(&self.pending[n], reply);
                self.submit(n + 1)
            },
        }
    }

    /// [`Updater::run`] for callers that cannot promise what it requires:
    /// runs the loop where `event` is the outcome that the updater waits
    /// for, and otherwise does nothing and gives no action.
    pub fn resume(&mut self, event: Event<T>) -> (action: Option<Action<T>>)
        ensures
            match action {
                Some(action) => {
                    &&& old(self).wf() && old(self).awaits(event)
                    &&& final(self).wf()
                    &&& Self::transition(old(self)@, event, final(self)@, action@)
                },
                None => {
                    &&& !(old(self).wf() && old(self).awaits(event))
                    &&& *final(self) == *old(self)
                },
            },
    {
        if self.accepts(&event) {
            Some(self.run(event))
        } else {
            None
        }
    }
}

} // verus!
