//! Cloudflare as a DNS provider.
//!
//! Records are fetched with `GET /zones/{zone}/dns_records` and overwritten
//! with `PUT /zones/{zone}/dns_records/{record}`, both under a bearer token.

use vstd::prelude::*;
use vstd::string::StringExecFns;
use vstd::string::StringSliceAdditionalSpecFns;
use vstd::utf8::encode_utf8;
use vstd::utf8::is_ascii_chars_encode_utf8;
use reqwest::header::HeaderValue;
use crate::address::IpAddress;
use crate::address_format::ip_text;
use crate::address_laws::text_reads_back;
use crate::address_text::ip_of_text;
use crate::headers::{
    header_entries, header_map_insert, header_map_new, header_value_bytes, header_value_from_str,
    is_header_value, no_headers,
};
use crate::text::{parse_usize, usize_of_text};
use crate::updater::{
    equivalent, option_text, update_of, update_outcome, ApiTrait, Config, Environment, FetchError,
    FetchRequest, FetchRequestView, Record, UpdateReply, UpdateRequest, UpdateRequestView,
    MIN_POLL_RATE,
};

verus! {

/// The environment variable that holds the interval between two cycles.
pub const CLOUDFLARE_POLL_RATE: &'static str = "CLOUDFLARE_POLL_RATE";

/// The environment variable that holds the credential.
pub const CLOUDFLARE_API_KEY: &'static str = "CLOUDFLARE_API_KEY";

/// The environment variable that holds the zone.
pub const CLOUDFLARE_ZONE_ID: &'static str = "CLOUDFLARE_ZONE_ID";

/// The interval between two cycles where the environment names none.
pub const DEFAULT_POLL_RATE: usize = 300;

/// An interval raised to [`MIN_POLL_RATE`] where it is below.
pub open spec fn clamped(poll_rate: usize) -> usize {
    if poll_rate < MIN_POLL_RATE {
        MIN_POLL_RATE
    } else {
        poll_rate
    }
}

/// The text of a setting, empty where the setting is absent.
pub open spec fn text_or_empty(text: Option<String>) -> Seq<char> {
    match text {
        Some(text) => text@,
        None => Seq::empty(),
    }
}

/// The interval that the environment names: the number that its text
/// denotes, and [`DEFAULT_POLL_RATE`] where it is absent or denotes none.
pub open spec fn environment_poll_rate(environment: Environment) -> usize {
    match environment.poll_rate {
        Some(text) => match usize_of_text(text@) {
            Some(rate) => rate,
            None => DEFAULT_POLL_RATE,
        },
        None => DEFAULT_POLL_RATE,
    }
}

/// The settings of the provider: interval, credential and zone.
pub struct CloudFlareConfig {
    poll_rate: usize,
    api_key: String,
    zone_id: String,
}

pub struct CloudFlareConfigView {
    pub poll_rate: usize,
    pub api_key: Seq<char>,
    pub zone_id: Seq<char>,
}

impl View for CloudFlareConfig {
    type V = CloudFlareConfigView;

    closed spec fn view(&self) -> CloudFlareConfigView {
        CloudFlareConfigView {
            poll_rate: self.poll_rate,
            api_key: self.api_key@,
            zone_id: self.zone_id@,
        }
    }
}

impl Config for CloudFlareConfig {
    /// The interval where nothing else names one.
    fn get_poll_rate() -> (rate: usize)
        ensures
            rate == DEFAULT_POLL_RATE,
    {
        DEFAULT_POLL_RATE
    }
}

fn owned_or_empty(text: &Option<String>) -> (r: String)
    ensures
        r@ == text_or_empty(*text),
{
    match text {
        Some(text) => text.clone(),
        None => String::new(),
    }
}

impl CloudFlareConfig {
    /// The interval is never below [`MIN_POLL_RATE`].
    #[verifier::type_invariant]
    spec fn floor(&self) -> bool {
        self.poll_rate >= MIN_POLL_RATE
    }

    /// The settings as the environment gives them: each setting that is
    /// absent is empty, and the interval is [`DEFAULT_POLL_RATE`] where the
    /// environment names none, raised to [`MIN_POLL_RATE`] where it is below.
    pub fn from_environment(environment: &Environment) -> (config: Self)
        ensures
            config@ == (CloudFlareConfigView {
                poll_rate: clamped(environment_poll_rate(*environment)),
                api_key: text_or_empty(environment.api_key),
                zone_id: text_or_empty(environment.zone_id),
            }),
    {
        let named = match &environment.poll_rate {
            Some(text) => match parse_usize(text.as_str()) {
                Some(rate) => rate,
                None => DEFAULT_POLL_RATE,
            },
            None => DEFAULT_POLL_RATE,
        };
        let poll_rate = if named < MIN_POLL_RATE {
            MIN_POLL_RATE
        } else {
            named
        };
        CloudFlareConfig {
            poll_rate,
            api_key: owned_or_empty(&environment.api_key),
            zone_id: owned_or_empty(&environment.zone_id),
        }
    }

    /// The settings for an interval and a credential given by hand. An
    /// interval below [`MIN_POLL_RATE`] is raised to it. An empty credential
    /// is replaced by that of the environment; any other is kept as it is,
    /// whatever the environment holds. The zone is that of the environment.
    pub fn new(poll_rate: usize, api_key: String, environment: &Environment) -> (config: Self)
        ensures
            config@ == (CloudFlareConfigView {
                poll_rate: clamped(poll_rate),
                api_key: if api_key@.len() == 0 {
                    text_or_empty(environment.api_key)
                } else {
                    api_key@
                },
                zone_id: text_or_empty(environment.zone_id),
            }),
    {
        let poll_rate = if poll_rate < MIN_POLL_RATE {
            MIN_POLL_RATE
        } else {
            poll_rate
        };
        let api_key = if api_key.as_str().is_empty() {
            owned_or_empty(&environment.api_key)
        } else {
            api_key
        };
        CloudFlareConfig { poll_rate, api_key, zone_id: owned_or_empty(&environment.zone_id) }
    }

    pub fn poll_rate(&self) -> (rate: usize)
        ensures
            rate == self@.poll_rate,
            rate >= MIN_POLL_RATE,
    {
        proof {
            use_type_invariant(self);
        }
        self.poll_rate
    }

    pub fn api_key(&self) -> (key: &String)
        ensures
            key@ == self@.api_key,
    {
        &self.api_key
    }

    pub fn zone_id(&self) -> (zone: &String)
        ensures
            zone@ == self@.zone_id,
    {
        &self.zone_id
    }
}

/// A DNS record as Cloudflare holds it.
#[derive(Debug)]
pub struct CloudFlareRecord {
    pub content: IpAddress,
    pub name: String,
    /// `A`, `AAAA`, `CNAME` and so on.
    pub record_type: String,
    pub ttl: u32,
    pub proxied: bool,
    pub zone_id: String,
    /// Present in a record that was fetched.
    pub record_id: Option<String>,
}

fn clone_option(text: &Option<String>) -> (r: Option<String>)
    ensures
        r == *text,
{
    match text {
        Some(text) => Some(text.clone()),
        None => None,
    }
}

impl Clone for CloudFlareRecord {
    fn clone(&self) -> (r: Self)
        ensures
            r == *self,
    {
        CloudFlareRecord {
            content: self.content,
            name: self.name.clone(),
            record_type: self.record_type.clone(),
            ttl: self.ttl,
            proxied: self.proxied,
            zone_id: self.zone_id.clone(),
            record_id: clone_option(&self.record_id),
        }
    }
}

impl Record for CloudFlareRecord {
    open spec fn id(&self) -> Option<Seq<char>> {
        option_text(self.record_id)
    }

    open spec fn name(&self) -> Seq<char> {
        self.name@
    }

    open spec fn content(&self) -> IpAddress {
        self.content
    }

    open spec fn with_content(&self, content: IpAddress) -> Self {
        CloudFlareRecord { content, ..*self }
    }

    proof fn lemma_with_content(&self, content: IpAddress) {
    }

    fn get_id(&self) -> (r: Option<String>) {
        clone_option(&self.record_id)
    }

    fn get_name(&self) -> (r: String) {
        self.name.clone()
    }

    fn get_content(&self) -> (r: IpAddress) {
        self.content
    }

    fn update_content(&self, new_content: IpAddress) -> (r: Self) {
        CloudFlareRecord {
            content: new_content,
            name: self.name.clone(),
            record_type: self.record_type.clone(),
            ttl: self.ttl,
            proxied: self.proxied,
            zone_id: self.zone_id.clone(),
            record_id: clone_option(&self.record_id),
        }
    }
}

/// Two records are equivalent exactly where content, identifier and name
/// agree, whatever their types, lifetimes, proxy flags and zones are.
pub proof fn equivalence_of_records(a: CloudFlareRecord, b: CloudFlareRecord)
    ensures
        equivalent(&a, &b) <==> a.content == b.content && option_text(a.record_id) == option_text(
            b.record_id,
        ) && a.name@ == b.name@,
        equivalent(
            &a,
            &(CloudFlareRecord {
                record_type: b.record_type,
                ttl: b.ttl,
                proxied: b.proxied,
                zone_id: b.zone_id,
                ..a
            }),
        ),
{
}

/// One record in the answer to a fetch.
pub struct CloudflareResult {
    pub id: String,
    pub name: String,
    pub content: String,
    pub record_type: String,
    pub ttl: u32,
    pub proxied: bool,
    pub zone_id: String,
}

/// The answer to a fetch.
pub struct CloudflareResponse {
    pub success: bool,
    pub result: Vec<CloudflareResult>,
}

/// What an update carries: the body of the `PUT`.
pub struct UpdatePayload {
    pub content: String,
    pub name: String,
    pub proxied: bool,
    pub record_type: String,
    pub ttl: u32,
}

pub struct UpdatePayloadView {
    pub content: Seq<char>,
    pub name: Seq<char>,
    pub proxied: bool,
    pub record_type: Seq<char>,
    pub ttl: u32,
}

impl View for UpdatePayload {
    type V = UpdatePayloadView;

    open spec fn view(&self) -> UpdatePayloadView {
        UpdatePayloadView {
            content: self.content@,
            name: self.name@,
            proxied: self.proxied,
            record_type: self.record_type@,
            ttl: self.ttl,
        }
    }
}

/// The record that an entry of the answer stands for, where its content
/// denotes an address.
pub open spec fn record_of(entry: CloudflareResult) -> Option<CloudFlareRecord> {
    match ip_of_text(entry.content@) {
        Some(content) => Some(
            CloudFlareRecord {
                content,
                name: entry.name,
                record_type: entry.record_type,
                ttl: entry.ttl,
                proxied: entry.proxied,
                zone_id: entry.zone_id,
                record_id: Some(entry.id),
            },
        ),
        None => None,
    }
}

/// The records that the entries of an answer stand for, in order. An entry
/// whose content denotes no address stands for none.
pub open spec fn records_of(entries: Seq<CloudflareResult>) -> Seq<CloudFlareRecord>
    decreases entries.len(),
{
    if entries.len() == 0 {
        Seq::empty()
    } else {
        let rest = records_of(entries.drop_last());
        match record_of(entries.last()) {
            Some(record) => rest.push(record),
            None => rest,
        }
    }
}

/// What a fetch gives: the records of the answer, where there is an answer
/// and it reports success.
pub open spec fn fetch_result(fetched: Result<CloudflareResponse, FetchError>) -> Result<
    Seq<CloudFlareRecord>,
    FetchError,
> {
    match fetched {
        Ok(response) => if response.success {
            Ok(records_of(response.result@))
        } else {
            Err(FetchError::Unsuccessful)
        },
        Err(e) => Err(e),
    }
}

/// The value of the `Authorization` header for a credential.
pub open spec fn bearer_text(api_key: Seq<char>) -> Seq<char> {
    "Bearer "@ + api_key
}

/// The address of the records of a zone.
pub open spec fn records_url(zone_id: Seq<char>) -> Seq<char> {
    "https://api.cloudflare.com/client/v4/zones/"@ + zone_id + "/dns_records"@
}

/// The address of one record of a zone. A record without identifier is
/// addressed as if its identifier were empty.
pub open spec fn record_url(zone_id: Seq<char>, record_id: Option<Seq<char>>) -> Seq<char> {
    records_url(zone_id) + "/"@ + match record_id {
        Some(id) => id,
        None => Seq::empty(),
    }
}

/// The bytes sent under `Authorization` with an update: those of the bearer
/// text, and none where a header value cannot hold them.
pub open spec fn update_authorization(api_key: Seq<char>) -> Seq<u8> {
    if is_header_value(encode_utf8(bearer_text(api_key))) {
        encode_utf8(bearer_text(api_key))
    } else {
        Seq::empty()
    }
}

/// The provider: its settings, and the records last fetched.
pub struct CloudFlareApi {
    config: CloudFlareConfig,
    records: Vec<CloudFlareRecord>,
}

impl CloudFlareApi {
    pub closed spec fn config(&self) -> CloudFlareConfigView {
        self.config@
    }

    /// A provider with the settings of the environment, which has fetched
    /// nothing yet.
    pub fn from_environment(environment: &Environment) -> (api: Self)
        ensures
            api.config() == (CloudFlareConfigView {
                poll_rate: clamped(environment_poll_rate(*environment)),
                api_key: text_or_empty(environment.api_key),
                zone_id: text_or_empty(environment.zone_id),
            }),
            api.records() == Seq::<CloudFlareRecord>::empty(),
    {
        CloudFlareApi { config: CloudFlareConfig::from_environment(environment), records: Vec::new() }
    }

    /// The settings.
    pub fn settings(&self) -> (config: &CloudFlareConfig)
        ensures
            config@ == self.config(),
    {
        &self.config
    }

    /// The `Authorization` header for the credential, where a header value
    /// can hold it.
    fn authorization(&self) -> (r: Result<HeaderValue, FetchError>)
        ensures
            r is Ok <==> is_header_value(encode_utf8(bearer_text(self.config().api_key))),
            r matches Ok(value) ==> header_value_bytes(value) == encode_utf8(
                bearer_text(self.config().api_key),
            ),
            r matches Err(e) ==> e == FetchError::Credential,
    {
        let mut bearer = String::from_str("Bearer ");
        bearer.append(self.config.api_key().as_str());
        match header_value_from_str(bearer.as_str()) {
            Ok(value) => Ok(value),
            Err(_) => Err(FetchError::Credential),
        }
    }

    /// Why a fetch that ended as `fetched` gives no records, if it gives
    /// none: the failure that was handed in, or that the answer reports no
    /// success.
    pub fn fetch_failure(fetched: &Result<CloudflareResponse, FetchError>) -> (r: Option<
        FetchError,
    >)
        ensures
            r == match fetch_result(*fetched) {
                Ok(_) => None::<FetchError>,
                Err(e) => Some(e),
            },
    {
        match fetched {
            Ok(response) => if response.success {
                None
            } else {
                Some(FetchError::Unsuccessful)
            },
            Err(e) => Some(*e),
        }
    }

    /// What a fetch that ended as `fetched` gives: the records of the answer,
    /// or why there are none.
    pub fn fetch_outcome(fetched: Result<CloudflareResponse, FetchError>) -> (r: Result<
        Vec<CloudFlareRecord>,
        FetchError,
    >)
        ensures
            match r {
                Ok(records) => fetch_result(fetched) == Ok::<Seq<CloudFlareRecord>, FetchError>(
                    records@,
                ),
                Err(e) => fetch_result(fetched) == Err::<Seq<CloudFlareRecord>, FetchError>(e),
            },
    {
        let response = match fetched {
            Ok(response) => response,
            Err(e) => {
                return Err(e);
            },
        };
        if !response.success {
            return Err(FetchError::Unsuccessful);
        }
        let entries = &response.result;
        let mut records: Vec<CloudFlareRecord> = Vec::new();
        let mut i: usize = 0;
        while i < entries.len()
            invariant
                i <= entries@.len(),
                records@ == records_of(entries@.take(i as int)),
            decreases entries@.len() - i,
        {
            let entry = &entries[i];
            assert(entries@.take(i + 1).drop_last() =~= entries@.take(i as int));
            match IpAddress::parse(entry.content.as_str()) {
                Some(content) => {
                    records.push(
                        CloudFlareRecord {
                            content,
                            name: entry.name.clone(),
                            record_type: entry.record_type.clone(),
                            ttl: entry.ttl,
                            proxied: entry.proxied,
                            zone_id: entry.zone_id.clone(),
                            record_id: Some(entry.id.clone()),
                        },
                    );
                },
                None => {},
            }
            i += 1;
        }
        assert(entries@.take(entries@.len() as int) =~= entries@);
        Ok(records)
    }
}

impl ApiTrait for CloudFlareApi {
    type RecordType = CloudFlareRecord;

    type Listing = CloudflareResponse;

    type Payload = UpdatePayload;

    closed spec fn records(&self) -> Seq<CloudFlareRecord> {
        self.records@
    }

    open spec fn poll_rate(&self) -> usize {
        self.config().poll_rate
    }

    open spec fn listed(&self, fetched: Result<CloudflareResponse, FetchError>) -> Seq<
        CloudFlareRecord,
    > {
        match fetch_result(fetched) {
            Ok(records) => records,
            Err(_) => self.records(),
        }
    }

    open spec fn fetch_request(&self) -> Result<FetchRequestView, FetchError> {
        let bearer = encode_utf8(bearer_text(self.config().api_key));
        if is_header_value(bearer) {
            Ok(
                FetchRequestView {
                    url: records_url(self.config().zone_id),
                    headers: no_headers().insert("authorization"@, bearer),
                },
            )
        } else {
            Err(FetchError::Credential)
        }
    }

    open spec fn update_request(&self, record: &CloudFlareRecord) -> UpdateRequestView<
        UpdatePayloadView,
    > {
        UpdateRequestView {
            url: record_url(self.config().zone_id, option_text(record.record_id)),
            headers: no_headers().insert(
                "authorization"@,
                update_authorization(self.config().api_key),
            ).insert("content-type"@, encode_utf8("application/json"@)),
            payload: UpdatePayloadView {
                content: ip_text(record.content),
                name: record.name@,
                proxied: record.proxied,
                record_type: record.record_type@,
                ttl: record.ttl,
            },
        }
    }

    proof fn lemma_failed_fetch(&self, fetched: Result<CloudflareResponse, FetchError>) {
    }

    fn new(poll_rate: usize, api_key: String, environment: &Environment) -> (api: Self)
        ensures
            api.config() == (CloudFlareConfigView {
                poll_rate: clamped(poll_rate),
                api_key: if api_key@.len() == 0 {
                    text_or_empty(environment.api_key)
                } else {
                    api_key@
                },
                zone_id: text_or_empty(environment.zone_id),
            }),
    {
        CloudFlareApi {
            config: CloudFlareConfig::new(poll_rate, api_key, environment),
            records: Vec::new(),
        }
    }

    fn list_request(&self) -> (r: Result<FetchRequest, FetchError>) {
        let value = match self.authorization() {
            Ok(value) => value,
            Err(e) => {
                return Err(e);
            },
        };
        proof {
            reveal_strlit("authorization");
        }
        let mut headers = header_map_new();
        header_map_insert(&mut headers, "authorization", value);
        let mut url = String::from_str("https://api.cloudflare.com/client/v4/zones/");
        url.append(self.config.zone_id().as_str());
        url.append("/dns_records");
        Ok(FetchRequest { url, headers })
    }

    fn get_records(&mut self, fetched: Result<CloudflareResponse, FetchError>) -> (r: &Vec<
        CloudFlareRecord,
    >)
        ensures
            final(self).config() == old(self).config(),
    {
        match Self::fetch_outcome(fetched) {
            Ok(records) => {
                self.records = records;
            },
            Err(_) => {},
        }
        &self.records
    }

    fn prepare_update(&self, record: &CloudFlareRecord) -> (r: UpdateRequest<UpdatePayload>) {
        proof {
            reveal_strlit("authorization");
            reveal_strlit("content-type");
            reveal_strlit("application/json");
            reveal_strlit("");
            is_ascii_chars_encode_utf8("application/json"@);
            is_ascii_chars_encode_utf8(""@);
        }
        let authorization = match self.authorization() {
            Ok(value) => value,
            Err(_) => match header_value_from_str("") {
                Ok(value) => value,
                Err(_) => vstd::pervasive::unreached(),
            },
        };
        let content_type = match header_value_from_str("application/json") {
            Ok(value) => value,
            Err(_) => vstd::pervasive::unreached(),
        };
        let mut headers = header_map_new();
        header_map_insert(&mut headers, "authorization", authorization);
        header_map_insert(&mut headers, "content-type", content_type);
        let mut url = String::from_str("https://api.cloudflare.com/client/v4/zones/");
        url.append(self.config.zone_id().as_str());
        url.append("/dns_records");
        url.append("/");
        match &record.record_id {
            Some(id) => {
                url.append(id.as_str());
            },
            None => {},
        }
        assert(url@ =~= record_url(self.config().zone_id, option_text(record.record_id)));
        UpdateRequest {
            url,
            headers,
            payload: UpdatePayload {
                content: record.content.to_text(),
                name: record.name.clone(),
                proxied: record.proxied,
                record_type: record.record_type.clone(),
                ttl: record.ttl,
            },
        }
    }

    fn update_record(&mut self, record: &CloudFlareRecord, reply: UpdateReply) -> (r:
        CloudFlareRecord)
        ensures
            *final(self) == *old(self),
    {
        match update_outcome(reply) {
            Ok(()) => record.clone(),
            Err(_) => record.clone(),
        }
    }

    fn get_poll_rate(&self) -> (r: usize)
        ensures
            r >= MIN_POLL_RATE,
    {
        self.config.poll_rate()
    }
}

/// A fetch that was not answered, whose answer could not be read as the
/// provider's, or whose answer reports no success leaves the records as they
/// were; before the first successful fetch there are none.
pub proof fn failed_fetch_keeps_records(
    api: CloudFlareApi,
    fetched: Result<CloudflareResponse, FetchError>,
)
    requires
        fetched is Err || !fetched->Ok_0.success,
    ensures
        fetch_result(fetched) is Err,
        api.listed(fetched) == api.records(),
{
}

/// The update for a record differs from the record in its content alone,
/// and there is none for a record whose content is the address already.
pub proof fn update_changes_content_alone(record: CloudFlareRecord, ip: IpAddress)
    ensures
        record.content != ip ==> update_of(record, ip) == seq![
            CloudFlareRecord { content: ip, ..record },
        ],
        record.content == ip ==> update_of(record, ip) == Seq::<CloudFlareRecord>::empty(),
{
}

/// The entries of an answer are taken one by one and in order: the records
/// for two lists of entries put together are the records for the first
/// followed by those for the second. So an entry whose content denotes no
/// address costs its own record and no other.
pub proof fn records_of_concatenation(first: Seq<CloudflareResult>, second: Seq<CloudflareResult>)
    ensures
        records_of(first + second) == records_of(first) + records_of(second),
    decreases second.len(),
{
    if second.len() == 0 {
        assert(first + second =~= first);
        assert(records_of(first) + records_of(second) =~= records_of(first));
    } else {
        assert((first + second).drop_last() =~= first + second.drop_last());
        records_of_concatenation(first, second.drop_last());
        assert(records_of(first + second) =~= records_of(first) + records_of(second));
    }
}

/// An update that reached the provider settles its record: once the
/// provider gives the record back with the content that was submitted, and
/// the address is still the same, the record calls for no update.
pub proof fn submitted_content_calls_for_no_update(entry: CloudflareResult, ip: IpAddress)
    requires
        entry.content@ == ip_text(ip),
    ensures
        record_of(entry) is Some,
        record_of(entry)->0.content == ip,
        update_of(record_of(entry)->0, ip) == Seq::<CloudFlareRecord>::empty(),
{
    text_reads_back(ip);
}

} // verus!
