//! The client's configuration, requests, replies and retry decisions.
use vstd::prelude::*;
use vstd::bits::lemma_u64_shl_is_mul;
use vstd::arithmetic::power2::{lemma2_to64, lemma_pow2_strictly_increases, pow2};

use crate::http_route::trailing_slashes;
use crate::ids::{
    BatchId, LeaderEpoch, LogicalOffset, LogicalPartitionId, PlacementSequence, RecordId, RingEpoch,
    ShardId, TopicId, TopicPartition,
};
use crate::protocol::{AppendResponse, Durability, FetchMode, ProducerIdentity};
use crate::sequencer::Placement;
use crate::text::{
    append_decimal, collect_chars, decimal, decimal_string, parse_decimal, parsed_decimal, same_text,
};
use crate::time::Duration;

verus! {

/// Largest answer that a client reads unless it is configured otherwise.
pub const DEFAULT_MAX_FRAME_BYTES: usize = 67_112_960;

/// Longest wait for a fuller batch, in nanoseconds.
pub const MAX_LINGER_NANOS: u128 = 60_000_000_000;

pub const BATCH_SIZE_ENV: &'static str = "SHARD_STREAM_BATCH_SIZE";

pub const LINGER_MS_ENV: &'static str = "SHARD_STREAM_LINGER_MS";

pub const MAX_REQUEST_SIZE_ENV: &'static str = "SHARD_STREAM_MAX_REQUEST_SIZE";

pub const ADMIN_TOKEN_ENV: &'static str = "SHARD_STREAM_ADMIN_TOKEN";

/// How a topic is kept available.
#[derive(Debug, Clone, Copy, PartialEq, Eq, Structural)]
pub enum TopicHaMode {
    ActivePassive,
    ActiveActive,
}

impl TopicHaMode {
    /// The mode's name.
    pub open spec fn named(self) -> Seq<char> {
        match self {
            TopicHaMode::ActivePassive => "ActivePassive"@,
            TopicHaMode::ActiveActive => "ActiveActive"@,
        }
    }

    pub fn name(self) -> (name: &'static str)
        ensures
            name@ == self.named(),
    {
        match self {
            TopicHaMode::ActivePassive => "ActivePassive",
            TopicHaMode::ActiveActive => "ActiveActive",
        }
    }
}

/// Where a logical topic's records are kept now.
#[derive(Debug, Clone, Copy, PartialEq, Eq, Structural)]
pub struct LogicalTopicBinding {
    pub logical_topic_id: TopicId,
    pub mode: TopicHaMode,
    pub data_generation: u64,
    pub partitions: u32,
}

/// Why a client refused, could not send or could not finish a request.
#[derive(Debug, PartialEq, Eq)]
pub enum ClientError {
    InvalidConfig(String),
    Transport(String),
    Api { status: u16, code: String, message: String, retryable: bool },
    InvalidResponse(String),
    Wire(String),
    Cursor(String),
    SdkUpgradeRequired(LogicalTopicBinding),
}

/// A client's failure with its texts taken by their views.
pub ghost enum ClientFault {
    InvalidConfig(Seq<char>),
    Transport(Seq<char>),
    Api { status: u16, code: Seq<char>, message: Seq<char>, retryable: bool },
    InvalidResponse(Seq<char>),
    Wire(Seq<char>),
    Cursor(Seq<char>),
    SdkUpgradeRequired(LogicalTopicBinding),
}

impl View for ClientError {
    type V = ClientFault;

    open spec fn view(&self) -> ClientFault {
        match *self {
            ClientError::InvalidConfig(text) => ClientFault::InvalidConfig(text@),
            ClientError::Transport(text) => ClientFault::Transport(text@),
            ClientError::Api { status, code, message, retryable } => ClientFault::Api {
                status,
                code: code@,
                message: message@,
                retryable,
            },
            ClientError::InvalidResponse(text) => ClientFault::InvalidResponse(text@),
            ClientError::Wire(text) => ClientFault::Wire(text@),
            ClientError::Cursor(text) => ClientFault::Cursor(text@),
            ClientError::SdkUpgradeRequired(binding) => ClientFault::SdkUpgradeRequired(binding),
        }
    }
}

/// A result is the one that a model predicts.
pub open spec fn client_agrees<T>(
    result: Result<T, ClientError>,
    expected: Result<T, ClientFault>,
) -> bool {
    match (result, expected) {
        (Ok(one), Ok(other)) => one == other,
        (Err(error), Err(fault)) => error@ == fault,
        _ => false,
    }
}

/// How a status is shown: its number and its registered name.
pub uninterp spec fn status_text_of(status: u16) -> Option<Seq<char>>;

/// Shows a status with `http::StatusCode::from_u16` and its `Display`; there is
/// nothing to show for a number that is no status.
#[verifier::external_body]
fn status_text(status: u16) -> (text: Option<String>)
    ensures
        match text {
            Some(shown) => status_text_of(status) == Some(shown@),
            None => status_text_of(status) is None,
        },
{
    http::StatusCode::from_u16(status).ok().map(|code| code.to_string())
}

impl ClientError {
    /// What the failure's message says.
    pub open spec fn describes(&self) -> Seq<char> {
        match *self {
            ClientError::InvalidConfig(text) => "invalid client config: "@ + text@,
            ClientError::Transport(text) => "transport error: "@ + text@,
            ClientError::Api { status, code, message, .. } => "server error "@ + shown_status(
                status_text_of(status),
                status,
            ) + " "@ + code@ + ": "@ + message@,
            ClientError::InvalidResponse(text) => "invalid response: "@ + text@,
            ClientError::Wire(text) => "native protocol error: "@ + text@,
            ClientError::Cursor(text) => "logical cursor error: "@ + text@,
            ClientError::SdkUpgradeRequired(binding) => "SDK upgrade required for "@
                + binding.mode.named() + " data generation "@ + decimal(
                binding.data_generation as nat,
            ),
        }
    }

    /// Explains the failure.
    pub fn message(&self) -> (text: String)
        ensures
            text@ == self.describes(),
    {
        match self {
            ClientError::InvalidConfig(text) => prefixed("invalid client config: ", text.as_str()),
            ClientError::Transport(text) => prefixed("transport error: ", text.as_str()),
            ClientError::Api { status, code, message, retryable: _ } => {
                let mut text = "server error ".to_string();
                let shown = show_status(status_text(*status), *status);
                text.append(shown.as_str());
                text.append(" ");
                text.append(code.as_str());
                text.append(": ");
                text.append(message.as_str());
                text
            },
            ClientError::InvalidResponse(text) => prefixed("invalid response: ", text.as_str()),
            ClientError::Wire(text) => prefixed("native protocol error: ", text.as_str()),
            ClientError::Cursor(text) => prefixed("logical cursor error: ", text.as_str()),
            ClientError::SdkUpgradeRequired(binding) => {
                let mut text = prefixed("SDK upgrade required for ", binding.mode.name());
                text.append(" data generation ");
                append_decimal(&mut text, binding.data_generation as u128);
                text
            },
        }
    }

    /// The server's name for the failure, where the server reported it.
    pub fn api_code(&self) -> (code: Option<&str>)
        ensures
            match (code, *self) {
                (Some(text), ClientError::Api { code: reported, .. }) => text@ == reported@,
                (Some(_), _) => false,
                (None, ClientError::Api { .. }) => false,
                (None, _) => true,
            },
    {
        match self {
            ClientError::Api { code, .. } => Some(code.as_str()),
            _ => None,
        }
    }
}

/// How a status is shown, where its name is known.
pub open spec fn shown_status(text: Option<Seq<char>>, status: u16) -> Seq<char> {
    match text {
        Some(shown) => shown,
        None => decimal(status as nat),
    }
}

/// Shows a status by its name, or by its number where it has none.
pub fn show_status(text: Option<String>, status: u16) -> (shown: String)
    ensures
        shown@ == shown_status(
            match text {
                Some(name) => Some(name@),
                None => None,
            },
            status,
        ),
{
    match text {
        Some(name) => name,
        None => decimal_string(status as u128),
    }
}

fn prefixed(before: &str, text: &str) -> (joined: String)
    ensures
        joined@ == before@ + text@,
{
    let mut joined = before.to_string();
    joined.append(text);
    joined
}

fn invalid_config(text: &str) -> (error: ClientError)
    ensures
        error@ == ClientFault::InvalidConfig(text@),
{
    ClientError::InvalidConfig(text.to_string())
}

fn invalid_response(text: &str) -> (error: ClientError)
    ensures
        error@ == ClientFault::InvalidResponse(text@),
{
    ClientError::InvalidResponse(text.to_string())
}

/// A setting of the environment: the default where it is absent.
pub open spec fn env_number(
    name: Seq<char>,
    value: Option<Seq<char>>,
    default: nat,
    max: nat,
) -> Result<nat, ClientFault> {
    match value {
        None => Ok(default),
        Some(text) => match parsed_decimal(text, max) {
            Some(number) => Ok(number),
            None => Err(
                ClientFault::InvalidConfig(name + " must be a non-negative base-10 integer"@),
            ),
        },
    }
}

/// The view of an optional text.
pub open spec fn string_view(text: Option<String>) -> Option<Seq<char>> {
    match text {
        Some(t) => Some(t@),
        None => None,
    }
}

fn parse_env_value(name: &str, value: Option<String>, default: u64, max: u64) -> (result: Result<
    u64,
    ClientError,
>)
    requires
        default <= max,
    ensures
        match (result, env_number(name@, string_view(value), default as nat, max as nat)) {
            (Ok(number), Ok(expected)) => number == expected && number <= max,
            (Err(error), Err(fault)) => error@ == fault,
            _ => false,
        },
{
    match value {
        None => Ok(default),
        Some(text) => match parse_decimal(text.as_str(), max as u128) {
            Some(number) => Ok(number as u64),
            None => Err(
                ClientError::InvalidConfig(
                    prefixed(name, " must be a non-negative base-10 integer"),
                ),
            ),
        },
    }
}

/// When a producer sends what it has buffered, and how much at once.
#[derive(Debug, Clone, Copy, PartialEq, Eq, Structural)]
pub struct ProducerTuning {
    pub batch_size: usize,
    pub linger: Duration,
    pub max_request_size: usize,
}

impl ProducerTuning {
    pub open spec fn spec_default() -> ProducerTuning {
        ProducerTuning {
            batch_size: 2097152,
            linger: Duration { nanos: 20000000 },
            max_request_size: 4194304,
        }
    }

    /// What is wrong with the settings, if anything.
    pub open spec fn fault(self) -> Option<ClientFault> {
        if self.batch_size == 0 || self.max_request_size == 0 {
            Some(
                ClientFault::InvalidConfig("producer batch and request sizes must be nonzero"@),
            )
        } else if self.batch_size > self.max_request_size {
            Some(
                ClientFault::InvalidConfig("producer batch_size cannot exceed max_request_size"@),
            )
        } else if self.linger.nanos > MAX_LINGER_NANOS {
            Some(ClientFault::InvalidConfig("producer linger cannot exceed 60 seconds"@))
        } else {
            None
        }
    }

    /// The settings that the environment's values give.
    pub open spec fn tuned(
        batch_size: Option<Seq<char>>,
        linger_ms: Option<Seq<char>>,
        max_request_size: Option<Seq<char>>,
    ) -> Result<ProducerTuning, ClientFault> {
        match env_number(BATCH_SIZE_ENV@, batch_size, 2097152, usize::MAX as nat) {
            Err(fault) => Err(fault),
            Ok(batch) => match env_number(LINGER_MS_ENV@, linger_ms, 20, u64::MAX as nat) {
                Err(fault) => Err(fault),
                Ok(millis) => match env_number(
                    MAX_REQUEST_SIZE_ENV@,
                    max_request_size,
                    4194304,
                    usize::MAX as nat,
                ) {
                    Err(fault) => Err(fault),
                    Ok(request) => {
                        let tuning = ProducerTuning {
                            batch_size: batch as usize,
                            linger: millis_linger(millis),
                            max_request_size: request as usize,
                        };
                        match tuning.fault() {
                            Some(fault) => Err(fault),
                            None => Ok(tuning),
                        }
                    },
                },
            },
        }
    }

    /// Reads the settings from the values of the environment.
    pub fn from_values(
        batch_size: Option<String>,
        linger_ms: Option<String>,
        max_request_size: Option<String>,
    ) -> (result: Result<ProducerTuning, ClientError>)
        ensures
            client_agrees(
                result,
                Self::tuned(
                    string_view(batch_size),
                    string_view(linger_ms),
                    string_view(max_request_size),
                ),
            ),
    {
        let batch: u64 = match parse_env_value(
            BATCH_SIZE_ENV,
            batch_size,
            2097152,
            usize::MAX as u64,
        ) {
            Err(error) => {
                return Err(error);
            },
            Ok(value) => value,
        };
        let millis: u64 = match parse_env_value(LINGER_MS_ENV, linger_ms, 20, u64::MAX) {
            Err(error) => {
                return Err(error);
            },
            Ok(value) => value,
        };
        let request: u64 = match parse_env_value(
            MAX_REQUEST_SIZE_ENV,
            max_request_size,
            4194304,
            usize::MAX as u64,
        ) {
            Err(error) => {
                return Err(error);
            },
            Ok(value) => value,
        };
        let tuning = ProducerTuning {
            batch_size: batch as usize,
            linger: Duration::from_millis(millis),
            max_request_size: request as usize,
        };
        match tuning.validate() {
            Err(error) => Err(error),
            Ok(()) => Ok(tuning),
        }
    }

    /// Reads the settings from an environment.
    pub fn from_lookup<F: Fn(&str) -> Option<String>>(lookup: F) -> (result: Result<
        ProducerTuning,
        ClientError,
    >)
        requires
            lookup.requires((BATCH_SIZE_ENV,)),
            lookup.requires((LINGER_MS_ENV,)),
            lookup.requires((MAX_REQUEST_SIZE_ENV,)),
        ensures
            exists|batch: Option<String>, linger: Option<String>, request: Option<String>|
                lookup.ensures((BATCH_SIZE_ENV,), batch) && lookup.ensures(
                    (LINGER_MS_ENV,),
                    linger,
                ) && lookup.ensures((MAX_REQUEST_SIZE_ENV,), request) && #[trigger] client_agrees(
                    result,
                    Self::tuned(string_view(batch), string_view(linger), string_view(request)),
                ),
    {
        let batch = lookup(BATCH_SIZE_ENV);
        let linger = lookup(LINGER_MS_ENV);
        let request = lookup(MAX_REQUEST_SIZE_ENV);
        Self::from_values(batch, linger, request)
    }

    /// Checks the settings.
    pub fn validate(self) -> (result: Result<(), ClientError>)
        ensures
            client_agrees(
                result,
                match self.fault() {
                    Some(fault) => Err(fault),
                    None => Ok(()),
                },
            ),
    {
        if self.batch_size == 0 || self.max_request_size == 0 {
            return Err(invalid_config("producer batch and request sizes must be nonzero"));
        }
        if self.batch_size > self.max_request_size {
            return Err(invalid_config("producer batch_size cannot exceed max_request_size"));
        }
        if self.linger.nanos > MAX_LINGER_NANOS {
            return Err(invalid_config("producer linger cannot exceed 60 seconds"));
        }
        Ok(())
    }

    /// Whether enough is buffered to send it without waiting.
    #[must_use]
    pub fn should_flush(self, buffered_payload_bytes: usize) -> (flush: bool)
        ensures
            flush == (buffered_payload_bytes >= self.batch_size),
    {
        buffered_payload_bytes >= self.batch_size
    }
}

/// The default settings are valid.
pub proof fn default_tuning_is_valid()
    ensures
        ProducerTuning::spec_default().fault() is None,
        ProducerTuning::tuned(None, None, None) == Ok::<_, ClientFault>(
            ProducerTuning::spec_default(),
        ),
{
}

/// A wait of whole milliseconds.
pub open spec fn millis_linger(millis: nat) -> Duration {
    Duration { nanos: (millis * 1000000) as u128 }
}

impl Default for ProducerTuning {
    fn default() -> (tuning: Self)
        ensures
            tuning == Self::spec_default(),
    {
        ProducerTuning {
            batch_size: 2097152,
            linger: Duration { nanos: 20000000 },
            max_request_size: 4194304,
        }
    }
}

/// How a client reaches the server.
#[derive(Clone, PartialEq, Eq)]
pub struct ClientConfig {
    pub endpoint: String,
    pub request_timeout: Duration,
    pub max_retries: u32,
    pub max_frame_bytes: usize,
    pub producer: ProducerTuning,
    /// Administrative credential used for retention and ordered-log receipt
    /// endpoints. The client sends it through a dedicated header.
    pub admin_token: Option<String>,
}

impl Default for ClientConfig {
    fn default() -> (config: Self)
        ensures
            config.endpoint@ == "http://127.0.0.1:7420"@,
            config.request_timeout == (Duration { nanos: 30000000000 }),
            config.max_retries == 3,
            config.max_frame_bytes == DEFAULT_MAX_FRAME_BYTES,
            config.producer == ProducerTuning::spec_default(),
            config.admin_token is None,
    {
        ClientConfig {
            endpoint: "http://127.0.0.1:7420".to_string(),
            request_timeout: Duration { nanos: 30000000000 },
            max_retries: 3,
            max_frame_bytes: DEFAULT_MAX_FRAME_BYTES,
            producer: ProducerTuning::default(),
            admin_token: None,
        }
    }
}

impl ClientConfig {
    /// The default configuration with the environment's tuning and credential.
    pub fn from_parts(
        tuning: Result<ProducerTuning, ClientError>,
        admin_token: Option<String>,
    ) -> (result: Result<Self, ClientError>)
        ensures
            match (tuning, result) {
                (Err(error), Err(returned)) => returned == error,
                (Ok(producer), Ok(config)) => {
                    &&& config.endpoint@ == "http://127.0.0.1:7420"@
                    &&& config.request_timeout == (Duration { nanos: 30000000000 })
                    &&& config.max_retries == 3
                    &&& config.max_frame_bytes == DEFAULT_MAX_FRAME_BYTES
                    &&& config.producer == producer
                    &&& config.admin_token == admin_token
                },
                _ => false,
            },
    {
        match tuning {
            Err(error) => Err(error),
            Ok(producer) => {
                let mut config = ClientConfig::default();
                config.producer = producer;
                config.admin_token = admin_token;
                Ok(config)
            },
        }
    }

    /// What may be shown of the credential.
    pub fn shown_token(&self) -> (shown: Option<&'static str>)
        ensures
            match (self.admin_token, shown) {
                (Some(_), Some(text)) => text@ == "[redacted]"@,
                (None, None) => true,
                _ => false,
            },
    {
        match self.admin_token {
            Some(_) => Some("[redacted]"),
            None => None,
        }
    }
}

/// The scheme and the normal form of an address, or why it is none.
pub uninterp spec fn parsed_url_of(text: Seq<char>) -> Result<(Seq<char>, Seq<char>), Seq<char>>;

/// The normal form of a relative address under a base, or why there is none.
pub uninterp spec fn joined_url_of(base: Seq<char>, path: Seq<char>) -> Result<
    Seq<char>,
    Seq<char>,
>;

/// The views of a parsed address.
pub open spec fn url_view(parsed: Result<(String, String), String>) -> Result<
    (Seq<char>, Seq<char>),
    Seq<char>,
> {
    match parsed {
        Ok((scheme, address)) => Ok((scheme@, address@)),
        Err(error) => Err(error@),
    }
}

/// Reads an address with `reqwest::Url::parse`: its scheme and its normal form,
/// which depend on the text alone.
#[verifier::external_body]
fn parse_url(text: &str) -> (parsed: Result<(String, String), String>)
    ensures
        url_view(parsed) == parsed_url_of(text@),
{
    match reqwest::Url::parse(text) {
        Ok(url) => Ok((url.scheme().to_string(), url.to_string())),
        Err(error) => Err(error.to_string()),
    }
}

/// Finds a relative address under a base with `reqwest::Url::join`; the normal
/// form depends on the two texts alone.
#[verifier::external_body]
fn join_url(base: &str, path: &str) -> (joined: Result<String, String>)
    ensures
        match joined {
            Ok(address) => joined_url_of(base@, path@) == Ok::<_, Seq<char>>(address@),
            Err(error) => joined_url_of(base@, path@) == Err::<Seq<char>, _>(error@),
        },
{
    match reqwest::Url::parse(base).and_then(|url| url.join(path)) {
        Ok(url) => Ok(url.to_string()),
        Err(error) => Err(error.to_string()),
    }
}

/// A character that may stand in a header's value.
pub open spec fn is_header_char(c: char) -> bool {
    c == '\t' || (c as u32 >= 32 && c as u32 != 127)
}

/// Checks a header's value with `http::HeaderValue::from_str`, which takes every
/// character but the control characters other than the tab.
#[verifier::external_body]
fn check_header(text: &str) -> (result: Result<(), String>)
    ensures
        result is Ok == (forall|i: int| 0 <= i < text@.len() ==> is_header_char(text@[i])),
        result is Err ==> result->Err_0@ == "failed to parse header value"@,
{
    match http::HeaderValue::from_str(text) {
        Ok(_) => Ok(()),
        Err(error) => Err(error.to_string()),
    }
}

/// A text without the slashes at its end.
pub open spec fn trim_end(s: Seq<char>) -> Seq<char> {
    s.take(s.len() - trailing_slashes(s))
}

/// Takes the slashes off the end of a text.
pub fn trim_slashes(text: &str) -> (trimmed: &str)
    ensures
        trimmed@ == trim_end(text@),
{
    let chars = collect_chars(text);
    let mut to: usize = chars.len();
    proof {
        assert(text@.take(to as int) =~= text@);
    }
    while to > 0 && chars[to - 1] == '/'
        invariant
            to <= chars@.len(),
            chars@ == text@,
            trailing_slashes(text@) == text@.len() - to + trailing_slashes(text@.take(to as int)),
        decreases to,
    {
        proof {
            assert(text@.take(to as int).last() == chars@[to - 1]);
            assert(text@.take(to as int).drop_last() =~= text@.take(to - 1));
        }
        to -= 1;
    }
    proof {
        if to > 0 {
            assert(text@.take(to as int).last() == chars@[to - 1]);
        }
        assert(text@.subrange(0, to as int) =~= trim_end(text@));
    }
    text.substring_char(0, to)
}

/// A client of one server.
#[derive(Debug, Clone, PartialEq, Eq)]
pub struct Client {
    pub endpoint: String,
    pub max_retries: u32,
    pub max_frame_bytes: usize,
    pub producer: ProducerTuning,
    pub next_request_id: u64,
}

impl Client {
    /// What is wrong with a configuration whose address was read as `parsed`.
    pub open spec fn fault(
        config: ClientConfig,
        parsed: Result<(Seq<char>, Seq<char>), Seq<char>>,
    ) -> Option<ClientFault> {
        if config.max_frame_bytes == 0 {
            Some(ClientFault::InvalidConfig("max_frame_bytes must be nonzero"@))
        } else if config.producer.fault() is Some {
            config.producer.fault()
        } else {
            match parsed {
                Err(text) => Some(ClientFault::InvalidConfig(text)),
                Ok((scheme, _)) => if scheme != "http"@ && scheme != "https"@ {
                    Some(ClientFault::InvalidConfig("endpoint must use http or https"@))
                } else {
                    match config.admin_token {
                        None => None,
                        Some(token) => if token@.len() == 0 {
                            Some(ClientFault::InvalidConfig("admin_token cannot be empty"@))
                        } else if exists|i: int|
                            0 <= i < token@.len() && !is_header_char(#[trigger] token@[i]) {
                            Some(ClientFault::InvalidConfig("failed to parse header value"@))
                        } else {
                            None
                        },
                    }
                },
            }
        }
    }

    /// A client made from a configuration whose address was read as `parsed`.
    pub open spec fn made_from(
        self,
        config: ClientConfig,
        parsed: Result<(Seq<char>, Seq<char>), Seq<char>>,
    ) -> bool {
        &&& parsed is Ok && self.endpoint@ == parsed->Ok_0.1
        &&& self.max_retries == config.max_retries
        &&& self.max_frame_bytes == config.max_frame_bytes
        &&& self.producer == config.producer
        &&& self.next_request_id == 1
    }

    /// Makes a client.
    pub fn new(config: ClientConfig) -> (result: Result<Self, ClientError>)
        ensures
            ({
                let parsed = parsed_url_of(trim_end(config.endpoint@));
                match (result, Self::fault(config, parsed)) {
                    (Ok(client), None) => client.made_from(config, parsed),
                    (Err(error), Some(fault)) => error@ == fault,
                    _ => false,
                }
            }),
    {
        let parsed = parse_url(trim_slashes(config.endpoint.as_str()));
        Self::with_address(config, parsed)
    }

    /// Makes a client whose address was read as `parsed`.
    pub fn with_address(config: ClientConfig, parsed: Result<(String, String), String>) -> (result:
        Result<Self, ClientError>)
        ensures
            match (result, Self::fault(config, url_view(parsed))) {
                (Ok(client), None) => client.made_from(config, url_view(parsed)),
                (Err(error), Some(fault)) => error@ == fault,
                _ => false,
            },
    {
        if config.max_frame_bytes == 0 {
            return Err(invalid_config("max_frame_bytes must be nonzero"));
        }
        match config.producer.validate() {
            Err(error) => {
                return Err(error);
            },
            Ok(()) => {},
        }
        let (scheme, endpoint) = match parsed {
            Err(text) => {
                return Err(ClientError::InvalidConfig(text));
            },
            Ok(parts) => parts,
        };
        if !same_text(scheme.as_str(), "http") && !same_text(scheme.as_str(), "https") {
            return Err(invalid_config("endpoint must use http or https"));
        }
        match &config.admin_token {
            None => {},
            Some(token) => {
                proof {
                    reveal_strlit("");
                    assert((token@.len() == 0) == (token@ =~= ""@));
                }
                if same_text(token.as_str(), "") {
                    return Err(invalid_config("admin_token cannot be empty"));
                }
                match check_header(token.as_str()) {
                    Err(text) => {
                        return Err(ClientError::InvalidConfig(text));
                    },
                    Ok(()) => {},
                }
            },
        }
        Ok(
            Client {
                endpoint,
                max_retries: config.max_retries,
                max_frame_bytes: config.max_frame_bytes,
                producer: config.producer,
                next_request_id: 1,
            },
        )
    }

    /// Numbers a request; the numbers start over after the last one.
    pub fn next_request_id(&mut self) -> (id: u128)
        ensures
            id == old(self).next_request_id,
            *final(self) == (Client {
                next_request_id: if old(self).next_request_id == u64::MAX {
                    0
                } else {
                    (old(self).next_request_id + 1) as u64
                },
                ..*old(self)
            }),
    {
        let id: u64 = self.next_request_id;
        self.next_request_id = id.wrapping_add(1);
        id as u128
    }

    /// Finds the address of a path on the server.
    pub fn url(&self, path: &str) -> (result: Result<String, ClientError>)
        ensures
            match (result, joined_url_of(self.endpoint@, path@)) {
                (Ok(address), Ok(expected)) => address@ == expected,
                (Err(error), Err(text)) => error@ == ClientFault::InvalidConfig(text),
                _ => false,
            },
    {
        match join_url(self.endpoint.as_str(), path) {
            Ok(address) => Ok(address),
            Err(text) => Err(ClientError::InvalidConfig(text)),
        }
    }

    #[must_use]
    pub fn producer(
        &self,
        topic_id: TopicId,
        partition_id: LogicalPartitionId,
        producer_id: u128,
        epoch: u32,
    ) -> (producer: Producer)
        ensures
            producer == (Producer {
                topic_id,
                partition_id,
                producer_id,
                epoch,
                leader_epoch: None,
                next_sequence: 0,
                tuning: self.producer,
                max_retries: self.max_retries,
                binding: None,
            }),
    {
        Producer {
            topic_id,
            partition_id,
            producer_id,
            epoch,
            leader_epoch: None,
            next_sequence: 0,
            tuning: self.producer,
            max_retries: self.max_retries,
            binding: None,
        }
    }

    #[must_use]
    pub fn consumer(&self, topic_id: TopicId, partition_id: LogicalPartitionId) -> (consumer:
        Consumer)
        ensures
            consumer == (Consumer {
                topic_id,
                partition_id,
                max_retries: self.max_retries,
                binding: None,
            }),
    {
        Consumer { topic_id, partition_id, max_retries: self.max_retries, binding: None }
    }

    #[must_use]
    pub fn logical_consumer(&self, topic_id: TopicId, partition_id: LogicalPartitionId) -> (consumer:
        LogicalConsumer)
        ensures
            consumer == (LogicalConsumer {
                topic_id,
                partition_id,
                max_retries: self.max_retries,
                cursor: None,
                binding: None,
            }),
    {
        LogicalConsumer {
            topic_id,
            partition_id,
            max_retries: self.max_retries,
            cursor: None,
            binding: None,
        }
    }
}

/// The path of something that belongs to a topic.
pub open spec fn topic_path_of(topic_id: TopicId, leaf: Seq<char>) -> Seq<char> {
    "v1/topics/"@ + decimal(topic_id.0 as nat) + "/"@ + leaf
}

/// Writes the path of something that belongs to a topic.
pub fn topic_path(topic_id: TopicId, leaf: &str) -> (path: String)
    ensures
        path@ == topic_path_of(topic_id, leaf@),
{
    let mut path = "v1/topics/".to_string();
    append_decimal(&mut path, topic_id.0);
    path.append("/");
    path.append(leaf);
    path
}

/// The path of something that belongs to a partition.
pub open spec fn partition_path_of(
    topic_id: TopicId,
    partition_id: LogicalPartitionId,
    leaf: Seq<char>,
) -> Seq<char> {
    "v1/topics/"@ + decimal(topic_id.0 as nat) + "/partitions/"@ + decimal(partition_id.0 as nat)
        + "/"@ + leaf
}

/// Writes the path of something that belongs to a partition.
pub fn partition_path(topic_id: TopicId, partition_id: LogicalPartitionId, leaf: &str) -> (path:
    String)
    ensures
        path@ == partition_path_of(topic_id, partition_id, leaf@),
{
    let mut path = "v1/topics/".to_string();
    append_decimal(&mut path, topic_id.0);
    path.append("/partitions/");
    append_decimal(&mut path, partition_id.0 as u128);
    path.append("/");
    path.append(leaf);
    path
}

/// The body of a request for a new topic.
#[derive(Debug, PartialEq, Eq)]
pub struct CreateTopicRequest {
    pub topic_id: String,
    pub partitions: u32,
    pub shards: Option<Vec<u32>>,
}

/// Writes the body of a request for a new topic.
pub fn create_topic_request(
    topic_id: TopicId,
    partitions: u32,
    shards: Option<Vec<ShardId>>,
) -> (request: CreateTopicRequest)
    ensures
        request.topic_id@ == decimal(topic_id.0 as nat),
        request.partitions == partitions,
        match (request.shards, shards) {
            (Some(numbers), Some(ids)) => numbers@ == ids@.map_values(|id: ShardId| id.0),
            (None, None) => true,
            _ => false,
        },
{
    let shards = match shards {
        None => None,
        Some(ids) => {
            let mut numbers: Vec<u32> = Vec::new();
            let mut index: usize = 0;
            while index < ids.len()
                invariant
                    index <= ids@.len(),
                    numbers@ == ids@.take(index as int).map_values(|id: ShardId| id.0),
                decreases ids@.len() - index,
            {
                numbers.push(ids[index].0);
                proof {
                    assert(ids@.take(index + 1).map_values(|id: ShardId| id.0) =~= ids@.take(
                        index as int,
                    ).map_values(|id: ShardId| id.0).push(ids@[index as int].0));
                }
                index += 1;
            }
            proof {
                assert(ids@.take(index as int) =~= ids@);
            }
            Some(numbers)
        },
    };
    CreateTopicRequest { topic_id: decimal_string(topic_id.0), partitions, shards }
}

/// Reads the answer to a request for a topic's binding. `checked` is what the
/// binding's own check said.
pub fn accept_binding(
    binding: LogicalTopicBinding,
    checked: Result<(), String>,
    topic_id: TopicId,
) -> (result: Result<LogicalTopicBinding, ClientError>)
    ensures
        client_agrees(
            result,
            if checked is Err {
                Err(ClientFault::InvalidResponse(checked->Err_0@))
            } else if binding.logical_topic_id == topic_id {
                Ok(binding)
            } else {
                Err(
                    ClientFault::InvalidResponse("topic binding belongs to another logical topic"@),
                )
            },
        ),
{
    if let Err(text) = checked {
        return Err(ClientError::InvalidResponse(text));
    }
    if binding.logical_topic_id != topic_id {
        return Err(invalid_response("topic binding belongs to another logical topic"));
    }
    Ok(binding)
}

/// A partition that a topic does not have.
pub open spec fn binding_fault(binding: LogicalTopicBinding, partition_id: LogicalPartitionId) -> Option<
    ClientFault,
> {
    if partition_id.0 < binding.partitions {
        None
    } else {
        Some(
            ClientFault::InvalidConfig(
                "partition "@ + decimal(partition_id.0 as nat)
                    + " is outside topic partition count "@ + decimal(binding.partitions as nat),
            ),
        )
    }
}

/// Checks that a topic has a partition.
pub fn validate_binding_partition(
    binding: &LogicalTopicBinding,
    partition_id: LogicalPartitionId,
) -> (result: Result<(), ClientError>)
    ensures
        client_agrees(
            result,
            match binding_fault(*binding, partition_id) {
                Some(fault) => Err(fault),
                None => Ok(()),
            },
        ),
{
    if partition_id.0 >= binding.partitions {
        let mut text = "partition ".to_string();
        append_decimal(&mut text, partition_id.0 as u128);
        text.append(" is outside topic partition count ");
        append_decimal(&mut text, binding.partitions as u128);
        return Err(ClientError::InvalidConfig(text));
    }
    Ok(())
}

/// The name of a durability in a query.
pub open spec fn durability_named_as(durability: Durability) -> Seq<char> {
    match durability {
        Durability::Leader => "leader"@,
        Durability::Quorum => "quorum"@,
        Durability::AllReplicas => "all_replicas"@,
        Durability::Object => "object"@,
    }
}

pub fn durability_name(durability: Durability) -> (name: &'static str)
    ensures
        name@ == durability_named_as(durability),
{
    match durability {
        Durability::Leader => "leader",
        Durability::Quorum => "quorum",
        Durability::AllReplicas => "all_replicas",
        Durability::Object => "object",
    }
}

/// The name of a fetch mode in a query.
pub open spec fn mode_named_as(mode: FetchMode) -> Seq<char> {
    match mode {
        FetchMode::Ordered => "ordered"@,
        FetchMode::Replicated => "replicated"@,
        FetchMode::AsAvailable => "as_available"@,
    }
}

pub fn fetch_mode_name(mode: FetchMode) -> (name: &'static str)
    ensures
        name@ == mode_named_as(mode),
{
    match mode {
        FetchMode::Ordered => "ordered",
        FetchMode::Replicated => "replicated",
        FetchMode::AsAvailable => "as_available",
    }
}

/// The views of a query's names and values.
pub open spec fn query_views(query: Seq<(&'static str, String)>) -> Seq<(Seq<char>, Seq<char>)> {
    query.map_values(|pair: (&'static str, String)| (pair.0@, pair.1@))
}

fn put(query: &mut Vec<(&'static str, String)>, name: &'static str, value: String)
    ensures
        query_views(final(query)@) == query_views(old(query)@).push((name@, value@)),
{
    query.push((name, value));
    proof {
        assert(query_views(query@) =~= query_views(old(query)@).push((name@, value@)));
    }
}

/// What one append takes from its producer before it is sent.
#[derive(Debug, Clone, Copy, PartialEq, Eq, Structural)]
pub struct AppendPlan {
    pub first_sequence: u64,
    pub next_sequence: u64,
}

/// How long to wait before an append is sent again.
#[derive(Debug, Clone, Copy, PartialEq, Eq, Structural)]
pub enum Pause {
    Seconds(u64),
    Millis(u64),
}

/// What to do about the answer to an append.
#[derive(Debug, Clone, Copy, PartialEq, Eq, Structural)]
pub enum AppendStep {
    /// The append succeeded.
    Accept,
    /// The topic has moved: read its binding again and send the append again.
    Rebind,
    /// Wait, and send the append again.
    Wait(Pause),
    /// Give the server's failure back.
    Fail,
}

/// What the answer to an append asks for.
pub open spec fn append_step(
    status: u16,
    code: Option<Seq<char>>,
    retry_after: Option<Seq<char>>,
    attempt: u32,
    max_retries: u32,
) -> AppendStep {
    if 200 <= status < 300 {
        AppendStep::Accept
    } else if status == 409 {
        if code == Some("STALE_DATA_GENERATION"@) && attempt < max_retries {
            AppendStep::Rebind
        } else {
            AppendStep::Fail
        }
    } else if (status == 429 || status == 503) && attempt < max_retries {
        AppendStep::Wait(pause_of(retry_after, attempt))
    } else {
        AppendStep::Fail
    }
}

/// The wait that the server asks for, or one that doubles with each attempt.
pub open spec fn pause_of(retry_after: Option<Seq<char>>, attempt: u32) -> Pause {
    match retry_after {
        Some(text) => match parsed_decimal(text, u64::MAX as nat) {
            Some(seconds) => Pause::Seconds(seconds as u64),
            None => Pause::Millis(backoff(attempt)),
        },
        None => Pause::Millis(backoff(attempt)),
    }
}

/// Ten milliseconds, doubled with each of the first ten attempts.
pub open spec fn backoff(attempt: u32) -> u64 {
    (10 * pow2(
        if attempt < 10 {
            attempt as nat
        } else {
            10
        },
    )) as u64
}

fn backoff_millis(attempt: u32) -> (millis: u64)
    ensures
        millis == backoff(attempt),
{
    let doublings: u32 = if attempt < 10 {
        attempt
    } else {
        10
    };
    proof {
        lemma2_to64();
        if doublings < 10 {
            lemma_pow2_strictly_increases(doublings as nat, 10);
        }
        lemma_u64_shl_is_mul(1, doublings as u64);
    }
    10 * (1u64 << doublings)
}

/// The waits double until they stay at the longest one.
pub proof fn backoff_doubles(attempt: u32)
    ensures
        backoff(0) == 10,
        attempt < 10 ==> backoff((attempt + 1) as u32) == 2 * backoff(attempt),
        attempt >= 10 ==> backoff(attempt) == 10240,
{
    lemma2_to64();
    if attempt < 10 {
        vstd::arithmetic::power2::lemma_pow2_unfold((attempt + 1) as nat);
        lemma_pow2_strictly_increases(attempt as nat, 11);
        if attempt < 9 {
            lemma_pow2_strictly_increases((attempt + 1) as nat, 11);
        }
    }
}

fn option_is(value: Option<&str>, text: &str) -> (same: bool)
    ensures
        same == (crate::http_route::text_view(value) == Some(text@)),
{
    match value {
        Some(given) => same_text(given, text),
        None => false,
    }
}

/// Decides what to do about the answer to an append.
pub fn decide_append(
    status: u16,
    code: Option<&str>,
    retry_after: Option<&str>,
    attempt: u32,
    max_retries: u32,
) -> (step: AppendStep)
    ensures
        step == append_step(
            status,
            crate::http_route::text_view(code),
            crate::http_route::text_view(retry_after),
            attempt,
            max_retries,
        ),
{
    if 200 <= status && status < 300 {
        return AppendStep::Accept;
    }
    if status == 409 {
        if option_is(code, "STALE_DATA_GENERATION") && attempt < max_retries {
            return AppendStep::Rebind;
        }
        return AppendStep::Fail;
    }
    if !(status == 429 || status == 503) || attempt >= max_retries {
        return AppendStep::Fail;
    }
    match retry_after {
        Some(text) => match parse_decimal(text, u64::MAX as u128) {
            Some(seconds) => AppendStep::Wait(Pause::Seconds(seconds as u64)),
            None => AppendStep::Wait(Pause::Millis(backoff_millis(attempt))),
        },
        None => AppendStep::Wait(Pause::Millis(backoff_millis(attempt))),
    }
}

/// Whether a fetch is sent again: the topic has moved and attempts are left.
pub fn retry_stale(code: Option<&str>, attempt: u32, max_retries: u32) -> (retry: bool)
    ensures
        retry == (crate::http_route::text_view(code) == Some("STALE_DATA_GENERATION"@) && attempt
            < max_retries),
{
    option_is(code, "STALE_DATA_GENERATION") && attempt < max_retries
}

/// An idempotent producer of one partition.
#[derive(Debug, Clone, Copy, PartialEq, Eq, Structural)]
pub struct Producer {
    pub topic_id: TopicId,
    pub partition_id: LogicalPartitionId,
    pub producer_id: u128,
    pub epoch: u32,
    pub leader_epoch: Option<u64>,
    pub next_sequence: u64,
    pub tuning: ProducerTuning,
    pub max_retries: u32,
    pub binding: Option<LogicalTopicBinding>,
}

impl Producer {
    #[must_use]
    pub fn with_leader_epoch(self, leader_epoch: u64) -> (producer: Self)
        ensures
            producer == (Producer { leader_epoch: Some(leader_epoch), ..self }),
    {
        Producer { leader_epoch: Some(leader_epoch), ..self }
    }

    /// Restores the next producer sequence from durable broker state.
    ///
    /// Callers must use the same producer ID and epoch. The broker still
    /// validates the sequence, so a stale cursor fails closed.
    #[must_use]
    pub fn resume_at(self, next_sequence: u64) -> (producer: Self)
        ensures
            producer == (Producer { next_sequence, ..self }),
    {
        Producer { next_sequence, ..self }
    }

    /// Reissues a known sequence for an idempotent recovery attempt.
    pub fn retry_at(&mut self, first_sequence: u64)
        ensures
            *final(self) == (Producer { next_sequence: first_sequence, ..*old(self) }),
    {
        self.next_sequence = first_sequence;
    }

    #[must_use]
    pub fn tuning(&self) -> (tuning: ProducerTuning)
        ensures
            tuning == self.tuning,
    {
        self.tuning
    }

    /// What one append takes, or why it cannot be sent.
    pub open spec fn planned(self, payload_len: usize, record_count: u32) -> Result<
        AppendPlan,
        ClientFault,
    > {
        if record_count == 0 {
            Err(ClientFault::InvalidConfig("record_count must be nonzero"@))
        } else if payload_len > self.tuning.max_request_size {
            Err(
                ClientFault::InvalidConfig(
                    "append payload has "@ + decimal(payload_len as nat)
                        + " bytes, exceeding producer max_request_size "@ + decimal(
                        self.tuning.max_request_size as nat,
                    ),
                ),
            )
        } else if self.next_sequence + record_count > u64::MAX {
            Err(ClientFault::InvalidConfig("producer sequence exhausted"@))
        } else {
            Ok(
                AppendPlan {
                    first_sequence: self.next_sequence,
                    next_sequence: (self.next_sequence + record_count) as u64,
                },
            )
        }
    }

    /// Checks an append before it is sent and numbers its records.
    pub fn plan_append(&self, payload_len: usize, record_count: u32) -> (result: Result<
        AppendPlan,
        ClientError,
    >)
        ensures
            client_agrees(result, self.planned(payload_len, record_count)),
    {
        if record_count == 0 {
            return Err(invalid_config("record_count must be nonzero"));
        }
        if payload_len > self.tuning.max_request_size {
            let mut text = "append payload has ".to_string();
            append_decimal(&mut text, payload_len as u128);
            text.append(" bytes, exceeding producer max_request_size ");
            append_decimal(&mut text, self.tuning.max_request_size as u128);
            return Err(ClientError::InvalidConfig(text));
        }
        match self.next_sequence.checked_add(record_count as u64) {
            None => Err(invalid_config("producer sequence exhausted")),
            Some(next_sequence) => Ok(
                AppendPlan { first_sequence: self.next_sequence, next_sequence },
            ),
        }
    }

    /// The names and values of an append's query.
    pub open spec fn append_pairs(
        self,
        plan: AppendPlan,
        request_id: u128,
        record_count: u32,
        durability: Durability,
        event_id: RecordId,
        data_generation: u64,
    ) -> Seq<(Seq<char>, Seq<char>)> {
        let pairs = seq![
            ("request_id"@, decimal(request_id as nat)),
            ("record_count"@, decimal(record_count as nat)),
            ("durability"@, durability_named_as(durability)),
            ("producer_id"@, decimal(self.producer_id as nat)),
            ("producer_epoch"@, decimal(self.epoch as nat)),
            ("first_sequence"@, decimal(plan.first_sequence as nat)),
            ("event_id"@, decimal(event_id.0 as nat)),
            ("expected_data_generation"@, decimal(data_generation as nat)),
        ];
        match self.leader_epoch {
            Some(epoch) => pairs.push(("leader_epoch"@, decimal(epoch as nat))),
            None => pairs,
        }
    }

    /// Writes an append's query.
    pub fn append_query(
        &self,
        plan: AppendPlan,
        request_id: u128,
        record_count: u32,
        durability: Durability,
        event_id: RecordId,
        data_generation: u64,
    ) -> (query: Vec<(&'static str, String)>)
        ensures
            query_views(query@) == self.append_pairs(
                plan,
                request_id,
                record_count,
                durability,
                event_id,
                data_generation,
            ),
    {
        let mut query: Vec<(&'static str, String)> = Vec::new();
        proof {
            assert(query_views(query@) =~= Seq::empty());
        }
        put(&mut query, "request_id", decimal_string(request_id));
        put(&mut query, "record_count", decimal_string(record_count as u128));
        put(&mut query, "durability", durability_name(durability).to_string());
        put(&mut query, "producer_id", decimal_string(self.producer_id));
        put(&mut query, "producer_epoch", decimal_string(self.epoch as u128));
        put(&mut query, "first_sequence", decimal_string(plan.first_sequence as u128));
        put(&mut query, "event_id", decimal_string(event_id.0));
        put(
            &mut query,
            "expected_data_generation",
            decimal_string(data_generation as u128),
        );
        let ghost fixed = query_views(query@);
        match self.leader_epoch {
            Some(epoch) => {
                put(&mut query, "leader_epoch", decimal_string(epoch as u128));
            },
            None => {},
        }
        proof {
            assert(query_views(query@) =~= self.append_pairs(
                plan,
                request_id,
                record_count,
                durability,
                event_id,
                data_generation,
            ));
        }
        query
    }

    /// Moves on after an append that the server accepted.
    pub fn accept(&mut self, plan: AppendPlan, binding: LogicalTopicBinding)
        ensures
            *final(self) == (Producer {
                next_sequence: plan.next_sequence,
                binding: Some(binding),
                ..*old(self)
            }),
    {
        self.next_sequence = plan.next_sequence;
        self.binding = Some(binding);
    }

    /// Starts a later epoch of the producer.
    pub fn set_epoch(&mut self, epoch: u32) -> (result: Result<(), ClientError>)
        ensures
            client_agrees(
                result,
                if epoch <= old(self).epoch {
                    Err(ClientFault::InvalidConfig("producer epoch must increase"@))
                } else {
                    Ok(())
                },
            ),
            *final(self) == (if epoch <= old(self).epoch {
                *old(self)
            } else {
                Producer { epoch, next_sequence: 0, ..*old(self) }
            }),
    {
        if epoch <= self.epoch {
            return Err(invalid_config("producer epoch must increase"));
        }
        self.epoch = epoch;
        self.next_sequence = 0;
        Ok(())
    }

    /// The producer's claim on the batch that starts at a sequence, under the
    /// identity of the event.
    #[must_use]
    pub fn identity(&self, first_sequence: u64, event_id: RecordId) -> (identity: ProducerIdentity)
        ensures
            identity == (ProducerIdentity {
                producer_id: self.producer_id,
                epoch: self.epoch,
                first_sequence,
                event_id: Some(event_id),
            }),
    {
        ProducerIdentity {
            producer_id: self.producer_id,
            epoch: self.epoch,
            first_sequence,
            event_id: Some(event_id),
        }
    }
}

/// Appends that the server accepts one after the other number their records
/// without a gap and without overlap.
pub proof fn accepted_appends_are_contiguous(
    before: Producer,
    first_len: usize,
    first_count: u32,
    binding: LogicalTopicBinding,
    after: Producer,
    second_len: usize,
    second_count: u32,
)
    requires
        before.planned(first_len, first_count) is Ok,
        after == (Producer {
            next_sequence: before.planned(first_len, first_count)->Ok_0.next_sequence,
            binding: Some(binding),
            ..before
        }),
        after.planned(second_len, second_count) is Ok,
    ensures
        after.planned(second_len, second_count)->Ok_0.first_sequence == before.planned(
            first_len,
            first_count,
        )->Ok_0.first_sequence + first_count,
{
}

/// The receipt of an append.
#[derive(Debug, Clone, Copy, PartialEq, Eq, Structural)]
pub struct ProducerReceipt {
    pub request_id: u128,
    pub batch_id: BatchId,
    pub record_id: RecordId,
    pub first_offset: LogicalOffset,
    pub last_offset: LogicalOffset,
    pub visible_through: LogicalOffset,
    pub placement: Placement,
}

impl From<AppendResponse> for ProducerReceipt {
    fn from(response: AppendResponse) -> (receipt: Self) {
        ProducerReceipt {
            request_id: response.request_id,
            batch_id: response.batch_id,
            record_id: response.record_id,
            first_offset: response.first_offset,
            last_offset: response.last_offset,
            visible_through: response.visible_through,
            placement: response.placement,
        }
    }
}

impl vstd::std_specs::convert::FromSpecImpl<AppendResponse> for ProducerReceipt {
    open spec fn obeys_from_spec() -> bool {
        true
    }

    open spec fn from_spec(response: AppendResponse) -> Self {
        ProducerReceipt {
            request_id: response.request_id,
            batch_id: response.batch_id,
            record_id: response.record_id,
            first_offset: response.first_offset,
            last_offset: response.last_offset,
            visible_through: response.visible_through,
            placement: response.placement,
        }
    }
}

/// The marks of a partition's log.
#[derive(Debug, Clone, Copy, PartialEq, Eq, Structural)]
pub struct PartitionWatermarks {
    pub log_start: LogicalOffset,
    pub allocated_end: LogicalOffset,
    pub contiguous_log_end: LogicalOffset,
    pub replicated_high_watermark: LogicalOffset,
    pub last_stable_offset: LogicalOffset,
}

/// A number of at most 128 bits in an answer.
pub open spec fn response_u128(field: Seq<char>, value: Seq<char>) -> Result<u128, ClientFault> {
    match parsed_decimal(value, u128::MAX as nat) {
        Some(number) => Ok(number as u128),
        None => Err(
            ClientFault::InvalidResponse(field + " is not an unsigned 128-bit integer"@),
        ),
    }
}

pub fn parse_response_u128(field: &str, value: &str) -> (result: Result<u128, ClientError>)
    ensures
        client_agrees(result, response_u128(field@, value@)),
{
    match parse_decimal(value, u128::MAX) {
        Some(number) => Ok(number),
        None => Err(
            ClientError::InvalidResponse(
                prefixed(field, " is not an unsigned 128-bit integer"),
            ),
        ),
    }
}

/// A number of at most 64 bits in an answer.
pub open spec fn response_u64(field: Seq<char>, value: Seq<char>) -> Result<u64, ClientFault> {
    match parsed_decimal(value, u64::MAX as nat) {
        Some(number) => Ok(number as u64),
        None => Err(
            ClientFault::InvalidResponse(field + " is not a valid unsigned 64-bit integer"@),
        ),
    }
}

pub fn parse_response_u64(field: &str, value: &str) -> (result: Result<u64, ClientError>)
    ensures
        client_agrees(result, response_u64(field@, value@)),
{
    match parse_decimal(value, u64::MAX as u128) {
        Some(number) => Ok(number as u64),
        None => Err(
            ClientError::InvalidResponse(
                prefixed(field, " is not a valid unsigned 64-bit integer"),
            ),
        ),
    }
}

/// The marks of a partition's log in an answer.
#[derive(Debug, PartialEq, Eq)]
pub struct WatermarksResponse {
    pub log_start: String,
    pub allocated_end: String,
    pub contiguous_log_end: String,
    pub replicated_high_watermark: String,
    pub last_stable_offset: String,
}

/// The marks that an answer holds.
pub open spec fn received_watermarks(response: WatermarksResponse) -> Result<
    PartitionWatermarks,
    ClientFault,
> {
    match response_u64("log_start"@, response.log_start@) {
        Err(fault) => Err(fault),
        Ok(log_start) => match response_u64("allocated_end"@, response.allocated_end@) {
            Err(fault) => Err(fault),
            Ok(allocated_end) => match response_u64(
                "contiguous_log_end"@,
                response.contiguous_log_end@,
            ) {
                Err(fault) => Err(fault),
                Ok(contiguous_log_end) => match response_u64(
                    "replicated_high_watermark"@,
                    response.replicated_high_watermark@,
                ) {
                    Err(fault) => Err(fault),
                    Ok(replicated_high_watermark) => match response_u64(
                        "last_stable_offset"@,
                        response.last_stable_offset@,
                    ) {
                        Err(fault) => Err(fault),
                        Ok(last_stable_offset) => Ok(
                            PartitionWatermarks {
                                log_start: LogicalOffset(log_start),
                                allocated_end: LogicalOffset(allocated_end),
                                contiguous_log_end: LogicalOffset(contiguous_log_end),
                                replicated_high_watermark: LogicalOffset(
                                    replicated_high_watermark,
                                ),
                                last_stable_offset: LogicalOffset(last_stable_offset),
                            },
                        ),
                    },
                },
            },
        },
    }
}

impl PartitionWatermarks {
    /// Reads the marks that an answer holds.
    pub fn try_from(response: WatermarksResponse) -> (result: Result<Self, ClientError>)
        ensures
            client_agrees(result, received_watermarks(response)),
    {
        let log_start: u64 = match parse_response_u64("log_start", response.log_start.as_str()) {
            Err(error) => {
                return Err(error);
            },
            Ok(value) => value,
        };
        let allocated_end: u64 = match parse_response_u64(
            "allocated_end",
            response.allocated_end.as_str(),
        ) {
            Err(error) => {
                return Err(error);
            },
            Ok(value) => value,
        };
        let contiguous_log_end: u64 = match parse_response_u64(
            "contiguous_log_end",
            response.contiguous_log_end.as_str(),
        ) {
            Err(error) => {
                return Err(error);
            },
            Ok(value) => value,
        };
        let replicated_high_watermark: u64 = match parse_response_u64(
            "replicated_high_watermark",
            response.replicated_high_watermark.as_str(),
        ) {
            Err(error) => {
                return Err(error);
            },
            Ok(value) => value,
        };
        let last_stable_offset: u64 = match parse_response_u64(
            "last_stable_offset",
            response.last_stable_offset.as_str(),
        ) {
            Err(error) => {
                return Err(error);
            },
            Ok(value) => value,
        };
        Ok(
            PartitionWatermarks {
                log_start: LogicalOffset(log_start),
                allocated_end: LogicalOffset(allocated_end),
                contiguous_log_end: LogicalOffset(contiguous_log_end),
                replicated_high_watermark: LogicalOffset(replicated_high_watermark),
                last_stable_offset: LogicalOffset(last_stable_offset),
            },
        )
    }
}

/// The receipt of an append in an answer.
#[derive(Debug, PartialEq, Eq)]
pub struct AppendResponseBody {
    pub request_id: String,
    pub batch_id: String,
    pub record_id: String,
    pub first_offset: String,
    pub last_offset: String,
    pub visible_through: String,
    pub shard_id: u32,
    pub ring_epoch: u64,
    pub leader_epoch: u64,
    pub placement_sequence: String,
}

/// What is wrong with an answer's receipt: its first field that is no number.
pub open spec fn receipt_fault(response: AppendResponseBody) -> Option<ClientFault> {
    if response_u128("request_id"@, response.request_id@) is Err {
        Some(response_u128("request_id"@, response.request_id@)->Err_0)
    } else if response_u128("batch_id"@, response.batch_id@) is Err {
        Some(response_u128("batch_id"@, response.batch_id@)->Err_0)
    } else if response_u128("record_id"@, response.record_id@) is Err {
        Some(response_u128("record_id"@, response.record_id@)->Err_0)
    } else if response_u64("first_offset"@, response.first_offset@) is Err {
        Some(response_u64("first_offset"@, response.first_offset@)->Err_0)
    } else if response_u64("last_offset"@, response.last_offset@) is Err {
        Some(response_u64("last_offset"@, response.last_offset@)->Err_0)
    } else if response_u64("visible_through"@, response.visible_through@) is Err {
        Some(response_u64("visible_through"@, response.visible_through@)->Err_0)
    } else if response_u64("placement_sequence"@, response.placement_sequence@) is Err {
        Some(response_u64("placement_sequence"@, response.placement_sequence@)->Err_0)
    } else {
        None
    }
}

/// The receipt that an answer holds.
pub open spec fn received_receipt(response: AppendResponseBody) -> ProducerReceipt {
    ProducerReceipt {
        request_id: response_u128("request_id"@, response.request_id@)->Ok_0,
        batch_id: BatchId(response_u128("batch_id"@, response.batch_id@)->Ok_0),
        record_id: RecordId(response_u128("record_id"@, response.record_id@)->Ok_0),
        first_offset: LogicalOffset(response_u64("first_offset"@, response.first_offset@)->Ok_0),
        last_offset: LogicalOffset(response_u64("last_offset"@, response.last_offset@)->Ok_0),
        visible_through: LogicalOffset(
            response_u64("visible_through"@, response.visible_through@)->Ok_0,
        ),
        placement: Placement {
            virtual_lane_id: ShardId(response.shard_id),
            ring_epoch: RingEpoch(response.ring_epoch),
            leader_epoch: LeaderEpoch(response.leader_epoch),
            sequence: PlacementSequence(
                response_u64("placement_sequence"@, response.placement_sequence@)->Ok_0,
            ),
        },
    }
}

impl ProducerReceipt {
    /// Reads the receipt that an answer holds.
    pub fn try_from(response: AppendResponseBody) -> (result: Result<Self, ClientError>)
        ensures
            client_agrees(
                result,
                match receipt_fault(response) {
                    Some(fault) => Err(fault),
                    None => Ok(received_receipt(response)),
                },
            ),
    {
        let request_id: u128 = match parse_response_u128(
            "request_id",
            response.request_id.as_str(),
        ) {
            Err(error) => {
                return Err(error);
            },
            Ok(value) => value,
        };
        let batch_id: u128 = match parse_response_u128("batch_id", response.batch_id.as_str()) {
            Err(error) => {
                return Err(error);
            },
            Ok(value) => value,
        };
        let record_id: u128 = match parse_response_u128("record_id", response.record_id.as_str()) {
            Err(error) => {
                return Err(error);
            },
            Ok(value) => value,
        };
        let first_offset: u64 = match parse_response_u64(
            "first_offset",
            response.first_offset.as_str(),
        ) {
            Err(error) => {
                return Err(error);
            },
            Ok(value) => value,
        };
        let last_offset: u64 = match parse_response_u64(
            "last_offset",
            response.last_offset.as_str(),
        ) {
            Err(error) => {
                return Err(error);
            },
            Ok(value) => value,
        };
        let visible_through: u64 = match parse_response_u64(
            "visible_through",
            response.visible_through.as_str(),
        ) {
            Err(error) => {
                return Err(error);
            },
            Ok(value) => value,
        };
        let sequence: u64 = match parse_response_u64(
            "placement_sequence",
            response.placement_sequence.as_str(),
        ) {
            Err(error) => {
                return Err(error);
            },
            Ok(value) => value,
        };
        Ok(
            ProducerReceipt {
                request_id,
                batch_id: BatchId(batch_id),
                record_id: RecordId(record_id),
                first_offset: LogicalOffset(first_offset),
                last_offset: LogicalOffset(last_offset),
                visible_through: LogicalOffset(visible_through),
                placement: Placement {
                    virtual_lane_id: ShardId(response.shard_id),
                    ring_epoch: RingEpoch(response.ring_epoch),
                    leader_epoch: LeaderEpoch(response.leader_epoch),
                    sequence: PlacementSequence(sequence),
                },
            },
        )
    }
}

/// The body of an answer that reports a failure.
#[derive(Debug, PartialEq, Eq)]
pub struct ProblemBody {
    pub code: String,
    pub message: String,
    pub retryable: bool,
}

/// Reads the answer to a request that failed.
pub fn api_error(status: u16, body: Result<ProblemBody, String>) -> (error: ClientError)
    ensures
        error@ == failed_with(status, shown_status(status_text_of(status), status), body),
{
    let shown = show_status(status_text(status), status);
    api_error_shown(status, shown.as_str(), body)
}

/// The failure that an answer reports, where its status is shown as `shown`.
pub open spec fn failed_with(
    status: u16,
    shown: Seq<char>,
    body: Result<ProblemBody, String>,
) -> ClientFault {
    match body {
        Ok(problem) => ClientFault::Api {
            status,
            code: problem.code@,
            message: problem.message@,
            retryable: problem.retryable,
        },
        Err(text) => ClientFault::InvalidResponse(
            "server returned "@ + shown + " with an unreadable error body: "@ + text@,
        ),
    }
}

/// Reads the answer to a request that failed; `shown` is how its status is shown.
pub fn api_error_shown(status: u16, shown: &str, body: Result<ProblemBody, String>) -> (error:
    ClientError)
    ensures
        error@ == failed_with(status, shown@, body),
{
    match body {
        Ok(problem) => ClientError::Api {
            status,
            code: problem.code,
            message: problem.message,
            retryable: problem.retryable,
        },
        Err(text) => {
            let mut message = prefixed("server returned ", shown);
            message.append(" with an unreadable error body: ");
            message.append(text.as_str());
            ClientError::InvalidResponse(message)
        },
    }
}

/// A topic that a consumer by offset cannot read.
pub open spec fn offset_fetch_fault(binding: LogicalTopicBinding, partition_id: LogicalPartitionId) -> Option<
    ClientFault,
> {
    if binding_fault(binding, partition_id) is Some {
        binding_fault(binding, partition_id)
    } else if binding.mode != TopicHaMode::ActivePassive || binding.data_generation != 1 {
        Some(ClientFault::SdkUpgradeRequired(binding))
    } else {
        None
    }
}

/// A consumer of one partition by offset.
#[derive(Debug, Clone, Copy, PartialEq, Eq, Structural)]
pub struct Consumer {
    pub topic_id: TopicId,
    pub partition_id: LogicalPartitionId,
    pub max_retries: u32,
    pub binding: Option<LogicalTopicBinding>,
}

fn check_max_bytes(max_bytes: u32) -> (result: Result<(), ClientError>)
    ensures
        client_agrees(
            result,
            if max_bytes == 0 {
                Err(ClientFault::InvalidConfig("max_bytes must be nonzero"@))
            } else {
                Ok(())
            },
        ),
{
    if max_bytes == 0 {
        return Err(invalid_config("max_bytes must be nonzero"));
    }
    Ok(())
}

impl Consumer {
    /// Checks a fetch before it is sent.
    pub fn plan_fetch(&self, max_bytes: u32) -> (result: Result<(), ClientError>)
        ensures
            client_agrees(
                result,
                if max_bytes == 0 {
                    Err(ClientFault::InvalidConfig("max_bytes must be nonzero"@))
                } else {
                    Ok(())
                },
            ),
    {
        check_max_bytes(max_bytes)
    }

    /// Checks that a topic can be read by offset.
    pub fn check_binding(&self, binding: &LogicalTopicBinding) -> (result: Result<(), ClientError>)
        ensures
            client_agrees(
                result,
                match offset_fetch_fault(*binding, self.partition_id) {
                    Some(fault) => Err(fault),
                    None => Ok(()),
                },
            ),
    {
        match validate_binding_partition(binding, self.partition_id) {
            Err(error) => {
                return Err(error);
            },
            Ok(()) => {},
        }
        if binding.mode != TopicHaMode::ActivePassive || binding.data_generation != 1 {
            return Err(ClientError::SdkUpgradeRequired(*binding));
        }
        Ok(())
    }

    /// The names and values of a fetch's query.
    pub open spec fn fetch_pairs(
        start_offset: LogicalOffset,
        max_bytes: u32,
        mode: FetchMode,
        request_id: u128,
        data_generation: u64,
    ) -> Seq<(Seq<char>, Seq<char>)> {
        seq![
            ("offset"@, decimal(start_offset.0 as nat)),
            ("max_bytes"@, decimal(max_bytes as nat)),
            ("mode"@, mode_named_as(mode)),
            ("request_id"@, decimal(request_id as nat)),
            ("expected_data_generation"@, decimal(data_generation as nat)),
        ]
    }

    /// Writes a fetch's query.
    pub fn fetch_query(
        start_offset: LogicalOffset,
        max_bytes: u32,
        mode: FetchMode,
        request_id: u128,
        data_generation: u64,
    ) -> (query: Vec<(&'static str, String)>)
        ensures
            query_views(query@) == Self::fetch_pairs(
                start_offset,
                max_bytes,
                mode,
                request_id,
                data_generation,
            ),
    {
        let mut query: Vec<(&'static str, String)> = Vec::new();
        proof {
            assert(query_views(query@) =~= Seq::empty());
        }
        put(&mut query, "offset", decimal_string(start_offset.0 as u128));
        put(&mut query, "max_bytes", decimal_string(max_bytes as u128));
        put(&mut query, "mode", fetch_mode_name(mode).to_string());
        put(&mut query, "request_id", decimal_string(request_id));
        put(
            &mut query,
            "expected_data_generation",
            decimal_string(data_generation as u128),
        );
        proof {
            assert(query_views(query@) =~= Self::fetch_pairs(
                start_offset,
                max_bytes,
                mode,
                request_id,
                data_generation,
            ));
        }
        query
    }

    /// Keeps the binding of a fetch that the server answered.
    pub fn accept(&mut self, binding: LogicalTopicBinding)
        ensures
            *final(self) == (Consumer { binding: Some(binding), ..*old(self) }),
    {
        self.binding = Some(binding);
    }
}

/// A place in a logical topic.
#[derive(Debug, PartialEq, Eq)]
pub struct LogicalTopicCursor {
    pub topic_partition: TopicPartition,
    pub data_generation: u64,
    /// The text by which it is sent, or why it has none.
    pub encoded: Result<String, String>,
}

/// A consumer of one partition by cursor.
#[derive(Debug, PartialEq, Eq)]
pub struct LogicalConsumer {
    pub topic_id: TopicId,
    pub partition_id: LogicalPartitionId,
    pub max_retries: u32,
    pub cursor: Option<LogicalTopicCursor>,
    pub binding: Option<LogicalTopicBinding>,
}

impl LogicalConsumer {
    /// Checks a fetch before it is sent.
    pub fn plan_fetch(&self, max_bytes: u32, mode: FetchMode) -> (result: Result<(), ClientError>)
        ensures
            client_agrees(
                result,
                if max_bytes == 0 {
                    Err(ClientFault::InvalidConfig("max_bytes must be nonzero"@))
                } else if mode == FetchMode::AsAvailable {
                    Err(
                        ClientFault::InvalidConfig(
                            "logical cursor fetch requires a contiguous ordered or replicated mode"@,
                        ),
                    )
                } else {
                    Ok(())
                },
            ),
    {
        match check_max_bytes(max_bytes) {
            Err(error) => {
                return Err(error);
            },
            Ok(()) => {},
        }
        if mode == FetchMode::AsAvailable {
            return Err(
                invalid_config(
                    "logical cursor fetch requires a contiguous ordered or replicated mode",
                ),
            );
        }
        Ok(())
    }

    /// Checks the cursor that the server gives a new consumer. `checked` is what the
    /// cursor's own check said.
    pub fn accept_initial(&self, cursor: LogicalTopicCursor, checked: Result<(), String>) -> (result:
        Result<LogicalTopicCursor, ClientError>)
        ensures
            client_agrees(
                result,
                if checked is Err {
                    Err(ClientFault::Cursor(checked->Err_0@))
                } else if cursor.topic_partition.topic_id == self.topic_id
                    && cursor.topic_partition.partition_id == self.partition_id {
                    Ok(cursor)
                } else {
                    Err(
                        ClientFault::InvalidResponse(
                            "initial cursor belongs to another topic partition"@,
                        ),
                    )
                },
            ),
    {
        if let Err(text) = checked {
            return Err(ClientError::Cursor(text));
        }
        if cursor.topic_partition.topic_id != self.topic_id || cursor.topic_partition.partition_id
            != self.partition_id {
            return Err(invalid_response("initial cursor belongs to another topic partition"));
        }
        Ok(cursor)
    }

    /// The names and values of the query of a fetch at a cursor that is sent as `encoded`.
    pub open spec fn fetch_pairs(
        cursor: LogicalTopicCursor,
        encoded: Seq<char>,
        max_bytes: u32,
        mode: FetchMode,
        request_id: u128,
    ) -> Seq<(Seq<char>, Seq<char>)> {
        seq![
            ("cursor"@, encoded),
            ("max_bytes"@, decimal(max_bytes as nat)),
            ("mode"@, mode_named_as(mode)),
            ("request_id"@, decimal(request_id as nat)),
            ("expected_data_generation"@, decimal(cursor.data_generation as nat)),
        ]
    }

    /// Writes a fetch's query; a cursor without a text cannot be sent.
    pub fn fetch_query(
        cursor: &LogicalTopicCursor,
        max_bytes: u32,
        mode: FetchMode,
        request_id: u128,
    ) -> (result: Result<Vec<(&'static str, String)>, ClientError>)
        ensures
            match (cursor.encoded, result) {
                (Ok(encoded), Ok(query)) => query_views(query@) == Self::fetch_pairs(
                    *cursor,
                    encoded@,
                    max_bytes,
                    mode,
                    request_id,
                ),
                (Err(text), Err(error)) => error@ == ClientFault::Cursor(text@),
                _ => false,
            },
    {
        let encoded: String = match &cursor.encoded {
            Err(text) => {
                return Err(ClientError::Cursor(text.clone()));
            },
            Ok(encoded) => encoded.clone(),
        };
        let ghost sent = encoded@;
        let mut query: Vec<(&'static str, String)> = Vec::new();
        proof {
            assert(query_views(query@) =~= Seq::empty());
        }
        put(&mut query, "cursor", encoded);
        put(&mut query, "max_bytes", decimal_string(max_bytes as u128));
        put(&mut query, "mode", fetch_mode_name(mode).to_string());
        put(&mut query, "request_id", decimal_string(request_id));
        put(
            &mut query,
            "expected_data_generation",
            decimal_string(cursor.data_generation as u128),
        );
        proof {
            assert(query_views(query@) =~= Self::fetch_pairs(
                *cursor,
                sent,
                max_bytes,
                mode,
                request_id,
            ));
        }
        Ok(query)
    }

    /// Takes up the cursor of an answered fetch, as it was read from the answer: it
    /// must be there, be readable and stay in the partition of the cursor that was sent.
    pub fn accept(
        &mut self,
        sent: &LogicalTopicCursor,
        next: Option<Result<LogicalTopicCursor, String>>,
        binding: LogicalTopicBinding,
    ) -> (result: Result<(), ClientError>)
        ensures
            match next {
                None => result is Err && result->Err_0@ == ClientFault::InvalidResponse(
                    "logical fetch response omitted its next cursor"@,
                ) && *final(self) == *old(self),
                Some(Err(text)) => result is Err && result->Err_0@ == ClientFault::Cursor(text@)
                    && *final(self) == *old(self),
                Some(Ok(cursor)) => if cursor.topic_partition == sent.topic_partition {
                    result is Ok && *final(self) == (LogicalConsumer {
                        cursor: Some(cursor),
                        binding: Some(binding),
                        ..*old(self)
                    })
                } else {
                    result is Err && result->Err_0@ == ClientFault::InvalidResponse(
                        "logical fetch returned a cursor for another partition"@,
                    ) && *final(self) == *old(self)
                },
            },
    {
        match next {
            None => Err(invalid_response("logical fetch response omitted its next cursor")),
            Some(Err(text)) => Err(ClientError::Cursor(text)),
            Some(Ok(cursor)) => {
                if cursor.topic_partition != sent.topic_partition {
                    return Err(
                        invalid_response("logical fetch returned a cursor for another partition"),
                    );
                }
                self.cursor = Some(cursor);
                self.binding = Some(binding);
                Ok(())
            },
        }
    }

    /// Moves the consumer to a cursor of its own partition. `checked` is what the
    /// cursor's own check said.
    pub fn set_cursor(&mut self, cursor: LogicalTopicCursor, checked: Result<(), String>) -> (result:
        Result<(), ClientError>)
        ensures
            if cursor.topic_partition.topic_id != old(self).topic_id
                || cursor.topic_partition.partition_id != old(self).partition_id {
                result is Err && result->Err_0@ == ClientFault::InvalidConfig(
                    "logical cursor belongs to another consumer"@,
                ) && *final(self) == *old(self)
            } else {
                match checked {
                    Err(text) => result is Err && result->Err_0@ == ClientFault::Cursor(text@)
                        && *final(self) == *old(self),
                    Ok(()) => result is Ok && *final(self) == (LogicalConsumer {
                        cursor: Some(cursor),
                        ..*old(self)
                    }),
                }
            },
    {
        if cursor.topic_partition.topic_id != self.topic_id || cursor.topic_partition.partition_id
            != self.partition_id {
            return Err(invalid_config("logical cursor belongs to another consumer"));
        }
        if let Err(text) = checked {
            return Err(ClientError::Cursor(text));
        }
        self.cursor = Some(cursor);
        Ok(())
    }

    /// Where the consumer is.
    pub fn cursor(&self) -> (cursor: Option<&LogicalTopicCursor>)
        ensures
            match (cursor, self.cursor) {
                (Some(given), Some(kept)) => *given == kept,
                (None, None) => true,
                _ => false,
            },
    {
        match &self.cursor {
            Some(cursor) => Some(cursor),
            None => None,
        }
    }
}

} // verus!
