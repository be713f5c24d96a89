//! The metadata that authenticates and traces each outgoing call, and the
//! service endpoints.
use vstd::prelude::*;

use crate::error::{MetadataHeader, SdkError};

verus! {

/// The client's name, sent with every request.
pub const APP_NAME: &'static str = "artemevsevev.t-invest-sdk";

/// The service to connect to.
#[derive(Clone, Copy, Debug, PartialEq, Eq, Structural)]
pub enum Environment {
    /// The live service, with real accounts and data.
    Production,
    /// The test service that imitates the live one.
    Sandbox,
}

impl Environment {
    /// The base URL of the service.
    pub fn api_url(&self) -> (r: &'static str)
        ensures
            *self == Environment::Production ==> r@ == "https://invest-public-api.tinkoff.ru:443/"@,
            *self == Environment::Sandbox ==> r@
                == "https://sandbox-invest-public-api.tinkoff.ru:443/"@,
    {
        match self {
            Environment::Production => "https://invest-public-api.tinkoff.ru:443/",
            Environment::Sandbox => "https://sandbox-invest-public-api.tinkoff.ru:443/",
        }
    }
}

/// A char the transport carries in a metadata value: a tab, or any char from
/// the space upward but DEL.
pub open spec fn metadata_char(c: char) -> bool {
    c == '\t' || (c as u32 >= 32 && c as u32 != 127)
}

/// Every char of `s` can stand in a metadata value.
pub open spec fn metadata_value_valid(s: Seq<char>) -> bool {
    forall|i: int| 0 <= i < s.len() ==> metadata_char(#[trigger] s[i])
}

/// Relies on tonic's `MetadataValue::<Ascii>::from_str`, which accepts a string
/// exactly when http's `HeaderValue::from_str` does: when each of its bytes is a
/// tab, or at least 32 and not 127 (so every byte of a non-ASCII char passes).
#[verifier::external_body]
fn is_valid_metadata_value(s: &str) -> (r: bool)
    ensures
        r == metadata_value_valid(s@),
{
    s.parse::<tonic::metadata::MetadataValue<tonic::metadata::Ascii>>().is_ok()
}

/// A lowercase hexadecimal digit.
pub open spec fn lower_hex_digit(c: char) -> bool {
    ('0' <= c && c <= '9') || ('a' <= c && c <= 'f')
}

/// The hyphenated text of a UUID: 36 chars, hyphens at 8, 13, 18 and 23, and
/// lowercase hexadecimal digits elsewhere.
pub open spec fn hyphenated_uuid(s: Seq<char>) -> bool {
    &&& s.len() == 36
    &&& forall|i: int|
        0 <= i < 36 ==> if i == 8 || i == 13 || i == 18 || i == 23 {
            #[trigger] s[i] == '-'
        } else {
            lower_hex_digit(s[i])
        }
}

/// Relies on uuid's `Uuid::new_v4`, a fresh random identifier, and on its
/// `to_string`, the lowercase hyphenated text.
#[verifier::external_body]
fn new_tracking_id() -> (r: String)
    ensures
        hyphenated_uuid(r@),
{
    uuid::Uuid::new_v4().to_string()
}

/// One metadata entry of an outgoing request.
#[derive(Clone, Debug, PartialEq, Eq)]
pub struct MetadataEntry {
    pub key: String,
    pub value: String,
}

/// The value of the `authorization` entry for `token`.
pub open spec fn authorization_value(token: Seq<char>) -> Seq<char> {
    "bearer "@ + token
}

/// `entries` are the three that a call carries: `authorization` with the
/// token, `x-tracking-id` with the tracking id, `x-app-name` with the client's
/// name, in that order.
pub open spec fn stamped(
    entries: Seq<MetadataEntry>,
    token: Seq<char>,
    tracking_id: Seq<char>,
) -> bool {
    &&& entries.len() == 3
    &&& entries[0].key@ == "authorization"@
    &&& entries[0].value@ == authorization_value(token)
    &&& entries[1].key@ == "x-tracking-id"@
    &&& entries[1].value@ == tracking_id
    &&& entries[2].key@ == "x-app-name"@
    &&& entries[2].value@ == APP_NAME@
}

/// The first entry, in the order `authorization`, `x-tracking-id`,
/// `x-app-name`, whose value cannot be encoded.
pub open spec fn first_invalid_header(token: Seq<char>, tracking_id: Seq<char>) -> Option<
    MetadataHeader,
> {
    if !metadata_value_valid(authorization_value(token)) {
        Some(MetadataHeader::Authorization)
    } else if !metadata_value_valid(tracking_id) {
        Some(MetadataHeader::TrackingId)
    } else if !metadata_value_valid(APP_NAME@) {
        Some(MetadataHeader::AppName)
    } else {
        None
    }
}

fn entry(key: &str, value: String) -> (r: MetadataEntry)
    ensures
        r.key@ == key@,
        r.value@ == value@,
{
    MetadataEntry { key: String::from_str(key), value }
}

/// Stamps each outgoing request with its authentication and tracing metadata.
#[derive(Clone, Debug)]
pub struct TInvestInterceptor {
    pub token: String,
}

impl TInvestInterceptor {
    /// An interceptor that authenticates with `token`.
    pub fn new(token: &str) -> (r: TInvestInterceptor)
        ensures
            r.token@ == token@,
    {
        TInvestInterceptor { token: String::from_str(token) }
    }

    /// The metadata for a call traced by `tracking_id`; fails, before anything
    /// is sent, on the first value that cannot be encoded.
    pub fn request_metadata_with_tracking_id(&self, tracking_id: &str) -> (r: Result<
        Vec<MetadataEntry>,
        SdkError,
    >)
        ensures
            match first_invalid_header(self.token@, tracking_id@) {
                None => r matches Ok(v) && stamped(v@, self.token@, tracking_id@),
                Some(header) => r == Err::<Vec<MetadataEntry>, SdkError>(
                    SdkError::InvalidMetadata { header },
                ),
            },
    {
        let mut authorization = String::from_str("bearer ");
        authorization.append(self.token.as_str());
        if !is_valid_metadata_value(authorization.as_str()) {
            return Err(SdkError::InvalidMetadata { header: MetadataHeader::Authorization });
        }
        if !is_valid_metadata_value(tracking_id) {
            return Err(SdkError::InvalidMetadata { header: MetadataHeader::TrackingId });
        }
        if !is_valid_metadata_value(APP_NAME) {
            return Err(SdkError::InvalidMetadata { header: MetadataHeader::AppName });
        }
        let mut entries: Vec<MetadataEntry> = Vec::new();
        entries.push(entry("authorization", authorization));
        entries.push(entry("x-tracking-id", String::from_str(tracking_id)));
        entries.push(entry("x-app-name", String::from_str(APP_NAME)));
        Ok(entries)
    }

    /// The metadata for one call, traced by a fresh random identifier; fails,
    /// before anything is sent, only where the token makes an authorization
    /// value that cannot be encoded.
    pub fn request_metadata(&self) -> (r: Result<Vec<MetadataEntry>, SdkError>)
        ensures
            metadata_value_valid(authorization_value(self.token@)) ==> (r matches Ok(v) && stamped(
                v@,
                self.token@,
                v@[1].value@,
            ) && hyphenated_uuid(v@[1].value@)),
            !metadata_value_valid(authorization_value(self.token@)) ==> r == Err::<
                Vec<MetadataEntry>,
                SdkError,
            >(SdkError::InvalidMetadata { header: MetadataHeader::Authorization }),
    {
        let tracking_id = new_tracking_id();
        proof {
            lemma_uuid_is_valid_metadata(tracking_id@);
            lemma_app_name_is_valid_metadata();
        }
        self.request_metadata_with_tracking_id(tracking_id.as_str())
    }
}

proof fn lemma_uuid_is_valid_metadata(s: Seq<char>)
    requires
        hyphenated_uuid(s),
    ensures
        metadata_value_valid(s),
{
    assert forall|i: int| 0 <= i < s.len() implies metadata_char(#[trigger] s[i]) by {
        if i == 8 || i == 13 || i == 18 || i == 23 {
            assert(s[i] == '-');
        } else {
            assert(lower_hex_digit(s[i]));
        }
    }
}

proof fn lemma_app_name_is_valid_metadata()
    ensures
        metadata_value_valid(APP_NAME@),
{
    reveal_strlit("artemevsevev.t-invest-sdk");
}

/// Every call carries exactly one `authorization`, one `x-tracking-id` and one
/// `x-app-name` entry.
pub proof fn lemma_one_entry_per_header(
    entries: Seq<MetadataEntry>,
    token: Seq<char>,
    tracking_id: Seq<char>,
)
    requires
        stamped(entries, token, tracking_id),
    ensures
        forall|i: int|
            0 <= i < entries.len() && #[trigger] entries[i].key@ == "authorization"@ ==> i == 0,
        forall|i: int|
            0 <= i < entries.len() && #[trigger] entries[i].key@ == "x-tracking-id"@ ==> i == 1,
        forall|i: int|
            0 <= i < entries.len() && #[trigger] entries[i].key@ == "x-app-name"@ ==> i == 2,
{
    reveal_strlit("authorization");
    reveal_strlit("x-tracking-id");
    reveal_strlit("x-app-name");
    assert("authorization"@[0] != "x-tracking-id"@[0]);
    assert("authorization"@[0] != "x-app-name"@[0]);
    assert("x-tracking-id"@[2] != "x-app-name"@[2]);
}

} // verus!
