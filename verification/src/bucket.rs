//! Utilities for working with S3.

use s3::creds::error::CredentialsError;
use s3::creds::Credentials;
use s3::error::S3Error;
use s3::Bucket;
use s3::Region;
use vstd::prelude::*;

use crate::config::Config;

verus! {

/// `s3::Bucket`, a handle on one bucket.
#[verifier::external_type_specification]
#[verifier::external_body]
pub struct ExBucket(Bucket);

/// `s3::Region`, where a bucket lives.
#[verifier::external_type_specification]
#[verifier::external_body]
pub struct ExRegion(Region);

/// `s3::creds::Credentials`, the keys a bucket signs its requests with.
#[verifier::external_type_specification]
#[verifier::external_body]
pub struct ExCredentials(Credentials);

/// `s3::error::S3Error`.
#[verifier::external_type_specification]
#[verifier::external_body]
pub struct ExS3Error(S3Error);

/// `s3::creds::error::CredentialsError`.
#[verifier::external_type_specification]
#[verifier::external_body]
pub struct ExCredentialsError(CredentialsError);

/// The region `Region::Custom { region, endpoint }`.
pub uninterp spec fn custom_region(region: Seq<char>, endpoint: Seq<char>) -> Region;

/// The credentials that `Credentials::new` makes from keys that it is given
/// (its arguments in order: access key, secret key, security token, session
/// token, profile).
pub uninterp spec fn given_credentials(
    access_key: Option<Seq<char>>,
    secret_key: Option<Seq<char>>,
    security_token: Option<Seq<char>>,
    session_token: Option<Seq<char>>,
    profile: Option<Seq<char>>,
) -> Credentials;

/// What `Bucket::name` returns for a bucket.
pub uninterp spec fn bucket_name(b: Bucket) -> Seq<char>;

/// What `Bucket::region` returns for a bucket.
pub uninterp spec fn bucket_region(b: Bucket) -> Region;

/// The credentials that `Bucket::new` stored in a bucket's credentials field
/// when it made the bucket. (Requests may later refresh that field; nothing in
/// this library does, and this name stands for what was stored at creation.)
pub uninterp spec fn bucket_credentials(b: Bucket) -> Credentials;

/// Builds the value `Region::Custom { region, endpoint }`.
#[verifier::external_body]
fn region_custom(region: String, endpoint: String) -> (r: Region)
    ensures
        r == custom_region(region@, endpoint@),
{
    Region::Custom { region, endpoint }
}

/// Calls `Credentials::new`. When an access key is given, its source returns
/// `Ok` with the given keys at once; otherwise it looks in the environment,
/// the profile and the instance metadata, and nothing is claimed of the result.
#[verifier::external_body]
fn credentials_new(
    access_key: Option<&str>,
    secret_key: Option<&str>,
    security_token: Option<&str>,
    session_token: Option<&str>,
    profile: Option<&str>,
) -> (r: Result<Credentials, CredentialsError>)
    ensures
        r is Ok || access_key is None,
        r matches Ok(c) ==> (access_key is Some ==> c == given_credentials(access_key.deep_view(), secret_key.deep_view(), security_token.deep_view(), session_token.deep_view(), profile.deep_view())),
{
    Credentials::new(access_key, secret_key, security_token, session_token, profile)
}

/// Calls `Bucket::new`, which also builds an HTTPS client with native TLS and
/// returns an error when the TLS connector cannot be built; whether it
/// succeeds is therefore not stated. When it succeeds, the bucket has the
/// given name and region (as its `name` and `region` report) and holds the
/// given credentials, which it signs its requests with.
#[verifier::external_body]
fn bucket_new(name: &str, region: Region, credentials: Credentials) -> (r: Result<Box<Bucket>, S3Error>)
    ensures
        r matches Ok(b) ==> {
            &&& bucket_name(*b) == name@
            &&& bucket_region(*b) == region
            &&& bucket_credentials(*b) == credentials
        },
{
    Bucket::new(name, region, credentials)
}

/// The credentials a configuration names: its access key, its secret key and
/// its session token, if any.
pub open spec fn config_credentials(config: Config) -> Credentials {
    given_credentials(
        Some(config.auth.access_key_id@),
        Some(config.auth.secret_access_key@),
        None,
        match config.auth.session_token {
            Some(t) => Some(t@),
            None => None,
        },
        None,
    )
}

/// The credentials of the configuration: its access key, its secret key and
/// its session token, if any. Building them cannot fail, since an access key
/// is given.
pub fn configured_credentials(config: &Config) -> (c: Credentials)
    ensures
        c == config_credentials(*config),
{
    let session_token: Option<&str> = match &config.auth.session_token {
        Some(t) => Some(t.as_str()),
        None => None,
    };
    match credentials_new(
        Some(config.auth.access_key_id.as_str()),
        Some(config.auth.secret_access_key.as_str()),
        None,
        session_token,
        None,
    ) {
        Ok(c) => c,
        Err(_) => vstd::pervasive::unreached(),
    }
}

/// A handle on the configured bucket, in the custom region with the
/// configured name and endpoint, signing with the configured access key,
/// secret key and session token (no security token). Fails only when the
/// HTTPS client cannot be built.
pub fn create_bucket(config: &Config) -> (r: Result<Box<Bucket>, S3Error>)
    ensures
        r matches Ok(b) ==> {
            &&& bucket_name(*b) == config.bucket@
            &&& bucket_region(*b) == custom_region(config.region@, config.endpoint_url@)
            &&& bucket_credentials(*b) == config_credentials(*config)
        },
{
    let credentials = configured_credentials(config);
    let region = region_custom(config.region.clone(), config.endpoint_url.clone());
    bucket_new(config.bucket.as_str(), region, credentials)
}

} // verus!
