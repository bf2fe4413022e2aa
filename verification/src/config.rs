//! The daemon's configuration.

use core::time::Duration;
use vstd::prelude::*;
use vstd::string::StringExecFns;

verus! {

/// Credentials for S3.
#[derive(Clone, Debug)]
pub struct AwsAuth {
    pub access_key_id: String,
    pub secret_access_key: String,
    pub session_token: Option<String>,
}

/// Everything the daemon is started with.
#[derive(Clone, Debug)]
pub struct Config {
    pub auth: AwsAuth,
    pub endpoint_url: String,
    pub region: String,
    pub bucket: String,
    pub prefix: String,
    /// How frequently to scan the entire bucket for new/deleted files.
    pub refetch_all_interval: Duration,
    /// How frequently to check for updated versions of opened files.
    pub refetch_open_interval: Duration,
    /// Path to the library to LD_PRELOAD
    pub hook_path: String,
    pub mountpoint: String,
    /// Path where we will write environment variables for the victim
    pub env_destination: String,
}

/// The duration of `secs` whole seconds, as `Duration::from_secs` makes it.
pub uninterp spec fn duration_of_secs(secs: u64) -> Duration;

/// `Duration::from_secs` makes the duration of the given whole seconds; it
/// cannot fail.
pub assume_specification[ core::time::Duration::from_secs ](secs: u64) -> (d: Duration)
    ensures
        d == duration_of_secs(secs),
;

/// `Duration` is `Copy`: its `clone` returns the same duration.
pub assume_specification[ <core::time::Duration as Clone>::clone ](d: &Duration) -> (r: Duration)
    ensures
        r == *d,
;

/// Seconds between two scans of the whole bucket when no interval is given.
pub const DEFAULT_REFETCH_ALL_SECS: u64 = 30;

/// Seconds between two checks of the opened files when no interval is given.
pub const DEFAULT_REFETCH_OPEN_SECS: u64 = 5;

impl Config {
    /// Assembles the configuration from the command-line flags. The optional
    /// ones default to: no prefix (the whole bucket), a bucket scan every 30
    /// seconds, and a check of opened files every 5 seconds.
    pub fn from_flags(
        auth: AwsAuth,
        endpoint_url: String,
        region: String,
        bucket: String,
        prefix: Option<String>,
        refetch_all_interval: Option<Duration>,
        refetch_open_interval: Option<Duration>,
        hook_path: String,
        mountpoint: String,
        env_destination: String,
    ) -> (c: Config)
        ensures
            c.auth == auth,
            c.endpoint_url == endpoint_url,
            c.region == region,
            c.bucket == bucket,
            c.prefix@ == (match prefix {
                Some(p) => p@,
                None => Seq::<char>::empty(),
            }),
            c.refetch_all_interval == (match refetch_all_interval {
                Some(d) => d,
                None => duration_of_secs(30),
            }),
            c.refetch_open_interval == (match refetch_open_interval {
                Some(d) => d,
                None => duration_of_secs(5),
            }),
            c.hook_path == hook_path,
            c.mountpoint == mountpoint,
            c.env_destination == env_destination,
    {
        let prefix = match prefix {
            Some(p) => p,
            None => String::new(),
        };
        let refetch_all_interval = match refetch_all_interval {
            Some(d) => d,
            None => Duration::from_secs(DEFAULT_REFETCH_ALL_SECS),
        };
        let refetch_open_interval = match refetch_open_interval {
            Some(d) => d,
            None => Duration::from_secs(DEFAULT_REFETCH_OPEN_SECS),
        };
        Config {
            auth,
            endpoint_url,
            region,
            bucket,
            prefix,
            refetch_all_interval,
            refetch_open_interval,
            hook_path,
            mountpoint,
            env_destination,
        }
    }
}

/// The start of the usage message, before the program's name.
pub const USAGE_HEAD: &'static str = "usage: ";

/// The usage message after the program's name.
pub const USAGE_BODY: &'static str = " <flags>\n\nrequired flags (all strings):\n  --access-key-id, --secret-access-key, --endpoint-url, --region, --bucket: S3 connection details\n  --hook-path: path to the library we should LD_PRELOAD into the command\n  --mountpoint: where files should appear to the command. the daemon must be able to create this location as a symlink.\n  --env-destination: where to write environment variables for victims to use\noptional flags:\n  --session-token <string>: if required by your S3 authentication\n  --prefix <string>: only map objects matching this prefix\n    default: no prefix (entire bucket contents)\n  --refetch-all-interval <seconds>: how often to check for new/deleted objects in the bucket\n    default: 30\n  --refetch-open-interval <seconds>: how often to check for changes to currently open objects in the bucket\n    default: 5\n";

/// The usage message for the program called `program`.
pub fn usage_text(program: &str) -> (text: String)
    ensures
        text@ == USAGE_HEAD@ + program@ + USAGE_BODY@,
{
    let mut text = String::from_str(USAGE_HEAD);
    text.append(program);
    text.append(USAGE_BODY);
    text
}

} // verus!
