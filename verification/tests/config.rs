use std::time::Duration;

use dls3::config::{usage_text, AwsAuth, Config};

fn auth() -> AwsAuth {
    AwsAuth { access_key_id: "AK".to_string(), secret_access_key: "SK".to_string(), session_token: None }
}

#[test]
fn optional_flags_take_their_defaults() {
    let c = Config::from_flags(
        auth(),
        "http://localhost:9000".to_string(),
        "us-east-1".to_string(),
        "bucket".to_string(),
        None,
        None,
        None,
        "/lib/hook.so".to_string(),
        "/mnt/s3".to_string(),
        "/tmp/env".to_string(),
    );
    assert_eq!(c.prefix, "");
    assert_eq!(c.refetch_all_interval, Duration::from_secs(30));
    assert_eq!(c.refetch_open_interval, Duration::from_secs(5));
    assert_eq!(c.bucket, "bucket");
    assert_eq!(c.region, "us-east-1");
    assert_eq!(c.endpoint_url, "http://localhost:9000");
    assert_eq!(c.hook_path, "/lib/hook.so");
    assert_eq!(c.mountpoint, "/mnt/s3");
    assert_eq!(c.env_destination, "/tmp/env");
    assert_eq!(c.auth.access_key_id, "AK");
}

#[test]
fn given_optional_flags_are_kept() {
    let c = Config::from_flags(
        auth(),
        "e".to_string(),
        "r".to_string(),
        "b".to_string(),
        Some("photos/".to_string()),
        Some(Duration::from_millis(1500)),
        Some(Duration::from_secs(1)),
        "h".to_string(),
        "m".to_string(),
        "d".to_string(),
    );
    assert_eq!(c.prefix, "photos/");
    assert_eq!(c.refetch_all_interval, Duration::from_millis(1500));
    assert_eq!(c.refetch_open_interval, Duration::from_secs(1));
}

#[test]
fn usage_names_the_program_and_the_flags() {
    let text = usage_text("dls3");
    assert!(text.starts_with("usage: dls3 <flags>\n\nrequired flags (all strings):\n"));
    assert!(text.contains("  --hook-path: path to the library we should LD_PRELOAD into the command\n"));
    assert!(text.contains("victims to use\noptional flags:\n"));
    assert!(text.ends_with("  --refetch-open-interval <seconds>: how often to check for changes to currently open objects in the bucket\n    default: 5\n"));
}
