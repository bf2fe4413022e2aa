use std::time::Duration;

use dls3::bucket::{configured_credentials, create_bucket};
use dls3::config::{AwsAuth, Config};
use s3::Region;

fn credentials_of(bucket: &s3::Bucket) -> s3::creds::Credentials {
    let runtime = tokio::runtime::Runtime::new().unwrap();
    runtime.block_on(bucket.credentials()).unwrap()
}

fn config(session_token: Option<String>) -> Config {
    Config::from_flags(
        AwsAuth {
            access_key_id: "AKIDEXAMPLE".to_string(),
            secret_access_key: "secret".to_string(),
            session_token,
        },
        "https://s3.example.com".to_string(),
        "eu-west-9".to_string(),
        "my-bucket".to_string(),
        None,
        Some(Duration::from_secs(1)),
        None,
        "hook".to_string(),
        "mnt".to_string(),
        "env".to_string(),
    )
}

#[test]
fn bucket_has_configured_name_region_and_keys() {
    let bucket = create_bucket(&config(Some("token".to_string()))).expect("HTTPS client");
    assert_eq!(bucket.name(), "my-bucket");
    assert_eq!(
        bucket.region(),
        Region::Custom { region: "eu-west-9".to_string(), endpoint: "https://s3.example.com".to_string() }
    );
    let creds = credentials_of(&bucket);
    assert_eq!(creds.access_key.as_deref(), Some("AKIDEXAMPLE"));
    assert_eq!(creds.secret_key.as_deref(), Some("secret"));
    assert_eq!(creds.security_token, None);
    assert_eq!(creds.session_token.as_deref(), Some("token"));
}

#[test]
fn bucket_without_session_token() {
    let bucket = create_bucket(&config(None)).expect("HTTPS client");
    let creds = credentials_of(&bucket);
    assert_eq!(creds.session_token, None);
    assert_eq!(bucket.name(), "my-bucket");
}

#[test]
fn configured_credentials_carry_the_keys() {
    let creds = configured_credentials(&config(Some("tok".to_string())));
    assert_eq!(creds.access_key.as_deref(), Some("AKIDEXAMPLE"));
    assert_eq!(creds.secret_key.as_deref(), Some("secret"));
    assert_eq!(creds.security_token, None);
    assert_eq!(creds.session_token.as_deref(), Some("tok"));
    assert!(creds.expiration.is_none());
}
