use dict_core::cdn::{
    cdn_key, cdn_target, host_parts, target_of_host, upload_succeeded, CdnUrlError,
};
use dict_core::ffi::FfiError;
use dict_core::report::{decimal_digits, format_number};

#[test]
fn test_format_number() {
    assert_eq!(format_number(0), "0");
    assert_eq!(format_number(7), "7");
    assert_eq!(format_number(12), "12");
    assert_eq!(format_number(999), "999");
    assert_eq!(format_number(1000), "1,000");
    assert_eq!(format_number(12345), "12,345");
    assert_eq!(format_number(123456), "123,456");
    assert_eq!(format_number(1234567), "1,234,567");
    assert_eq!(format_number(1_000_000), "1,000,000");
    assert_eq!(format_number(u64::MAX), "18,446,744,073,709,551,615");
    assert_eq!(decimal_digits(0), vec!['0']);
    assert_eq!(decimal_digits(9075), vec!['9', '0', '7', '5']);
}

#[test]
fn test_cdn_target() {
    let target = cdn_target("https://mybucket.nyc3.digitaloceanspaces.com").unwrap();
    assert_eq!(target.bucket, "mybucket");
    assert_eq!(target.region, "nyc3");
    assert_eq!(target.endpoint, "https://nyc3.digitaloceanspaces.com");

    let target = cdn_target("https://user@Dicts.FRA1.DigitalOceanSpaces.com:443/path?x=1").unwrap();
    assert_eq!(target.bucket, "dicts");
    assert_eq!(target.region, "fra1");
    assert_eq!(target.endpoint, "https://fra1.digitaloceanspaces.com");

    assert!(matches!(cdn_target("not a url"), Err(CdnUrlError::InvalidUrl)));
    assert!(matches!(cdn_target(""), Err(CdnUrlError::InvalidUrl)));
    assert!(matches!(cdn_target("data:text/plain,Stuff"), Err(CdnUrlError::MissingHost)));
    assert!(matches!(cdn_target("https://localhost"), Err(CdnUrlError::UnexpectedHost)));
    assert!(matches!(cdn_target("https://example.com"), Err(CdnUrlError::UnexpectedHost)));
}

#[test]
fn test_host_parts() {
    let parts = |s: &str| -> Vec<String> {
        host_parts(s).into_iter().map(|p| p.into_iter().collect()).collect()
    };
    for host in ["a.b.c", "", ".", "a..b", ".a.", "abc", "a.b.c.d.e"] {
        let expected: Vec<String> = host.split('.').map(|p| p.to_string()).collect();
        assert_eq!(parts(host), expected, "{:?}", host);
    }
    let target = target_of_host("a..c").unwrap();
    assert_eq!(target.bucket, "a");
    assert_eq!(target.region, "");
    assert_eq!(target.endpoint, "https://.digitaloceanspaces.com");
    assert!(matches!(target_of_host("a.b"), Err(CdnUrlError::UnexpectedHost)));
}

#[test]
fn test_cdn_key_and_status() {
    assert_eq!(cdn_key("english"), "english-dict.db.zst");
    assert_eq!(cdn_key(""), "-dict.db.zst");
    assert!(upload_succeeded(200));
    assert!(upload_succeeded(299));
    assert!(!upload_succeeded(300));
    assert!(!upload_succeeded(404));
    assert!(upload_succeeded(0));
}

#[test]
fn test_ffi_codes() {
    assert_eq!(FfiError::Success.code(), 0);
    assert_eq!(FfiError::NullPointer.code(), 1);
    assert_eq!(FfiError::InvalidUtf8.code(), 2);
    assert_eq!(FfiError::InitFailed.code(), 3);
    assert_eq!(FfiError::NotInitialized.code(), 4);
    assert_eq!(FfiError::SearchFailed.code(), 5);
    assert_eq!(FfiError::JsonFailed.code(), 6);
}
