//! The signing engine: canonical strings, vendor headers, signatures and
//! assembled header sets; and the service error parser.

use aliyun_oss_client::auth::Auth;
use aliyun_oss_client::auth::AuthBuilder;
use aliyun_oss_client::auth::Headers;
use aliyun_oss_client::auth::VERB;
use aliyun_oss_client::errors::OssService;
use aliyun_oss_client::errors::SignError;
use aliyun_oss_client::types::CanonicalizedResource;
use aliyun_oss_client::types::ContentMd5;
use aliyun_oss_client::types::Date;
use aliyun_oss_client::types::KeyId;
use aliyun_oss_client::types::KeySecret;

fn sample_auth() -> Auth {
    let mut auth = Auth::default();
    auth.access_key_id = KeyId::from_static("foo");
    auth.access_key_secret = KeySecret::from_static("bar");
    auth.verb = VERB::Put;
    auth.content_md5 = Some(ContentMd5::from_static("ODBGOERFMDMzQTczRUY3NUE3NzA5QzdFNUYzMDQxNEM="));
    auth.date = Date::from_static("Wed, 15 Mar 2023 09:00:00 GMT");
    auth.canonicalized_resource = CanonicalizedResource::from_static("/mybucket/file.txt");
    auth
}

#[test]
fn verb_names() {
    assert_eq!(VERB::Get.to_string(), "GET");
    assert_eq!(VERB::Post.to_string(), "POST");
    assert_eq!(VERB::default(), VERB::Get);
    assert_eq!(VERB::from_static("DELETE"), VERB::Delete);
    assert_eq!(VERB::from_static("nonsense"), VERB::Get);
}

#[test]
fn headers_are_case_insensitive() {
    let mut headers = Headers::new();
    headers.insert("Content-Type", "text/plain".to_string());
    assert_eq!(headers.len(), 1);
    assert_eq!(headers.get("content-type").unwrap().as_str(), "text/plain");
    assert_eq!(headers.get("CONTENT-TYPE").unwrap().as_str(), "text/plain");
    headers.insert("CONTENT-type", "text/xml".to_string());
    assert_eq!(headers.len(), 1);
    assert_eq!(headers.get("Content-Type").unwrap().as_str(), "text/xml");
    assert!(headers.get("date").is_none());
}

#[test]
fn header_str_absent_without_vendor_headers() {
    let mut auth = sample_auth();
    auth.headers.insert("Content-Type", "text/plain".to_string());
    assert!(auth.header_str().is_none());
}

#[test]
fn header_str_single_vendor_header() {
    let mut auth = sample_auth();
    auth.headers.insert("X-OSS-Copy-Source", "/honglei123/file1.txt".to_string());
    assert_eq!(
        auth.header_str().unwrap(),
        "x-oss-copy-source:/honglei123/file1.txt"
    );
}

#[test]
fn header_str_sorts_by_name() {
    let mut auth = sample_auth();
    auth.headers.insert("x-oss-meta-b", "2".to_string());
    auth.headers.insert("x-oss-meta-a", "1".to_string());
    auth.headers.insert("x-oss-acl", "private".to_string());
    auth.headers.insert("Date", "ignored".to_string());
    assert_eq!(
        auth.header_str().unwrap(),
        "x-oss-acl:private\nx-oss-meta-a:1\nx-oss-meta-b:2"
    );
}

#[test]
fn canonical_string_layout() {
    let auth = sample_auth();
    assert_eq!(
        auth.canonical_string(),
        "PUT\nODBGOERFMDMzQTczRUY3NUE3NzA5QzdFNUYzMDQxNEM=\n\nWed, 15 Mar 2023 09:00:00 GMT\n/mybucket/file.txt"
    );
}

#[test]
fn canonical_string_vendor_segment_is_inserted_whole() {
    let without = sample_auth();
    let mut with = sample_auth();
    with.headers.insert("x-oss-acl", "private".to_string());

    let plain = without.canonical_string();
    let vendored = with.canonical_string();
    // The two strings differ exactly by the inserted segment, one line per
    // vendor header with its own line break — not by an extra empty line.
    let expected = plain.replace(
        "GMT\n/mybucket/file.txt",
        "GMT\nx-oss-acl:private\n/mybucket/file.txt",
    );
    assert_eq!(vendored, expected);
}

#[test]
fn sign_is_deterministic() {
    let auth = sample_auth();
    let first = auth.sign().unwrap();
    let second = auth.sign().unwrap();
    assert_eq!(first, second);
    // HMAC-SHA1 yields twenty bytes, so base64 yields 28 characters; in
    // particular the signature is not the canonical string handed back.
    assert_eq!(first.len(), 28);
    assert_ne!(first, auth.canonical_string());
}

#[test]
fn sign_matches_a_known_code() {
    // A PUT with body digest, media type, two vendor headers and an
    // object resource; the expected code was computed independently.
    let mut auth = Auth::default();
    auth.access_key_id = KeyId::from_static("44CF9590006BF252F707");
    auth.access_key_secret = KeySecret::from_static("OtxrzxIsfpFjA7SwPzILwy8Bw21TLhquhboDYROV");
    auth.verb = VERB::Put;
    auth.content_md5 = Some(ContentMd5::from_static("eB5eJF1ptWaXm4bijSPyxw=="));
    auth.content_type = Some(aliyun_oss_client::types::ContentType::from_static("text/html"));
    auth.date = Date::from_static("Thu, 17 Nov 2005 18:49:58 GMT");
    auth.canonicalized_resource = CanonicalizedResource::from_static("/oss-example/nelson");
    auth.headers.insert("X-OSS-Meta-Author", "foo@bar.com".to_string());
    auth.headers.insert("X-OSS-Magic", "abracadabra".to_string());

    assert_eq!(
        auth.canonical_string(),
        "PUT\neB5eJF1ptWaXm4bijSPyxw==\ntext/html\nThu, 17 Nov 2005 18:49:58 GMT\nx-oss-magic:abracadabra\nx-oss-meta-author:foo@bar.com\n/oss-example/nelson"
    );
    assert_eq!(auth.sign().unwrap(), "hD208RWMpg77svXkQRwWXS+V5KQ=");
}

#[test]
fn sign_rejects_an_empty_secret() {
    let mut auth = sample_auth();
    auth.access_key_secret = KeySecret::from_static("");
    assert!(matches!(auth.sign(), Err(SignError::InvalidKey)));
}

#[test]
fn signature_depends_on_vendor_headers() {
    let without = sample_auth();
    let mut with = sample_auth();
    with.headers.insert("x-oss-acl", "private".to_string());
    assert_ne!(without.sign().unwrap(), with.sign().unwrap());
}

#[test]
fn get_headers_assembles_the_full_set() {
    let auth = sample_auth();
    let headers = auth.get_headers().unwrap();
    assert_eq!(headers.get("AccessKeyId").unwrap().as_str(), "foo");
    assert_eq!(headers.get("VERB").unwrap().as_str(), "PUT");
    assert_eq!(
        headers.get("Content-MD5").unwrap().as_str(),
        "ODBGOERFMDMzQTczRUY3NUE3NzA5QzdFNUYzMDQxNEM="
    );
    assert_eq!(headers.get("Date").unwrap().as_str(), "Wed, 15 Mar 2023 09:00:00 GMT");
    assert_eq!(
        headers.get("CanonicalizedResource").unwrap().as_str(),
        "/mybucket/file.txt"
    );
    let expected = format!("OSS foo:{}", auth.sign().unwrap());
    assert_eq!(headers.get("Authorization").unwrap(), &expected);
}

#[test]
fn builder_collects_the_descriptor() {
    let builder = AuthBuilder::default();
    assert_eq!(builder.auth.access_key_id.as_str(), "");
    let builder = builder
        .key(KeyId::from_static("bar"))
        .secret(KeySecret::from_static("baz"))
        .verb(VERB::Post)
        .content_md5(ContentMd5::from_static("digest"))
        .date(Date::from_static("Wed, 15 Mar 2023 09:00:00 GMT"))
        .canonicalized_resource(CanonicalizedResource::from_static("/b/"));
    assert_eq!(builder.auth.access_key_id.as_str(), "bar");
    assert_eq!(builder.auth.access_key_secret.as_str(), "baz");
    assert_eq!(builder.auth.verb, VERB::Post);
    assert_eq!(builder.auth.canonicalized_resource.as_str(), "/b/");
}

#[test]
fn builder_header_insert_and_type_with_header() {
    let builder = AuthBuilder::default()
        .header_insert("Content-Type", "application/json".to_string())
        .type_with_header();
    assert_eq!(
        builder.auth.content_type.as_ref().unwrap().as_str(),
        "application/json"
    );

    let mut headers = Headers::new();
    headers.insert("Content-Type", "text/xml".to_string());
    let builder = AuthBuilder::default().headers(headers);
    assert_eq!(
        builder.auth.content_type.as_ref().unwrap().as_str(),
        "text/xml"
    );

    let cleared = builder.header_clear();
    assert_eq!(cleared.auth.headers.len(), 0);
}

#[test]
fn oss_service_display() {
    assert_eq!(
        format!(
            "{:?}",
            OssService {
                code: "abc".to_owned(),
                status: 200,
                message: "mes1".to_owned(),
                request_id: "xx".to_owned(),
            }
        ),
        "OssService { code: \"abc\", status: 200, message: \"mes1\", request_id: \"xx\" }"
    );
}

#[test]
fn oss_service_default() {
    let oss = OssService::default();
    assert_eq!(oss.code, "Undefined".to_string());
    assert_eq!(oss.status, 200);
    assert_eq!(
        oss.message,
        "Parse aliyun response xml error message failed.".to_owned()
    );
    assert_eq!(oss.request_id, "XXXXXXXXXXXXXXXXXXXXXXXX".to_owned());
}

#[test]
fn oss_service_new() {
    assert_eq!(OssService::new("abc", 200), OssService::default());

    assert_eq!(OssService::new2("abc".to_string(), 200), OssService::default());
}

#[test]
fn oss_service_parses_an_error_document() {
    let body = "<?xml version=\"1.0\"?><Error><Code>AccessDenied</Code>\
        <Message>The bucket you access does not belong to you.</Message>\
        <RequestId>5CAC0CF8DE0170</RequestId></Error>";
    let service = OssService::new(body, 403);
    assert_eq!(service.code, "AccessDenied");
    assert_eq!(service.status, 403);
    assert_eq!(service.message, "The bucket you access does not belong to you.");
    assert_eq!(service.request_id, "5CAC0CF8DE0170");
}
