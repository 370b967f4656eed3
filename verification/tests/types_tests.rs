//! Value types: endpoints, query maps and canonicalized resources.

use aliyun_oss_client::types::BucketName;
use aliyun_oss_client::types::CanonicalizedResource;
use aliyun_oss_client::types::EndPoint;
use aliyun_oss_client::types::KeyId;
use aliyun_oss_client::types::KeySecret;
use aliyun_oss_client::types::Query;
use aliyun_oss_client::types::UrlQuery;
use aliyun_oss_client::types::QueryKey;
use aliyun_oss_client::types::QueryValue;

#[test]
fn key_id_and_secret_round_trip() {
    let id = KeyId::new("foo".to_string());
    assert_eq!(id.as_str(), "foo");
    let id2 = KeyId::from_static("bar");
    assert_eq!(id2.as_str(), "bar");
    let secret = KeySecret::from_static("s3cr3t");
    assert_eq!(secret.as_str(), "s3cr3t");
    assert_eq!(secret.as_bytes(), b"s3cr3t");
}

#[test]
fn endpoint_new_recognizes_regions() {
    assert!(matches!(EndPoint::new("shanghai"), Ok(EndPoint::CnShanghai)));
    assert!(matches!(EndPoint::new("qingdao"), Ok(EndPoint::CnQingdao)));
    assert!(matches!(
        EndPoint::new("oss-cn-zhangjiakou.aliyuncs.com"),
        Ok(EndPoint::CnZhangjiakou)
    ));
    assert!(EndPoint::new("weifang").is_err());
    assert!(EndPoint::new("").is_err());
}

#[test]
fn endpoint_to_url() {
    let endpoint = EndPoint::new("shanghai").unwrap();
    assert_eq!(endpoint.to_url(), "https://oss-cn-shanghai.aliyuncs.com");
    assert_eq!(EndPoint::from_static("hangzhou").as_ref(), "cn-hangzhou");
}

#[test]
fn query_insert_get_remove() {
    let mut query = Query::new();
    query.insert(QueryKey::from_static("abc"), QueryValue::from_static("def"));
    assert_eq!(query.len(), 1);

    let value = query.get("abc");
    assert!(value.is_some());
    let value = value.unwrap();
    assert_eq!(value.as_str(), "def");

    // Overwriting keeps the map at one entry.
    query.insert(QueryKey::from_static("abc"), QueryValue::from_static("xyz"));
    assert_eq!(query.len(), 1);
    assert_eq!(query.get("abc").unwrap().as_str(), "xyz");

    let removed = query.remove("abc");
    assert_eq!(removed.unwrap().as_str(), "xyz");
    assert_eq!(query.len(), 0);
    assert!(query.remove("abc").is_none());
}

#[test]
fn query_to_oss_string() {
    let mut query = Query::new();
    query.insert(QueryKey::from_static("abc"), QueryValue::from_static("def"));
    let str = query.to_oss_string();
    assert_eq!(str.as_str(), "list-type=2&abc=def");

    let empty = Query::new();
    assert_eq!(empty.to_oss_string().as_str(), "list-type=2");
}

#[test]
fn query_to_url_query() {
    let mut query = Query::new();
    query.insert(QueryKey::from_static("a"), QueryValue::from_static("foo"));
    query.insert(QueryKey::from_static("b"), QueryValue::from_static("bar"));
    assert_eq!(query.to_url_query().as_str(), "a=foo&b=bar");

    let empty = Query::new();
    assert_eq!(empty.to_url_query().as_str(), "");
}

#[test]
fn url_query_is_written_onto_a_url() {
    let mut query = Query::new();
    query.insert(QueryKey::from_static("abc"), QueryValue::from_static("def"));
    let mut url = reqwest::Url::parse("https://example.com").unwrap();
    url.set_search_query(&query);
    assert_eq!(url.as_str(), "https://example.com/?list-type=2&abc=def");
    assert_eq!(url.query(), Some("list-type=2&abc=def"));
}

#[test]
fn resource_from_bucket_keeps_signable_tokens() {
    let bucket = BucketName::from_static("mybucket");
    let acl = CanonicalizedResource::from_bucket(&bucket, Some("acl"));
    assert_eq!(acl.as_str(), "/mybucket/?acl");
    let info = CanonicalizedResource::from_bucket(&bucket, Some("bucketInfo"));
    assert_eq!(info.as_str(), "/mybucket/?bucketInfo");
    let other = CanonicalizedResource::from_bucket(&bucket, Some("unrelated-token"));
    assert_eq!(other.as_str(), "/mybucket/");
    let none = CanonicalizedResource::from_bucket(&bucket, None);
    assert_eq!(none.as_str(), "/mybucket/");
}

#[test]
fn resource_from_bucket_query_keeps_only_the_cursor() {
    let bucket = BucketName::from_static("mybucket");
    let mut query = Query::new();
    query.insert(
        QueryKey::from_static("continuation-token"),
        QueryValue::from_static("tok1"),
    );
    query.insert(QueryKey::from_static("max-keys"), QueryValue::from_static("5"));
    let with_token = CanonicalizedResource::from_bucket_query(&bucket, &query);
    assert_eq!(with_token.as_str(), "/mybucket/?continuation-token=tok1");

    let empty = Query::new();
    let without = CanonicalizedResource::from_bucket_query(&bucket, &empty);
    assert_eq!(without.as_str(), "/mybucket/");
}

#[test]
fn resource_from_object() {
    let bucket = BucketName::from_static("mybucket");
    let mut query = Query::new();
    query.insert(QueryKey::from_static("versionId"), QueryValue::from_static("7"));
    let with_query = CanonicalizedResource::from_object(&bucket, "dir/file.txt", Some(&query));
    assert_eq!(with_query.as_str(), "/mybucket/dir/file.txt?versionId=7");
    let plain = CanonicalizedResource::from_object(&bucket, "dir/file.txt", None);
    assert_eq!(plain.as_str(), "/mybucket/dir/file.txt");
}

#[test]
fn resource_default_is_root() {
    let res = CanonicalizedResource::default();
    assert_eq!(res.as_str(), "/");
    let custom = CanonicalizedResource::from_static("/abc/");
    assert_eq!(custom.as_str(), "/abc/");
}
