//! Pointer marker types and the top-level client constructor.

use aliyun_oss_client::builder::ArcPointer;
use aliyun_oss_client::builder::RcPointer;
use aliyun_oss_client::client;
use aliyun_oss_client::types::BucketName;
use aliyun_oss_client::types::EndPoint;
use aliyun_oss_client::types::KeyId;
use aliyun_oss_client::types::KeySecret;

#[test]
fn debug_arc_pointer() {
    let pointer = ArcPointer;

    assert_eq!(format!("{pointer:?}"), "ArcPointer");
}

#[test]
fn debug_rc_pointer() {
    let pointer = RcPointer;

    assert_eq!(format!("{pointer:?}"), "RcPointer");
}

#[test]
fn client_binds_credential_endpoint_and_bucket() {
    let c = client(
        KeyId::from_static("key_id_xxx"),
        KeySecret::from_static("key_secret_xxxx"),
        EndPoint::from_static("qingdao"),
        BucketName::from_static("my-bucket"),
    );
    assert_eq!(c.key.as_str(), "key_id_xxx");
    let bucket = c.bucket().unwrap();
    assert_eq!(bucket.name.as_str(), "my-bucket");
    assert_eq!(bucket.endpoint, EndPoint::CnQingdao);
}
