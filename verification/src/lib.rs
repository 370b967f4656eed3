//! Client-side core of an OSS-style object storage service: request
//! signing, canonicalized resources, a plugin chain for resource
//! overrides, list-document decoding and pull-based pagination.

use vstd::prelude::*;

pub mod auth;
pub mod builder;
pub mod client;
pub mod decode;
pub mod errors;
pub mod pager;
pub mod plugin;
pub mod strutil;
pub mod types;

verus! {

pub use types::BucketName;
pub use types::EndPoint;
pub use types::KeyId;
pub use types::KeySecret;

/// A client over the given credential, bound to one bucket in one region;
/// its plugin registry starts out empty.
pub fn client(
    access_key_id: KeyId,
    access_key_secret: KeySecret,
    endpoint: EndPoint,
    bucket: BucketName,
) -> (c: client::Client)
    ensures
        c.key@ == access_key_id@,
        c.secret@ == access_key_secret@,
        c.bucket matches Some(b) && b.name@ == bucket@ && b.endpoint == endpoint,
        c.plugins@ == Seq::<plugin::NoopPlugin>::empty(),
{
    let mut c: client::Client = client::Client::new(access_key_id, access_key_secret);
    let previous = c.set_bucket(client::Bucket::new(bucket, endpoint));
    c
}

} // verus!
