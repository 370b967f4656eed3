//! The client: credential owner, default bucket, authorization headers for
//! service-level calls, and the bucket-list response scanner.

use vstd::prelude::*;

use crate::auth::spec_assembled_headers;
use crate::auth::Auth;
use crate::auth::AuthView;
use crate::auth::Headers;
use crate::auth::VERB;
use crate::errors::OssError;
use crate::errors::PluginError;
use crate::plugin::NoopPlugin;
use crate::plugin::Plugin;
use crate::plugin::PluginRegistry;
use crate::strutil::extract_between;
use crate::strutil::extract_values;
use crate::types::BucketName;
use crate::types::CanonicalizedResource;
use crate::types::ContentType;
use crate::types::Date;
use crate::types::EndPoint;
use crate::types::KeyId;
use crate::types::KeySecret;

verus! {

/// A bucket: its name together with the region it lives in.
#[derive(Debug, PartialEq, Eq)]
pub struct Bucket {
    /// The bucket's name.
    pub name: BucketName,
    /// The region the bucket lives in.
    pub endpoint: EndPoint,
}

impl Clone for Bucket {
    fn clone(&self) -> (r: Self)
        ensures
            r.name@ == self.name@,
            r.endpoint == self.endpoint,
    {
        Self { name: self.name.clone(), endpoint: self.endpoint }
    }
}

impl Bucket {
    /// Creates a bucket handle from name and region.
    pub fn new(name: BucketName, endpoint: EndPoint) -> (r: Self)
        ensures
            r.name@ == name@,
            r.endpoint == endpoint,
    {
        Self { name, endpoint }
    }

    /// The bucket's name.
    pub fn name(&self) -> (r: &BucketName)
        ensures
            r@ == self.name@,
    {
        &self.name
    }

    /// The bucket's region.
    pub fn endpoint(&self) -> (r: EndPoint)
        ensures
            r == self.endpoint,
    {
        self.endpoint
    }
}

/// Relies on chrono's `Utc::now` and `DateTime::format` for the RFC 1123
/// date line; nothing is promised of the clock's value.
#[verifier::external_body]
fn now_rfc1123() -> String {
    chrono::Utc::now().format("%a, %d %b %Y %T GMT").to_string()
}

/// Holds the credential, the default bucket and the registered plugins; a
/// reference to it enters nearly every call. A client without plugins
/// carries the no-op plugin type.
#[derive(Debug)]
pub struct Client<P: Plugin = NoopPlugin> {
    /// Identifier half of the credential.
    pub key: KeyId,
    /// Secret half of the credential.
    pub secret: KeySecret,
    /// The default bucket, once one was set.
    pub bucket: Option<Bucket>,
    /// The plugins registered with this client, in registration order.
    pub plugins: PluginRegistry<P>,
}

/// The authorization description of a service-level call: a fixed XML
/// media type, no body digest, no extra headers.
pub open spec fn spec_client_auth(
    key: Seq<char>,
    secret: Seq<char>,
    method: VERB,
    resource: Seq<char>,
    date: Seq<char>,
) -> AuthView {
    AuthView {
        key,
        secret,
        verb: method,
        md5: None,
        content_type: Some("text/xml"@),
        date,
        resource,
        headers: Seq::empty(),
    }
}

impl<P: Plugin> Client<P> {
    /// Creates a client from a credential pair; no bucket is set and no
    /// plugin is registered yet.
    pub fn new(key: KeyId, secret: KeySecret) -> (r: Client<P>)
        ensures
            r.key@ == key@,
            r.secret@ == secret@,
            r.bucket is None,
            r.plugins@ == Seq::<P>::empty(),
    {
        Self { key, secret, bucket: None, plugins: PluginRegistry::new() }
    }

    /// Registers one plugin with this client: its `on_attach` runs exactly
    /// once with a mutable handle to the owning client, and on success the
    /// plugin joins the client's registry, after every one registered
    /// before. A failing `on_attach` fails the registration with an error
    /// named after the plugin.
    pub fn register_plugin(self, plugin: P) -> (r: Result<Client<P>, OssError>)
        ensures
            r matches Ok(c) ==> (exists|mid: Client<P>, attached: P|
                #[trigger] attached.attach_done(plugin, self, mid, Ok(())) && c.key == mid.key
                    && c.secret == mid.secret && c.bucket == mid.bucket && c.plugins@
                    == mid.plugins@.push(attached)),
            r matches Err(e) ==> (e matches OssError::Plugin(p) && p.name@ == plugin.spec_name()
                && (exists|failed: P, lost: Client<P>, cause: OssError|
                #[trigger] failed.attach_done(plugin, self, lost, Err(cause)) && p.message@
                    == crate::errors::spec_describe(cause))),
    {
        let ghost plugin0 = plugin;
        let ghost self0 = self;
        let mut this = self;
        let mut plugin = plugin;
        let name = plugin.name();
        let attach_result = plugin.on_attach(&mut this);
        let ghost ar = attach_result;
        let ghost mid = this;
        match &attach_result {
            Ok(_) => {
                let ghost attached = plugin;
                this.plugins.insert(plugin);
                proof {
                    assert(ar is Ok);
                    assert(ar->Ok_0 == ());
                    assert(ar == Ok::<(), OssError>(()));
                    assert(attached.attach_done(plugin0, self0, mid, Ok(())));
                    assert(this.plugins@ == mid.plugins@.push(attached));
                }
                Ok(this)
            },
            Err(e) => {
                let ghost failed = plugin;
                let ghost cause = *e;
                let message = e.describe();
                proof {
                    assert(ar == Err::<(), OssError>(cause));
                    assert(failed.attach_done(plugin0, self0, mid, Err(cause)));
                }
                Err(OssError::Plugin(PluginError { name, message }))
            },
        }
    }

    /// Sets the default bucket, handing back the one set before.
    pub fn set_bucket(&mut self, bucket: Bucket) -> (r: Option<Bucket>)
        ensures
            final(self).bucket == Some(bucket),
            final(self).key == old(self).key,
            final(self).secret == old(self).secret,
            final(self).plugins == old(self).plugins,
            r == old(self).bucket,
    {
        let previous = self.bucket.take();
        self.bucket = Some(bucket);
        previous
    }

    /// The default bucket, where one was set.
    pub fn bucket(&self) -> (r: Option<&Bucket>)
        ensures
            match r {
                Some(b) => self.bucket == Some(*b),
                None => self.bucket is None,
            },
    {
        self.bucket.as_ref()
    }

    /// The authorization header set of a service-level call for a given
    /// date line; success is owed whenever the secret is non-empty.
    pub fn authorization_with_date(
        &self,
        method: VERB,
        resource: CanonicalizedResource,
        date: Date,
    ) -> (r: Result<Headers, OssError>)
        ensures
            r is Ok <==> self.secret@.len() > 0,
            r matches Ok(h) ==> h@ == spec_assembled_headers(
                spec_client_auth(self.key@, self.secret@, method, resource@, date@),
            ),
    {
        let auth = Auth {
            access_key_id: self.key.clone(),
            access_key_secret: self.secret.clone(),
            verb: method,
            content_md5: None,
            content_type: Some(ContentType::from_static("text/xml")),
            date,
            canonicalized_resource: resource,
            headers: Headers::new(),
        };
        assert(auth@ == spec_client_auth(self.key@, self.secret@, method, resource@, auth.date@));
        match auth.get_headers() {
            Ok(h) => Ok(h),
            Err(e) => Err(OssError::Sign(e)),
        }
    }

    /// The authorization header set of a service-level call, dated now.
    /// The clock decides the date line; everything else is pinned.
    pub fn authorization(&self, method: VERB, resource: CanonicalizedResource) -> (r: Result<
        Headers,
        OssError,
    >)
        ensures
            r is Ok <==> self.secret@.len() > 0,
            r matches Ok(h) ==> exists|d: Seq<char>|
                h@ == spec_assembled_headers(
                    #[trigger] spec_client_auth(self.key@, self.secret@, method, resource@, d),
                ),
    {
        let date = Date::new(now_rfc1123());
        let ghost d = date@;
        let r = self.authorization_with_date(method, resource, date);
        proof {
            if r is Ok {
                assert(r->Ok_0@ == spec_assembled_headers(
                    spec_client_auth(self.key@, self.secret@, method, resource@, d),
                ));
            }
        }
        r
    }

    /// Scans a bucket-list document: every `<Name>` element names one
    /// bucket in the given region, in document order. A document whose
    /// name markers do not pair up is rejected.
    pub fn parse_xml(xml: String, endpoint: &EndPoint) -> (r: Result<Vec<Bucket>, OssError>)
        ensures
            match r {
                Ok(v) => extract_between(xml@, "<Name>"@, "</Name>"@) matches Some(names)
                    && v@.len() == names.len() && (forall|i: int|
                    0 <= i < v@.len() ==> (#[trigger] v@[i]).name@ == names[i] && v@[i].endpoint
                        == *endpoint),
                Err(e) => extract_between(xml@, "<Name>"@, "</Name>"@) is None && e matches
                    OssError::Input(_),
            },
    {
        proof {
            reveal_strlit("<Name>");
            reveal_strlit("</Name>");
        }
        match extract_values(xml.as_str(), "<Name>", "</Name>") {
            Some(names) => {
                let ghost nv = extract_between(xml@, "<Name>"@, "</Name>"@)->Some_0;
                let mut out: Vec<Bucket> = Vec::new();
                let mut i: usize = 0;
                while i < names.len()
                    invariant
                        nv == names@.map_values(|s: String| s@),
                        0 <= i <= names@.len(),
                        out@.len() == i,
                        forall|j: int|
                            0 <= j < i ==> (#[trigger] out@[j]).name@ == nv[j] && out@[j].endpoint
                                == *endpoint,
                    decreases names@.len() - i,
                {
                    let name = names[i].clone();
                    out.push(Bucket::new(BucketName::new(name), *endpoint));
                    i += 1;
                }
                Ok(out)
            },
            None => Err(
                OssError::Input("bucket list document has unpaired name markers".to_owned()),
            ),
        }
    }
}

} // verus!
