//! Value types for the protocol strings that the client handles: credentials,
//! endpoints, bucket names, header values and query parameters.

use vstd::prelude::*;

use crate::strutil::contains_seq;
use crate::strutil::str_contains;
use crate::strutil::str_eq;
use vstd::string::StringExecFns;

verus! {

/// Identifier half of a credential pair.
#[derive(Debug)]
pub struct KeyId {
    inner: String,
}

impl View for KeyId {
    type V = Seq<char>;

    closed spec fn view(&self) -> Seq<char> {
        self.inner@
    }
}

impl Clone for KeyId {
    fn clone(&self) -> (r: Self)
        ensures
            r@ == self@,
    {
        Self { inner: self.inner.clone() }
    }
}

impl KeyId {
    /// Creates a new `KeyId` from the given string.
    pub fn new(key_id: String) -> (r: Self)
        ensures
            r@ == key_id@,
    {
        Self { inner: key_id }
    }

    /// Creates a new `KeyId` from a string slice.
    pub fn from_static(key_id: &str) -> (r: Self)
        ensures
            r@ == key_id@,
    {
        Self { inner: key_id.to_owned() }
    }

    /// Borrows the identifier as a string slice.
    pub fn as_str(&self) -> (r: &str)
        ensures
            r@ == self@,
    {
        self.inner.as_str()
    }
}

/// Secret half of a credential pair; it keys the request signature.
#[derive(Debug)]
pub struct KeySecret {
    inner: String,
}

impl View for KeySecret {
    type V = Seq<char>;

    closed spec fn view(&self) -> Seq<char> {
        self.inner@
    }
}

impl Clone for KeySecret {
    fn clone(&self) -> (r: Self)
        ensures
            r@ == self@,
    {
        Self { inner: self.inner.clone() }
    }
}

impl KeySecret {
    /// Creates a new `KeySecret` from the given string.
    pub fn new(secret: String) -> (r: Self)
        ensures
            r@ == secret@,
    {
        Self { inner: secret }
    }

    /// Creates a new `KeySecret` from a string slice.
    pub fn from_static(secret: &str) -> (r: Self)
        ensures
            r@ == secret@,
    {
        Self { inner: secret.to_owned() }
    }

    /// The secret as UTF-8 bytes, ready to key the signing primitive.
    pub fn as_bytes(&self) -> (r: &[u8])
        ensures
            r@ == vstd::utf8::encode_utf8(self@),
    {
        self.inner.as_str().as_bytes()
    }

    /// Borrows the secret as a string slice.
    pub fn as_str(&self) -> (r: &str)
        ensures
            r@ == self@,
    {
        self.inner.as_str()
    }
}


/// A service region; each maps to one well-known endpoint host.
#[derive(Clone, Copy, Debug, PartialEq, Eq, Structural)]
pub enum EndPoint {
    CnHangzhou,
    CnShanghai,
    CnQingdao,
    CnBeijing,
    CnZhangjiakou,
    CnHongkong,
    CnShenzhen,
    UsWest1,
    UsEast1,
    ApSouthEast1,
}

/// The region identifier embedded in an endpoint host name.
pub open spec fn spec_endpoint_str(e: EndPoint) -> Seq<char> {
    match e {
        EndPoint::CnHangzhou => "cn-hangzhou"@,
        EndPoint::CnShanghai => "cn-shanghai"@,
        EndPoint::CnQingdao => "cn-qingdao"@,
        EndPoint::CnBeijing => "cn-beijing"@,
        EndPoint::CnZhangjiakou => "cn-zhangjiakou"@,
        EndPoint::CnHongkong => "cn-hongkong"@,
        EndPoint::CnShenzhen => "cn-shenzhen"@,
        EndPoint::UsWest1 => "us-west1"@,
        EndPoint::UsEast1 => "us-east1"@,
        EndPoint::ApSouthEast1 => "ap-south-east1"@,
    }
}

/// Which region a free-form endpoint string designates: the first of these
/// markers that occurs in it decides.
pub open spec fn spec_endpoint_of(u: Seq<char>) -> Option<EndPoint> {
    if contains_seq(u, "shanghai"@) {
        Some(EndPoint::CnShanghai)
    } else if contains_seq(u, "hangzhou"@) {
        Some(EndPoint::CnHangzhou)
    } else if contains_seq(u, "qingdao"@) {
        Some(EndPoint::CnQingdao)
    } else if contains_seq(u, "beijing"@) {
        Some(EndPoint::CnBeijing)
    } else if contains_seq(u, "zhangjiakou"@) {
        Some(EndPoint::CnZhangjiakou)
    } else if contains_seq(u, "hongkong"@) {
        Some(EndPoint::CnHongkong)
    } else if contains_seq(u, "shenzhen"@) {
        Some(EndPoint::CnShenzhen)
    } else if contains_seq(u, "us-west1"@) {
        Some(EndPoint::UsWest1)
    } else if contains_seq(u, "us-east1"@) {
        Some(EndPoint::UsEast1)
    } else if contains_seq(u, "ap-south-east1"@) {
        Some(EndPoint::ApSouthEast1)
    } else {
        None
    }
}

impl EndPoint {
    /// The region identifier as a string slice.
    pub fn as_ref(&self) -> (r: &'static str)
        ensures
            r@ == spec_endpoint_str(*self),
    {
        match *self {
            EndPoint::CnHangzhou => "cn-hangzhou",
            EndPoint::CnShanghai => "cn-shanghai",
            EndPoint::CnQingdao => "cn-qingdao",
            EndPoint::CnBeijing => "cn-beijing",
            EndPoint::CnZhangjiakou => "cn-zhangjiakou",
            EndPoint::CnHongkong => "cn-hongkong",
            EndPoint::CnShenzhen => "cn-shenzhen",
            EndPoint::UsWest1 => "us-west1",
            EndPoint::UsEast1 => "us-east1",
            EndPoint::ApSouthEast1 => "ap-south-east1",
        }
    }

    /// Recognizes a region from a free-form endpoint string.
    pub fn new(url: &str) -> (r: Result<Self, InvalidEndPoint>)
        ensures
            match r {
                Ok(e) => spec_endpoint_of(url@) == Some(e),
                Err(_) => spec_endpoint_of(url@) is None,
            },
    {
        if str_contains(url, "shanghai") {
            Ok(Self::CnShanghai)
        } else if str_contains(url, "hangzhou") {
            Ok(Self::CnHangzhou)
        } else if str_contains(url, "qingdao") {
            Ok(Self::CnQingdao)
        } else if str_contains(url, "beijing") {
            Ok(Self::CnBeijing)
        } else if str_contains(url, "zhangjiakou") {
            Ok(Self::CnZhangjiakou)
        } else if str_contains(url, "hongkong") {
            Ok(Self::CnHongkong)
        } else if str_contains(url, "shenzhen") {
            Ok(Self::CnShenzhen)
        } else if str_contains(url, "us-west1") {
            Ok(Self::UsWest1)
        } else if str_contains(url, "us-east1") {
            Ok(Self::UsEast1)
        } else if str_contains(url, "ap-south-east1") {
            Ok(Self::ApSouthEast1)
        } else {
            Err(InvalidEndPoint)
        }
    }

    /// Recognizes a region from a string that is known to designate one.
    pub fn from_static(url: &str) -> (r: Self)
        requires
            spec_endpoint_of(url@) is Some,
        ensures
            spec_endpoint_of(url@) == Some(r),
    {
        match Self::new(url) {
            Ok(e) => e,
            Err(_) => EndPoint::CnHangzhou,
        }
    }

    /// The full https URL of the region's endpoint host.
    pub fn to_url(&self) -> (r: String)
        ensures
            r@ == "https://oss-"@ + spec_endpoint_str(*self) + ".aliyuncs.com"@,
    {
        let mut url = "https://oss-".to_owned();
        url.append(self.as_ref());
        url.append(".aliyuncs.com");
        url
    }
}

impl Default for EndPoint {
    fn default() -> (r: Self)
        ensures
            r == EndPoint::CnHangzhou,
    {
        EndPoint::CnHangzhou
    }
}

/// Rejection of an endpoint string that names no known region.
#[derive(Clone, Copy, Debug, PartialEq, Eq, Structural)]
pub struct InvalidEndPoint;

/// Name of a storage bucket.
#[derive(Debug, PartialEq, Eq)]
pub struct BucketName {
    inner: String,
}

impl View for BucketName {
    type V = Seq<char>;

    closed spec fn view(&self) -> Seq<char> {
        self.inner@
    }
}

impl Clone for BucketName {
    fn clone(&self) -> (r: Self)
        ensures
            r@ == self@,
    {
        Self { inner: self.inner.clone() }
    }
}

impl Default for BucketName {
    fn default() -> (r: Self)
        ensures
            r@ == Seq::<char>::empty(),
    {
        Self { inner: String::new() }
    }
}

impl BucketName {
    /// Creates a new `BucketName` from the given string.
    pub fn new(bucket: String) -> (r: Self)
        ensures
            r@ == bucket@,
    {
        Self { inner: bucket }
    }

    /// Creates a new `BucketName` from a string slice.
    pub fn from_static(bucket: &str) -> (r: Self)
        ensures
            r@ == bucket@,
    {
        Self { inner: bucket.to_owned() }
    }

    /// Borrows the bucket name as a string slice.
    pub fn as_str(&self) -> (r: &str)
        ensures
            r@ == self@,
    {
        self.inner.as_str()
    }
}

/// Base64-encoded MD5 digest of a request body.
#[derive(Debug, PartialEq, Eq)]
pub struct ContentMd5 {
    inner: String,
}

impl View for ContentMd5 {
    type V = Seq<char>;

    closed spec fn view(&self) -> Seq<char> {
        self.inner@
    }
}

impl Clone for ContentMd5 {
    fn clone(&self) -> (r: Self)
        ensures
            r@ == self@,
    {
        Self { inner: self.inner.clone() }
    }
}

impl ContentMd5 {
    /// Creates a new `ContentMd5` from the given string.
    pub fn new(val: String) -> (r: Self)
        ensures
            r@ == val@,
    {
        Self { inner: val }
    }

    /// Creates a new `ContentMd5` from a string slice.
    pub fn from_static(val: &str) -> (r: Self)
        ensures
            r@ == val@,
    {
        Self { inner: val.to_owned() }
    }

    /// Borrows the digest as a string slice.
    pub fn as_str(&self) -> (r: &str)
        ensures
            r@ == self@,
    {
        self.inner.as_str()
    }
}

/// Media type of a request body.
#[derive(Debug, PartialEq, Eq)]
pub struct ContentType {
    inner: String,
}

impl View for ContentType {
    type V = Seq<char>;

    closed spec fn view(&self) -> Seq<char> {
        self.inner@
    }
}

impl Clone for ContentType {
    fn clone(&self) -> (r: Self)
        ensures
            r@ == self@,
    {
        Self { inner: self.inner.clone() }
    }
}

impl ContentType {
    /// Creates a new `ContentType` from the given string.
    pub fn new(val: String) -> (r: Self)
        ensures
            r@ == val@,
    {
        Self { inner: val }
    }

    /// Creates a new `ContentType` from a string slice.
    pub fn from_static(val: &str) -> (r: Self)
        ensures
            r@ == val@,
    {
        Self { inner: val.to_owned() }
    }

    /// Borrows the media type as a string slice.
    pub fn as_str(&self) -> (r: &str)
        ensures
            r@ == self@,
    {
        self.inner.as_str()
    }
}

/// RFC 1123 date line of a request; the service checks it against its clock.
#[derive(Debug, PartialEq, Eq)]
pub struct Date {
    inner: String,
}

impl View for Date {
    type V = Seq<char>;

    closed spec fn view(&self) -> Seq<char> {
        self.inner@
    }
}

impl Clone for Date {
    fn clone(&self) -> (r: Self)
        ensures
            r@ == self@,
    {
        Self { inner: self.inner.clone() }
    }
}

impl Default for Date {
    fn default() -> (r: Self)
        ensures
            r@ == Seq::<char>::empty(),
    {
        Self { inner: String::new() }
    }
}

impl Date {
    /// Creates a new `Date` from the given string.
    pub fn new(val: String) -> (r: Self)
        ensures
            r@ == val@,
    {
        Self { inner: val }
    }

    /// Creates a new `Date` from a string slice.
    pub fn from_static(val: &str) -> (r: Self)
        ensures
            r@ == val@,
    {
        Self { inner: val.to_owned() }
    }

    /// Borrows the date line as a string slice.
    pub fn as_str(&self) -> (r: &str)
        ensures
            r@ == self@,
    {
        self.inner.as_str()
    }
}


/// Key of one query-string parameter.
#[derive(Debug, PartialEq, Eq)]
pub struct QueryKey {
    inner: String,
}

impl View for QueryKey {
    type V = Seq<char>;

    closed spec fn view(&self) -> Seq<char> {
        self.inner@
    }
}

impl Clone for QueryKey {
    fn clone(&self) -> (r: Self)
        ensures
            r@ == self@,
    {
        Self { inner: self.inner.clone() }
    }
}

impl QueryKey {
    /// Creates a new `QueryKey` from the given string.
    pub fn new(val: String) -> (r: Self)
        ensures
            r@ == val@,
    {
        Self { inner: val }
    }

    /// Creates a new `QueryKey` from a string slice.
    pub fn from_static(val: &str) -> (r: Self)
        ensures
            r@ == val@,
    {
        Self { inner: val.to_owned() }
    }

    /// Borrows the key as a string slice.
    pub fn as_str(&self) -> (r: &str)
        ensures
            r@ == self@,
    {
        self.inner.as_str()
    }
}

/// Value of one query-string parameter.
#[derive(Debug, PartialEq, Eq)]
pub struct QueryValue {
    inner: String,
}

impl View for QueryValue {
    type V = Seq<char>;

    closed spec fn view(&self) -> Seq<char> {
        self.inner@
    }
}

impl Clone for QueryValue {
    fn clone(&self) -> (r: Self)
        ensures
            r@ == self@,
    {
        Self { inner: self.inner.clone() }
    }
}

impl QueryValue {
    /// Creates a new `QueryValue` from the given string.
    pub fn new(val: String) -> (r: Self)
        ensures
            r@ == val@,
    {
        Self { inner: val }
    }

    /// Creates a new `QueryValue` from a string slice.
    pub fn from_static(val: &str) -> (r: Self)
        ensures
            r@ == val@,
    {
        Self { inner: val.to_owned() }
    }

    /// Borrows the value as a string slice.
    pub fn as_str(&self) -> (r: &str)
        ensures
            r@ == self@,
    {
        self.inner.as_str()
    }
}

/// No key occurs twice.
pub open spec fn query_wf(q: Seq<(Seq<char>, Seq<char>)>) -> bool {
    forall|i: int, j: int| 0 <= i < j < q.len() ==> q[i].0 != q[j].0
}

/// Value of the first entry carrying `k`, if any.
pub open spec fn spec_query_get(q: Seq<(Seq<char>, Seq<char>)>, k: Seq<char>) -> Option<Seq<char>>
    decreases q.len(),
{
    if q.len() == 0 {
        None
    } else if q[0].0 == k {
        Some(q[0].1)
    } else {
        spec_query_get(q.drop_first(), k)
    }
}

/// Index of the first entry carrying `k`, or -1.
pub open spec fn spec_query_find(q: Seq<(Seq<char>, Seq<char>)>, k: Seq<char>) -> int
    decreases q.len(),
{
    if q.len() == 0 {
        -1
    } else if q[0].0 == k {
        0
    } else if spec_query_find(q.drop_first(), k) < 0 {
        -1
    } else {
        1 + spec_query_find(q.drop_first(), k)
    }
}

/// The map after binding `k` to `v`: overwritten in place, or appended.
pub open spec fn spec_query_set(
    q: Seq<(Seq<char>, Seq<char>)>,
    k: Seq<char>,
    v: Seq<char>,
) -> Seq<(Seq<char>, Seq<char>)> {
    let j = spec_query_find(q, k);
    if j < 0 {
        q.push((k, v))
    } else {
        q.update(j, (k, v))
    }
}

/// `k=v` for one entry.
pub open spec fn spec_query_pair(p: (Seq<char>, Seq<char>)) -> Seq<char> {
    p.0 + "="@ + p.1
}

/// `k=v&k=v&...` for the whole map, without a leading separator.
pub open spec fn spec_url_query(q: Seq<(Seq<char>, Seq<char>)>) -> Seq<char> {
    if q.len() == 0 {
        Seq::empty()
    } else {
        spec_query_pair(q[0]) + spec_amp_query(q.drop_first())
    }
}

/// `&k=v` repeated for every entry.
pub open spec fn spec_amp_query(q: Seq<(Seq<char>, Seq<char>)>) -> Seq<char>
    decreases q.len(),
{
    if q.len() == 0 {
        Seq::empty()
    } else {
        "&"@ + spec_query_pair(q[0]) + spec_amp_query(q.drop_first())
    }
}

proof fn lemma_amp_query_push(q: Seq<(Seq<char>, Seq<char>)>, x: (Seq<char>, Seq<char>))
    ensures
        spec_amp_query(q.push(x)) == spec_amp_query(q) + "&"@ + spec_query_pair(x),
    decreases q.len(),
{
    if q.len() == 0 {
        assert(q.push(x).drop_first() =~= q);
        assert(spec_amp_query(q.push(x)) =~= spec_amp_query(q) + "&"@ + spec_query_pair(x));
    } else {
        assert(q.push(x).drop_first() =~= q.drop_first().push(x));
        lemma_amp_query_push(q.drop_first(), x);
        assert(spec_amp_query(q.push(x)) =~= spec_amp_query(q) + "&"@ + spec_query_pair(x));
    }
}

proof fn lemma_url_query_push(q: Seq<(Seq<char>, Seq<char>)>, x: (Seq<char>, Seq<char>))
    requires
        q.len() > 0,
    ensures
        spec_url_query(q.push(x)) == spec_url_query(q) + "&"@ + spec_query_pair(x),
{
    assert(q.push(x).drop_first() =~= q.drop_first().push(x));
    lemma_amp_query_push(q.drop_first(), x);
    assert(q.push(x)[0] == q[0]);
    assert(spec_url_query(q.push(x)) =~= spec_url_query(q) + "&"@ + spec_query_pair(x));
}

/// Query parameters of one list request: an unordered map from key to value
/// with no duplicate keys, kept in insertion order.
#[derive(Debug)]
pub struct Query {
    inner: Vec<(QueryKey, QueryValue)>,
}

impl View for Query {
    type V = Seq<(Seq<char>, Seq<char>)>;

    closed spec fn view(&self) -> Seq<(Seq<char>, Seq<char>)> {
        self.inner@.map_values(|p: (QueryKey, QueryValue)| (p.0@, p.1@))
    }
}

impl Clone for Query {
    fn clone(&self) -> (r: Self)
        ensures
            r@ == self@,
    {
        let mut inner: Vec<(QueryKey, QueryValue)> = Vec::new();
        let mut i: usize = 0;
        while i < self.inner.len()
            invariant
                0 <= i <= self.inner.len(),
                inner@.map_values(|p: (QueryKey, QueryValue)| (p.0@, p.1@)) =~= self@.subrange(
                    0,
                    i as int,
                ),
            decreases self.inner.len() - i,
        {
            let k = self.inner[i].0.clone();
            let v = self.inner[i].1.clone();
            inner.push((k, v));
            proof {
                let f = |p: (QueryKey, QueryValue)| (p.0@, p.1@);
                assert(inner@.map_values(f) =~= inner@.drop_last().map_values(f).push(
                    (k@, v@),
                ));
                assert(self@.subrange(0, i + 1) =~= self@.subrange(0, i as int).push(
                    self@[i as int],
                ));
            }
            i += 1;
        }
        assert(self@.subrange(0, self.inner@.len() as int) =~= self@);
        Self { inner }
    }
}

impl Default for Query {
    fn default() -> (r: Self)
        ensures
            r@ == Seq::<(Seq<char>, Seq<char>)>::empty(),
    {
        Self { inner: Vec::new() }
    }
}

impl Query {
    /// Creates an empty query map.
    pub fn new() -> (r: Self)
        ensures
            r@ == Seq::<(Seq<char>, Seq<char>)>::empty(),
            query_wf(r@),
    {
        Self { inner: Vec::new() }
    }

    /// Number of entries.
    pub fn len(&self) -> (r: usize)
        ensures
            r == self@.len(),
    {
        self.inner.len()
    }

    /// Binds `key` to `value`: an existing entry is overwritten in place,
    /// a fresh key is appended.
    pub fn insert(&mut self, key: QueryKey, value: QueryValue)
        ensures
            final(self)@ == spec_query_set(old(self)@, key@, value@),
            query_wf(old(self)@) ==> query_wf(final(self)@),
    {
        let ghost q0 = self@;
        let ghost kv = (key@, value@);
        let mut i: usize = 0;
        assert(q0.skip(0) =~= q0);
        while i < self.inner.len()
            invariant
                q0 == old(self)@,
                self@ == q0,
                kv == (key@, value@),
                0 <= i <= self.inner@.len(),
                forall|j: int| 0 <= j < i ==> q0[j].0 != key@,
                spec_query_find(q0, key@) == if spec_query_find(q0.skip(i as int), key@) < 0 {
                    -1int
                } else {
                    i + spec_query_find(q0.skip(i as int), key@)
                },
            decreases self.inner@.len() - i,
        {
            assert(q0.skip(i as int)[0] == q0[i as int]);
            if str_eq(self.inner[i].0.as_str(), key.as_str()) {
                assert(spec_query_find(q0, key@) == i as int);
                assert(q0[i as int].0 == kv.0);
                self.inner[i] = (key, value);
                proof {
                    assert(self@ =~= q0.update(i as int, kv));
                    assert(self@ =~= spec_query_set(q0, kv.0, kv.1));
                    if query_wf(q0) {
                        assert forall|a: int, b: int|
                            0 <= a < b < self@.len() implies self@[a].0 != self@[b].0 by {
                            assert(self@[a].0 == q0[a].0);
                            assert(self@[b].0 == q0[b].0);
                        }
                    }
                }
                return ;
            }
            proof {
                assert(q0.skip(i as int).drop_first() =~= q0.skip(i + 1));
            }
            i += 1;
        }
        assert(q0.skip(i as int).len() == 0);
        assert(spec_query_find(q0, key@) < 0);
        self.inner.push((key, value));
        proof {
            let f = |p: (QueryKey, QueryValue)| (p.0@, p.1@);
            assert(self@ =~= self.inner@.drop_last().map_values(f).push(kv));
            assert(self@ =~= spec_query_set(q0, kv.0, kv.1));
            if query_wf(q0) {
                assert forall|a: int, b: int| 0 <= a < b < self@.len() implies self@[a].0
                    != self@[b].0 by {
                    if b == self@.len() - 1 {
                        assert(q0[a].0 != kv.0);
                    }
                }
            }
        }
    }

    /// Looks the value for `key` up.
    pub fn get(&self, key: &str) -> (r: Option<&QueryValue>)
        ensures
            match r {
                Some(v) => spec_query_get(self@, key@) == Some(v@),
                None => spec_query_get(self@, key@) is None,
            },
    {
        let mut i: usize = 0;
        assert(self@.skip(0) =~= self@);
        while i < self.inner.len()
            invariant
                0 <= i <= self.inner@.len(),
                spec_query_get(self@, key@) == spec_query_get(self@.skip(i as int), key@),
            decreases self.inner@.len() - i,
        {
            assert(self@.skip(i as int)[0] == self@[i as int]);
            if str_eq(self.inner[i].0.as_str(), key) {
                return Some(&self.inner[i].1);
            }
            proof {
                assert(self@.skip(i as int).drop_first() =~= self@.skip(i + 1));
            }
            i += 1;
        }
        assert(self@.skip(i as int).len() == 0);
        None
    }

    /// Removes the entry for `key`, handing its value back.
    pub fn remove(&mut self, key: &str) -> (r: Option<QueryValue>)
        ensures
            spec_query_find(old(self)@, key@) < 0 ==> r is None && final(self)@ == old(self)@,
            spec_query_find(old(self)@, key@) >= 0 ==> {
                let j = spec_query_find(old(self)@, key@);
                r matches Some(v) && v@ == old(self)@[j].1 && final(self)@ == old(self)@.remove(
                    j,
                )
            },
            query_wf(old(self)@) ==> query_wf(final(self)@),
    {
        let ghost q0 = self@;
        let mut i: usize = 0;
        assert(q0.skip(0) =~= q0);
        while i < self.inner.len()
            invariant
                q0 == old(self)@,
                self@ == q0,
                0 <= i <= self.inner@.len(),
                spec_query_find(q0, key@) == if spec_query_find(q0.skip(i as int), key@) < 0 {
                    -1int
                } else {
                    i + spec_query_find(q0.skip(i as int), key@)
                },
            decreases self.inner@.len() - i,
        {
            assert(q0.skip(i as int)[0] == q0[i as int]);
            if str_eq(self.inner[i].0.as_str(), key) {
                assert(spec_query_find(q0.skip(i as int), key@) == 0);
                assert(spec_query_find(q0, key@) == i as int);
                let entry = self.inner.remove(i);
                proof {
                    assert(self@ =~= q0.remove(i as int));
                    assert(entry.1@ == q0[i as int].1);
                }
                return Some(entry.1);
            }
            proof {
                assert(q0.skip(i as int).drop_first() =~= q0.skip(i + 1));
            }
            i += 1;
        }
        assert(q0.skip(i as int).len() == 0);
        assert(spec_query_find(q0, key@) < 0);
        None
    }

    /// The query string the list interface expects: a fixed protocol marker
    /// followed by every entry as `&key=value`.
    pub fn to_oss_string(&self) -> (r: String)
        ensures
            r@ == "list-type=2"@ + spec_amp_query(self@),
    {
        let mut out = "list-type=2".to_owned();
        let mut i: usize = 0;
        while i < self.inner.len()
            invariant
                0 <= i <= self.inner@.len(),
                out@ =~= "list-type=2"@ + spec_amp_query(self@.subrange(0, i as int)),
            decreases self.inner@.len() - i,
        {
            out.append("&");
            out.append(self.inner[i].0.as_str());
            out.append("=");
            out.append(self.inner[i].1.as_str());
            proof {
                lemma_amp_query_push(self@.subrange(0, i as int), self@[i as int]);
                assert(self@.subrange(0, i + 1) =~= self@.subrange(0, i as int).push(
                    self@[i as int],
                ));
                assert(out@ =~= "list-type=2"@ + spec_amp_query(self@.subrange(0, i + 1)));
            }
            i += 1;
        }
        assert(self@.subrange(0, self.inner@.len() as int) =~= self@);
        out
    }

    /// The entries joined as `key=value&key=value`, without any escaping.
    pub fn to_url_query(&self) -> (r: String)
        ensures
            r@ == spec_url_query(self@),
    {
        let mut out = String::new();
        if self.inner.len() == 0 {
            return out;
        }
        out.append(self.inner[0].0.as_str());
        out.append("=");
        out.append(self.inner[0].1.as_str());
        assert(out@ =~= spec_url_query(self@.subrange(0, 1)));
        let mut i: usize = 1;
        while i < self.inner.len()
            invariant
                1 <= i <= self.inner@.len(),
                out@ =~= spec_url_query(self@.subrange(0, i as int)),
            decreases self.inner@.len() - i,
        {
            out.append("&");
            out.append(self.inner[i].0.as_str());
            out.append("=");
            out.append(self.inner[i].1.as_str());
            proof {
                lemma_url_query_push(self@.subrange(0, i as int), self@[i as int]);
                assert(self@.subrange(0, i + 1) =~= self@.subrange(0, i as int).push(
                    self@[i as int],
                ));
                assert(out@ =~= spec_url_query(self@.subrange(0, i + 1)));
            }
            i += 1;
        }
        assert(self@.subrange(0, self.inner@.len() as int) =~= self@);
        out
    }
}

/// The path-and-query string of the target resource that enters the
/// signature; the service recomputes it on its side.
#[derive(Debug, PartialEq, Eq)]
pub struct CanonicalizedResource {
    inner: String,
}

impl View for CanonicalizedResource {
    type V = Seq<char>;

    closed spec fn view(&self) -> Seq<char> {
        self.inner@
    }
}

impl Clone for CanonicalizedResource {
    fn clone(&self) -> (r: Self)
        ensures
            r@ == self@,
    {
        Self { inner: self.inner.clone() }
    }
}

impl Default for CanonicalizedResource {
    fn default() -> (r: Self)
        ensures
            r@ == "/"@,
    {
        Self { inner: "/".to_owned() }
    }
}

/// The signed resource for a bucket-scoped request with an optional
/// sub-resource token: only the signable tokens enter the signature.
pub open spec fn spec_resource_bucket(b: Seq<char>, q: Option<Seq<char>>) -> Seq<char> {
    match q {
        Some(qs) => if qs == "acl"@ || qs == "bucketInfo"@ {
            "/"@ + b + "/?"@ + qs
        } else {
            "/"@ + b + "/"@
        },
        None => "/"@ + b + "/"@,
    }
}

/// The signed resource for a bucket list request: only the pagination
/// cursor in the query enters the signature.
pub open spec fn spec_resource_bucket_query(
    b: Seq<char>,
    q: Seq<(Seq<char>, Seq<char>)>,
) -> Seq<char> {
    match spec_query_get(q, "continuation-token"@) {
        Some(v) => "/"@ + b + "/?continuation-token="@ + v,
        None => "/"@ + b + "/"@,
    }
}

/// The signed resource for an object-scoped request.
pub open spec fn spec_resource_object(
    b: Seq<char>,
    path: Seq<char>,
    q: Option<Seq<(Seq<char>, Seq<char>)>>,
) -> Seq<char> {
    match q {
        Some(qs) => "/"@ + b + "/"@ + path + "?"@ + spec_url_query(qs),
        None => "/"@ + b + "/"@ + path,
    }
}

/// Every resource string the three builders produce is rooted: it starts
/// with a slash, whatever bucket, path and query went in.
pub proof fn lemma_resource_builders_rooted(
    b: Seq<char>,
    token: Option<Seq<char>>,
    q: Seq<(Seq<char>, Seq<char>)>,
    path: Seq<char>,
    oq: Option<Seq<(Seq<char>, Seq<char>)>>,
)
    ensures
        spec_resource_bucket(b, token).len() > 0 && spec_resource_bucket(b, token)[0] == '/',
        spec_resource_bucket_query(b, q).len() > 0 && spec_resource_bucket_query(b, q)[0] == '/',
        spec_resource_object(b, path, oq).len() > 0 && spec_resource_object(b, path, oq)[0]
            == '/',
{
    reveal_strlit("/");
    assert("/"@[0] == '/');
}

impl CanonicalizedResource {
    /// Creates a new `CanonicalizedResource` from the given string.
    pub fn new(val: String) -> (r: Self)
        ensures
            r@ == val@,
    {
        Self { inner: val }
    }

    /// Creates a new `CanonicalizedResource` from a string slice.
    pub fn from_static(val: &str) -> (r: Self)
        ensures
            r@ == val@,
    {
        Self { inner: val.to_owned() }
    }

    /// Borrows the resource string as a string slice.
    pub fn as_str(&self) -> (r: &str)
        ensures
            r@ == self@,
    {
        self.inner.as_str()
    }

    /// Signed resource of a bucket-scoped request; of the sub-resource
    /// tokens only the signable ones are kept.
    pub fn from_bucket(bucket: &BucketName, query: Option<&str>) -> (r: Self)
        ensures
            r@ == spec_resource_bucket(
                bucket@,
                match query {
                    Some(q) => Some(q@),
                    None => None,
                },
            ),
    {
        let mut out = "/".to_owned();
        out.append(bucket.as_str());
        match query {
            Some(q) => {
                if str_eq(q, "acl") || str_eq(q, "bucketInfo") {
                    out.append("/?");
                    out.append(q);
                } else {
                    out.append("/");
                }
            },
            None => {
                out.append("/");
            },
        }
        Self { inner: out }
    }

    /// Signed resource of a bucket list request: the pagination cursor is
    /// kept, every other query entry is dropped from the signature.
    pub fn from_bucket_query(bucket: &BucketName, query: &Query) -> (r: Self)
        ensures
            r@ == spec_resource_bucket_query(bucket@, query@),
    {
        let mut out = "/".to_owned();
        out.append(bucket.as_str());
        match query.get("continuation-token") {
            Some(v) => {
                out.append("/?continuation-token=");
                out.append(v.as_str());
            },
            None => {
                out.append("/");
            },
        }
        Self { inner: out }
    }

    /// Signed resource of an object-scoped request.
    pub fn from_object(bucket: &BucketName, path: &str, query: Option<&Query>) -> (r: Self)
        ensures
            r@ == spec_resource_object(
                bucket@,
                path@,
                match query {
                    Some(q) => Some(q@),
                    None => None,
                },
            ),
    {
        let mut out = "/".to_owned();
        out.append(bucket.as_str());
        out.append("/");
        out.append(path);
        match query {
            Some(q) => {
                out.append("?");
                let qs = q.to_url_query();
                out.append(qs.as_str());
            },
            None => {},
        }
        Self { inner: out }
    }
}


#[verifier::external_type_specification]
#[verifier::external_body]
pub struct ExUrl(reqwest::Url);

/// Relies on the url crate's `Url::set_query`: replaces the URL's query
/// string; nothing further is claimed of the URL's state.
pub assume_specification[ reqwest::Url::set_query ](url: &mut reqwest::Url, query: Option<&str>);

/// Writing this library's query maps onto a URL.
pub trait UrlQuery {
    /// Replaces the URL's query string with the map, in the list
    /// interface's format.
    fn set_search_query(&mut self, query: &Query);
}

impl UrlQuery for reqwest::Url {
    fn set_search_query(&mut self, query: &Query) {
        let q = query.to_oss_string();
        self.set_query(Some(q.as_str()));
    }
}

} // verus!
