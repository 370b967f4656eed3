//! The request-signing engine: canonical string construction, vendor-header
//! selection and ordering, HMAC-SHA1 signing and header assembly.

use vstd::prelude::*;

use crate::errors::SignError;
use crate::strutil::ascii_lowercase;
use crate::strutil::lex_le;
use crate::strutil::lower_chars;
use crate::strutil::str_eq;
use crate::strutil::str_le;
use crate::types::spec_query_find;
use crate::types::spec_query_get;
use crate::types::spec_query_set;
use crate::types::query_wf;
use crate::types::CanonicalizedResource;
use crate::types::ContentMd5;
use crate::types::ContentType;
use crate::types::Date;
use crate::types::KeyId;
use crate::types::KeySecret;
use hmac::Mac;
use vstd::string::StrSliceExecFns;
use vstd::string::StringExecFns;

verus! {

/// HTTP method of a request; the method's name opens the canonical string.
#[derive(Clone, Copy, Debug, PartialEq, Eq, Structural)]
#[allow(clippy::upper_case_acronyms)]
pub enum VERB {
    Get,
    Post,
    Put,
    Delete,
    Head,
    Options,
    Connect,
    Patch,
    Trace,
}

/// The method a name designates; an unknown name falls back to `Get`.
pub open spec fn spec_verb_of(s: Seq<char>) -> VERB {
    if s == "POST"@ {
        VERB::Post
    } else if s == "PUT"@ {
        VERB::Put
    } else if s == "DELETE"@ {
        VERB::Delete
    } else if s == "HEAD"@ {
        VERB::Head
    } else if s == "OPTIONS"@ {
        VERB::Options
    } else if s == "CONNECT"@ {
        VERB::Connect
    } else if s == "PATCH"@ {
        VERB::Patch
    } else if s == "TRACE"@ {
        VERB::Trace
    } else {
        VERB::Get
    }
}

/// The method's name as it enters the canonical string.
pub open spec fn spec_verb_str(v: VERB) -> Seq<char> {
    match v {
        VERB::Get => "GET"@,
        VERB::Post => "POST"@,
        VERB::Put => "PUT"@,
        VERB::Delete => "DELETE"@,
        VERB::Head => "HEAD"@,
        VERB::Options => "OPTIONS"@,
        VERB::Connect => "CONNECT"@,
        VERB::Patch => "PATCH"@,
        VERB::Trace => "TRACE"@,
    }
}

impl VERB {
    /// The method's name.
    pub fn to_string(&self) -> (r: String)
        ensures
            r@ == spec_verb_str(*self),
    {
        let s: &str = match *self {
            VERB::Get => "GET",
            VERB::Post => "POST",
            VERB::Put => "PUT",
            VERB::Delete => "DELETE",
            VERB::Head => "HEAD",
            VERB::Options => "OPTIONS",
            VERB::Connect => "CONNECT",
            VERB::Patch => "PATCH",
            VERB::Trace => "TRACE",
        };
        s.to_owned()
    }

    /// Reads a method from its name; an unknown name falls back to `Get`.
    pub fn from_static(s: &str) -> (r: Self)
        ensures
            r == spec_verb_of(s@),
    {
        if str_eq(s, "POST") {
            VERB::Post
        } else if str_eq(s, "PUT") {
            VERB::Put
        } else if str_eq(s, "DELETE") {
            VERB::Delete
        } else if str_eq(s, "HEAD") {
            VERB::Head
        } else if str_eq(s, "OPTIONS") {
            VERB::Options
        } else if str_eq(s, "CONNECT") {
            VERB::Connect
        } else if str_eq(s, "PATCH") {
            VERB::Patch
        } else if str_eq(s, "TRACE") {
            VERB::Trace
        } else {
            VERB::Get
        }
    }
}

impl Default for VERB {
    fn default() -> (r: Self)
        ensures
            r == VERB::Get,
    {
        VERB::Get
    }
}

/// One transport header: a name (kept ASCII-lowercase) and its value.
#[derive(Debug)]
pub struct Header {
    /// Header name, ASCII-lowercase.
    pub name: String,
    /// Header value.
    pub value: String,
}

impl View for Header {
    type V = (Seq<char>, Seq<char>);

    open spec fn view(&self) -> (Seq<char>, Seq<char>) {
        (self.name@, self.value@)
    }
}

impl Clone for Header {
    fn clone(&self) -> (r: Self)
        ensures
            r@ == self@,
    {
        Self { name: self.name.clone(), value: self.value.clone() }
    }
}

/// Every name is ASCII-lowercase and occurs once.
pub open spec fn headers_wf(s: Seq<(Seq<char>, Seq<char>)>) -> bool {
    &&& query_wf(s)
    &&& forall|i: int| 0 <= i < s.len() ==> lower_chars(#[trigger] s[i].0) == s[i].0
}

/// The header set of one request: an insertion-ordered map from
/// case-insensitive header name to value.
#[derive(Debug)]
pub struct Headers {
    entries: Vec<Header>,
}

impl View for Headers {
    type V = Seq<(Seq<char>, Seq<char>)>;

    closed spec fn view(&self) -> Seq<(Seq<char>, Seq<char>)> {
        self.entries@.map_values(|h: Header| h@)
    }
}

impl Clone for Headers {
    fn clone(&self) -> (r: Self)
        ensures
            r@ == self@,
    {
        let mut entries: Vec<Header> = Vec::new();
        let mut i: usize = 0;
        while i < self.entries.len()
            invariant
                0 <= i <= self.entries.len(),
                entries@.map_values(|h: Header| h@) =~= self@.subrange(0, i as int),
            decreases self.entries.len() - i,
        {
            let h = self.entries[i].clone();
            let ghost hv = h@;
            entries.push(h);
            proof {
                assert(entries@.map_values(|h: Header| h@) =~= entries@.drop_last().map_values(
                    |h: Header| h@,
                ).push(hv));
                assert(self@.subrange(0, i + 1) =~= self@.subrange(0, i as int).push(
                    self@[i as int],
                ));
            }
            i += 1;
        }
        assert(self@.subrange(0, self.entries@.len() as int) =~= self@);
        Self { entries }
    }
}

impl Default for Headers {
    fn default() -> (r: Self)
        ensures
            r@ == Seq::<(Seq<char>, Seq<char>)>::empty(),
    {
        Self { entries: Vec::new() }
    }
}

impl Headers {
    /// Creates an empty header set.
    pub fn new() -> (r: Self)
        ensures
            r@ == Seq::<(Seq<char>, Seq<char>)>::empty(),
            headers_wf(r@),
    {
        Self { entries: Vec::new() }
    }

    /// Number of headers.
    pub fn len(&self) -> (r: usize)
        ensures
            r == self@.len(),
    {
        self.entries.len()
    }

    /// The header at position `i`, in insertion order.
    pub fn at(&self, i: usize) -> (r: &Header)
        requires
            i < self@.len(),
        ensures
            r@ == self@[i as int],
    {
        &self.entries[i]
    }

    /// Binds `name` (taken case-insensitively) to `value`: an existing
    /// header is overwritten in place, a fresh one appended.
    pub fn insert(&mut self, name: &str, value: String)
        ensures
            final(self)@ == spec_query_set(old(self)@, lower_chars(name@), value@),
            headers_wf(old(self)@) ==> headers_wf(final(self)@),
    {
        let low = ascii_lowercase(name);
        let ghost q0 = self@;
        let ghost kv = (low@, value@);
        let mut i: usize = 0;
        assert(q0.skip(0) =~= q0);
        while i < self.entries.len()
            invariant
                q0 == old(self)@,
                self@ == q0,
                kv == (lower_chars(name@), value@),
                kv.0 == low@,
                0 <= i <= self.entries@.len(),
                forall|j: int| 0 <= j < i ==> q0[j].0 != kv.0,
                spec_query_find(q0, kv.0) == if spec_query_find(q0.skip(i as int), kv.0) < 0 {
                    -1int
                } else {
                    i + spec_query_find(q0.skip(i as int), kv.0)
                },
            decreases self.entries@.len() - i,
        {
            assert(q0.skip(i as int)[0] == q0[i as int]);
            if str_eq(self.entries[i].name.as_str(), low.as_str()) {
                assert(spec_query_find(q0, kv.0) == i as int);
                assert(q0[i as int].0 == kv.0);
                self.entries[i] = Header { name: low, value };
                proof {
                    assert(self@ =~= q0.update(i as int, kv));
                    assert(self@ =~= spec_query_set(q0, kv.0, kv.1));
                    if headers_wf(q0) {
                        assert forall|a: int, b: int|
                            0 <= a < b < self@.len() implies self@[a].0 != self@[b].0 by {
                            assert(self@[a].0 == q0[a].0);
                            assert(self@[b].0 == q0[b].0);
                        }
                        assert forall|a: int|
                            0 <= a < self@.len() implies lower_chars(#[trigger] self@[a].0)
                            == self@[a].0 by {
                            if a != i {
                                assert(self@[a].0 == q0[a].0);
                            } else {
                                lemma_lower_chars_idempotent(name@);
                            }
                        }
                    }
                }
                return ;
            }
            proof {
                assert(q0.skip(i as int).drop_first() =~= q0.skip(i + 1));
            }
            i += 1;
        }
        assert(q0.skip(i as int).len() == 0);
        assert(spec_query_find(q0, kv.0) < 0);
        self.entries.push(Header { name: low, value });
        proof {
            assert(self@ =~= self.entries@.drop_last().map_values(|h: Header| h@).push(kv));
            assert(self@ =~= spec_query_set(q0, kv.0, kv.1));
            if headers_wf(q0) {
                assert forall|a: int, b: int|
                    0 <= a < b < self@.len() implies self@[a].0 != self@[b].0 by {
                    if b == self@.len() - 1 {
                        assert(q0[a].0 != kv.0);
                    }
                }
                assert forall|a: int|
                    0 <= a < self@.len() implies lower_chars(#[trigger] self@[a].0)
                    == self@[a].0 by {
                    if a == self@.len() - 1 {
                        lemma_lower_chars_idempotent(name@);
                    }
                }
            }
        }
    }

    /// Looks the value for `name` up, case-insensitively.
    pub fn get(&self, name: &str) -> (r: Option<&String>)
        ensures
            match r {
                Some(v) => spec_query_get(self@, lower_chars(name@)) == Some(v@),
                None => spec_query_get(self@, lower_chars(name@)) is None,
            },
    {
        let low = ascii_lowercase(name);
        let mut i: usize = 0;
        assert(self@.skip(0) =~= self@);
        while i < self.entries.len()
            invariant
                low@ == lower_chars(name@),
                0 <= i <= self.entries@.len(),
                spec_query_get(self@, low@) == spec_query_get(self@.skip(i as int), low@),
            decreases self.entries@.len() - i,
        {
            assert(self@.skip(i as int)[0] == self@[i as int]);
            if str_eq(self.entries[i].name.as_str(), low.as_str()) {
                return Some(&self.entries[i].value);
            }
            proof {
                assert(self@.skip(i as int).drop_first() =~= self@.skip(i + 1));
            }
            i += 1;
        }
        assert(self@.skip(i as int).len() == 0);
        None
    }

    /// Removes every header.
    pub fn clear(&mut self)
        ensures
            final(self)@ == Seq::<(Seq<char>, Seq<char>)>::empty(),
    {
        self.entries = Vec::new();
    }
}

/// Lowercasing a sequence twice lowercases it once.
proof fn lemma_lower_chars_idempotent(s: Seq<char>)
    ensures
        lower_chars(lower_chars(s)) == lower_chars(s),
{
    assert(lower_chars(lower_chars(s)) =~= lower_chars(s));
}

/// A vendor header: its name opens with the service's namespace prefix.
pub open spec fn is_vendor_name(s: Seq<char>) -> bool {
    s.len() >= 6 && s[0] == 'x' && s[1] == '-' && s[2] == 'o' && s[3] == 's' && s[4] == 's'
        && s[5] == '-'
}

/// The vendor headers of a header set, in insertion order.
pub open spec fn spec_vendor_headers(s: Seq<(Seq<char>, Seq<char>)>) -> Seq<
    (Seq<char>, Seq<char>),
> {
    s.filter(|p: (Seq<char>, Seq<char>)| is_vendor_name(p.0))
}

/// Inserts one header into a name-sorted run, before the first strictly
/// greater name.
pub open spec fn hdr_insert_sorted(
    x: (Seq<char>, Seq<char>),
    s: Seq<(Seq<char>, Seq<char>)>,
) -> Seq<(Seq<char>, Seq<char>)>
    decreases s.len(),
{
    if s.len() == 0 {
        seq![x]
    } else if lex_le(s[0].0, x.0) {
        seq![s[0]] + hdr_insert_sorted(x, s.drop_first())
    } else {
        seq![x] + s
    }
}

/// Sorts a header run by name, ascending; insertion keeps equal names
/// in insertion order.
pub open spec fn spec_sort_headers(s: Seq<(Seq<char>, Seq<char>)>) -> Seq<(Seq<char>, Seq<char>)>
    decreases s.len(),
{
    if s.len() == 0 {
        Seq::empty()
    } else {
        hdr_insert_sorted(s.last(), spec_sort_headers(s.drop_last()))
    }
}

/// `name:value` for one header.
pub open spec fn spec_header_line(p: (Seq<char>, Seq<char>)) -> Seq<char> {
    p.0 + ":"@ + p.1
}

/// One line-break-prefixed line per header.
pub open spec fn spec_lines_tail(s: Seq<(Seq<char>, Seq<char>)>) -> Seq<char>
    decreases s.len(),
{
    if s.len() == 0 {
        Seq::empty()
    } else {
        "\n"@ + spec_header_line(s[0]) + spec_lines_tail(s.drop_first())
    }
}

/// The headers joined as lines, without a trailing line break.
pub open spec fn spec_header_lines(s: Seq<(Seq<char>, Seq<char>)>) -> Seq<char> {
    if s.len() == 0 {
        Seq::empty()
    } else {
        spec_header_line(s[0]) + spec_lines_tail(s.drop_first())
    }
}

proof fn lemma_lines_tail_push(s: Seq<(Seq<char>, Seq<char>)>, x: (Seq<char>, Seq<char>))
    ensures
        spec_lines_tail(s.push(x)) == spec_lines_tail(s) + "\n"@ + spec_header_line(x),
    decreases s.len(),
{
    if s.len() == 0 {
        assert(s.push(x).drop_first() =~= s);
        assert(spec_lines_tail(s.push(x)) =~= spec_lines_tail(s) + "\n"@ + spec_header_line(x));
    } else {
        assert(s.push(x).drop_first() =~= s.drop_first().push(x));
        lemma_lines_tail_push(s.drop_first(), x);
        assert(spec_lines_tail(s.push(x)) =~= spec_lines_tail(s) + "\n"@ + spec_header_line(x));
    }
}

proof fn lemma_header_lines_push(s: Seq<(Seq<char>, Seq<char>)>, x: (Seq<char>, Seq<char>))
    requires
        s.len() > 0,
    ensures
        spec_header_lines(s.push(x)) == spec_header_lines(s) + "\n"@ + spec_header_line(x),
{
    assert(s.push(x).drop_first() =~= s.drop_first().push(x));
    lemma_lines_tail_push(s.drop_first(), x);
    assert(s.push(x)[0] == s[0]);
    assert(spec_header_lines(s.push(x)) =~= spec_header_lines(s) + "\n"@ + spec_header_line(x));
}

/// The vendor-header segment of the canonical string: absent when the
/// request carries no vendor header at all.
pub open spec fn spec_header_str(s: Seq<(Seq<char>, Seq<char>)>) -> Option<Seq<char>> {
    let v = spec_sort_headers(spec_vendor_headers(s));
    if v.len() == 0 {
        None
    } else {
        Some(spec_header_lines(v))
    }
}

/// Everything the signature depends on, at the level of views.
pub ghost struct AuthView {
    /// View of the key identifier.
    pub key: Seq<char>,
    /// View of the key secret.
    pub secret: Seq<char>,
    /// HTTP method.
    pub verb: VERB,
    /// View of the body digest, where one is sent.
    pub md5: Option<Seq<char>>,
    /// View of the body media type, where one is sent.
    pub content_type: Option<Seq<char>>,
    /// View of the date line.
    pub date: Seq<char>,
    /// View of the signed resource.
    pub resource: Seq<char>,
    /// View of the header set.
    pub headers: Seq<(Seq<char>, Seq<char>)>,
}

/// The value of an optional field, or nothing.
pub open spec fn spec_opt_str(o: Option<Seq<char>>) -> Seq<char> {
    match o {
        Some(v) => v,
        None => Seq::empty(),
    }
}

/// The exact newline-joined string that is signed. A request without
/// vendor headers omits the whole vendor segment, line break included.
pub open spec fn spec_canonical_string(a: AuthView) -> Seq<char> {
    spec_verb_str(a.verb) + "\n"@ + spec_opt_str(a.md5) + "\n"@ + spec_opt_str(a.content_type)
        + "\n"@ + a.date + "\n"@ + (match spec_header_str(a.headers) {
        Some(lines) => lines + "\n"@,
        None => Seq::empty(),
    }) + a.resource
}

/// The authentication code that HMAC-SHA1 keyed by `key` yields over
/// `msg`. Stated only by name: it depends on its arguments alone.
pub uninterp spec fn hmac_sha1_digest(key: Seq<u8>, msg: Seq<u8>) -> Seq<u8>;

/// Relies on hmac's `Hmac::<sha1::Sha1>` (`new_from_slice`, `update`,
/// `finalize`): the twenty-byte code depends on key and message alone,
/// and `new_from_slice` accepts a key of any length.
#[verifier::external_body]
fn hmac_sha1(key: &[u8], msg: &[u8]) -> (r: Option<Vec<u8>>)
    ensures
        r matches Some(d) ==> d@ == hmac_sha1_digest(key@, msg@) && d@.len() == 20,
        r is Some,
{
    let mut mac = match hmac::Hmac::<sha1::Sha1>::new_from_slice(key) {
        Ok(m) => m,
        Err(_) => return None,
    };
    mac.update(msg);
    Some(mac.finalize().into_bytes().to_vec())
}

/// The base64 encoding of a byte run, standard alphabet with padding.
/// Stated only by name: it depends on the bytes alone.
pub uninterp spec fn base64_standard(bytes: Seq<u8>) -> Seq<char>;

/// Relies on base64's standard engine `encode`: four characters for every
/// three bytes begun, the result a function of the bytes alone.
#[verifier::external_body]
fn base64_encode(bytes: &[u8]) -> (r: String)
    ensures
        r@ == base64_standard(bytes@),
        r@.len() == 4 * ((bytes@.len() + 2) / 3),
{
    base64::Engine::encode(&base64::engine::general_purpose::STANDARD, bytes)
}

/// The signature of a request: the canonical string, HMAC-SHA1-signed
/// with the credential's secret and base64-encoded.
pub open spec fn spec_signature(a: AuthView) -> Seq<char> {
    base64_standard(
        hmac_sha1_digest(
            vstd::utf8::encode_utf8(a.secret),
            vstd::utf8::encode_utf8(spec_canonical_string(a)),
        ),
    )
}

/// The value of the authorization header.
pub open spec fn spec_auth_header_value(a: AuthView) -> Seq<char> {
    "OSS "@ + a.key + ":"@ + spec_signature(a)
}

/// Everything the signing engine reads about one request: credential,
/// method, optional body metadata, date, signed resource and headers.
#[derive(Debug)]
pub struct Auth {
    /// Identifier half of the credential.
    pub access_key_id: KeyId,
    /// Secret half of the credential.
    pub access_key_secret: KeySecret,
    /// HTTP method.
    pub verb: VERB,
    /// Digest of the body, if one is sent.
    pub content_md5: Option<ContentMd5>,
    /// Media type of the body, if one is sent.
    pub content_type: Option<ContentType>,
    /// Date line of the request.
    pub date: Date,
    /// The signed resource string.
    pub canonicalized_resource: CanonicalizedResource,
    /// Further headers; the vendor ones among them are signed too.
    pub headers: Headers,
}

impl View for Auth {
    type V = AuthView;

    open spec fn view(&self) -> AuthView {
        AuthView {
            key: self.access_key_id@,
            secret: self.access_key_secret@,
            verb: self.verb,
            md5: match self.content_md5 {
                Some(m) => Some(m@),
                None => None,
            },
            content_type: match self.content_type {
                Some(c) => Some(c@),
                None => None,
            },
            date: self.date@,
            resource: self.canonicalized_resource@,
            headers: self.headers@,
        }
    }
}

impl Default for Auth {
    fn default() -> (r: Self)
        ensures
            r.access_key_id@ == Seq::<char>::empty(),
            r.access_key_secret@ == Seq::<char>::empty(),
            r.verb == VERB::Get,
            r.content_md5 is None,
            r.content_type is None,
            r.date@ == Seq::<char>::empty(),
            r.canonicalized_resource@ == "/"@,
            r.headers@ == Seq::<(Seq<char>, Seq<char>)>::empty(),
    {
        Self {
            access_key_id: KeyId::new(String::new()),
            access_key_secret: KeySecret::new(String::new()),
            verb: VERB::Get,
            content_md5: None,
            content_type: None,
            date: Date::new(String::new()),
            canonicalized_resource: CanonicalizedResource::from_static("/"),
            headers: Headers::new(),
        }
    }
}

impl Auth {
    /// The vendor-header segment: every header whose name starts with the
    /// vendor prefix, sorted by name, one `name:value` line each. `None`
    /// when no vendor header exists — distinct from an empty segment.
    pub fn header_str(&self) -> (r: Option<String>)
        ensures
            match r {
                Some(s) => spec_header_str(self.headers@) == Some(s@),
                None => spec_header_str(self.headers@) is None,
            },
    {
        let ghost pred = |p: (Seq<char>, Seq<char>)| is_vendor_name(p.0);
        let mut vendor: Vec<Header> = Vec::new();
        let n = self.headers.len();
        let mut i: usize = 0;
        proof {
            reveal(Seq::filter);
            assert(self.headers@.subrange(0, 0) =~= Seq::<(Seq<char>, Seq<char>)>::empty());
        }
        while i < n
            invariant
                n == self.headers@.len(),
                0 <= i <= n,
                vendor@.map_values(|h: Header| h@) =~= self.headers@.subrange(
                    0,
                    i as int,
                ).filter(|p: (Seq<char>, Seq<char>)| is_vendor_name(p.0)),
            decreases n - i,
        {
            let h = self.headers.at(i);
            let ghost prefix = self.headers@.subrange(0, i as int);
            proof {
                reveal(Seq::filter);
                assert(self.headers@.subrange(0, i + 1) =~= prefix.push(self.headers@[i as int]));
                assert(prefix.push(self.headers@[i as int]).drop_last() =~= prefix);
            }
            if is_vendor(h) {
                let hc = h.clone();
                let ghost hv = hc@;
                vendor.push(hc);
                proof {
                    assert(vendor@.map_values(|h: Header| h@) =~= vendor@.drop_last().map_values(
                        |h: Header| h@,
                    ).push(hv));
                }
            }
            i += 1;
        }
        assert(self.headers@.subrange(0, n as int) =~= self.headers@);
        if vendor.len() == 0 {
            return None;
        }
        let sorted = sort_by_name(vendor);
        let ghost sv = spec_sort_headers(spec_vendor_headers(self.headers@));
        let mut out = String::new();
        out.append(sorted[0].name.as_str());
        out.append(":");
        out.append(sorted[0].value.as_str());
        assert(out@ =~= spec_header_lines(sv.subrange(0, 1)));
        let mut k: usize = 1;
        while k < sorted.len()
            invariant
                sv == spec_sort_headers(spec_vendor_headers(self.headers@)),
                sv == sorted@.map_values(|h: Header| h@),
                1 <= k <= sorted@.len(),
                out@ =~= spec_header_lines(sv.subrange(0, k as int)),
            decreases sorted@.len() - k,
        {
            out.append("\n");
            out.append(sorted[k].name.as_str());
            out.append(":");
            out.append(sorted[k].value.as_str());
            proof {
                lemma_header_lines_push(sv.subrange(0, k as int), sv[k as int]);
                assert(sv.subrange(0, k + 1) =~= sv.subrange(0, k as int).push(sv[k as int]));
                assert(out@ =~= spec_header_lines(sv.subrange(0, k + 1)));
            }
            k += 1;
        }
        assert(sv.subrange(0, sorted@.len() as int) =~= sv);
        Some(out)
    }

    /// The exact newline-joined string that the signature is computed
    /// over.
    pub fn canonical_string(&self) -> (r: String)
        ensures
            r@ == spec_canonical_string(self@),
    {
        let mut cs = self.verb.to_string();
        cs.append("\n");
        match &self.content_md5 {
            Some(m) => cs.append(m.as_str()),
            None => {},
        }
        cs.append("\n");
        match &self.content_type {
            Some(c) => cs.append(c.as_str()),
            None => {},
        }
        cs.append("\n");
        cs.append(self.date.as_str());
        cs.append("\n");
        match self.header_str() {
            Some(lines) => {
                cs.append(lines.as_str());
                cs.append("\n");
            },
            None => {},
        }
        cs.append(self.canonicalized_resource.as_str());
        assert(cs@ =~= spec_canonical_string(self@));
        cs
    }

    /// The signature of this request, base64-encoded; rejected only when
    /// the secret is empty, which a well-formed credential never is.
    pub fn sign(&self) -> (r: Result<String, SignError>)
        ensures
            r is Ok <==> self@.secret.len() > 0,
            r matches Ok(s) ==> s@ == spec_signature(self@) && s@.len() == 28,
    {
        let cs = self.canonical_string();
        if self.access_key_secret.as_str().is_empty() {
            return Err(SignError::InvalidKey);
        }
        match hmac_sha1(self.access_key_secret.as_bytes(), cs.as_str().as_bytes()) {
            Some(digest) => Ok(base64_encode(digest.as_slice())),
            None => Err(SignError::InvalidKey),
        }
    }

    /// The full outgoing header set: identity, method, optional body
    /// metadata, date, signed resource, the caller's own headers, and the
    /// authorization value.
    pub fn get_headers(&self) -> (r: Result<Headers, SignError>)
        ensures
            r is Ok <==> self@.secret.len() > 0,
            r matches Ok(h) ==> h@ == spec_assembled_headers(self@),
            r matches Ok(h) ==> (headers_wf(self.headers@) ==> headers_wf(h@)),
    {
        let sig = match self.sign() {
            Ok(s) => s,
            Err(e) => {
                return Err(e);
            },
        };
        let mut map = self.headers.clone();
        map.insert("AccessKeyId", self.access_key_id.as_str().to_owned());
        map.insert("VERB", self.verb.to_string());
        match &self.content_md5 {
            Some(m) => {
                map.insert("Content-MD5", m.as_str().to_owned());
            },
            None => {},
        }
        match &self.content_type {
            Some(c) => {
                map.insert("Content-Type", c.as_str().to_owned());
            },
            None => {},
        }
        map.insert("Date", self.date.as_str().to_owned());
        map.insert("CanonicalizedResource", self.canonicalized_resource.as_str().to_owned());
        let mut auth_value = "OSS ".to_owned();
        auth_value.append(self.access_key_id.as_str());
        auth_value.append(":");
        auth_value.append(sig.as_str());
        assert(auth_value@ =~= spec_auth_header_value(self@));
        map.insert("Authorization", auth_value);
        Ok(map)
    }
}

/// The header set that `get_headers` assembles on top of the request's own
/// headers.
pub open spec fn spec_assembled_headers(a: AuthView) -> Seq<(Seq<char>, Seq<char>)> {
    let m1 = spec_query_set(a.headers, lower_chars("AccessKeyId"@), a.key);
    let m2 = spec_query_set(m1, lower_chars("VERB"@), spec_verb_str(a.verb));
    let m3 = match a.md5 {
        Some(m) => spec_query_set(m2, lower_chars("Content-MD5"@), m),
        None => m2,
    };
    let m4 = match a.content_type {
        Some(c) => spec_query_set(m3, lower_chars("Content-Type"@), c),
        None => m3,
    };
    let m5 = spec_query_set(m4, lower_chars("Date"@), a.date);
    let m6 = spec_query_set(m5, lower_chars("CanonicalizedResource"@), a.resource);
    spec_query_set(m6, lower_chars("Authorization"@), spec_auth_header_value(a))
}

/// Whether a header's name starts with the vendor prefix.
fn is_vendor(h: &Header) -> (r: bool)
    ensures
        r == is_vendor_name(h@.0),
{
    let n = h.name.as_str();
    let len = n.unicode_len();
    len >= 6 && n.get_char(0) == 'x' && n.get_char(1) == '-' && n.get_char(2) == 'o' && n.get_char(
        3,
    ) == 's' && n.get_char(4) == 's' && n.get_char(5) == '-'
}

/// Relates an index-based insertion point to the recursive insertion spec.
proof fn lemma_insert_sorted_at(
    s: Seq<(Seq<char>, Seq<char>)>,
    x: (Seq<char>, Seq<char>),
    j: int,
)
    requires
        0 <= j <= s.len(),
        forall|k: int| 0 <= k < j ==> lex_le(#[trigger] s[k].0, x.0),
        j < s.len() ==> !lex_le(s[j].0, x.0),
    ensures
        hdr_insert_sorted(x, s) == s.subrange(0, j) + seq![x] + s.skip(j),
    decreases s.len(),
{
    if s.len() == 0 {
        assert(hdr_insert_sorted(x, s) =~= s.subrange(0, j) + seq![x] + s.skip(j));
    } else if j == 0 {
        assert(s.subrange(0, 0) =~= Seq::<(Seq<char>, Seq<char>)>::empty());
        assert(s.skip(0) =~= s);
        assert(hdr_insert_sorted(x, s) =~= s.subrange(0, 0) + seq![x] + s.skip(0));
    } else {
        assert(lex_le(s[0].0, x.0));
        lemma_insert_sorted_at(s.drop_first(), x, j - 1);
        assert(s.drop_first().subrange(0, j - 1) =~= s.subrange(1, j));
        assert(s.drop_first().skip(j - 1) =~= s.skip(j));
        assert(hdr_insert_sorted(x, s) =~= s.subrange(0, j) + seq![x] + s.skip(j));
    }
}

/// Inserts a header into a run sorted ascending by name, keeping it sorted.
fn insert_header_sorted(out: &mut Vec<Header>, h: Header)
    ensures
        final(out)@.map_values(|e: Header| e@) == hdr_insert_sorted(
            h@,
            old(out)@.map_values(|e: Header| e@),
        ),
{
    let ghost s = out@.map_values(|e: Header| e@);
    let ghost xv = h@;
    let mut j: usize = 0;
    while j < out.len() && str_le(out[j].name.as_str(), h.name.as_str())
        invariant
            s == out@.map_values(|e: Header| e@),
            s == old(out)@.map_values(|e: Header| e@),
            out@ == old(out)@,
            xv == h@,
            0 <= j <= out@.len(),
            forall|k: int| 0 <= k < j ==> lex_le(#[trigger] s[k].0, xv.0),
        decreases out@.len() - j,
    {
        j += 1;
    }
    proof {
        lemma_insert_sorted_at(s, xv, j as int);
    }
    out.insert(j, h);
    proof {
        assert(out@.map_values(|e: Header| e@) =~= s.subrange(0, j as int) + seq![xv] + s.skip(
            j as int,
        ));
    }
}

/// Sorts headers ascending by name.
fn sort_by_name(v: Vec<Header>) -> (r: Vec<Header>)
    ensures
        r@.map_values(|e: Header| e@) == spec_sort_headers(v@.map_values(|e: Header| e@)),
{
    let ghost sv = v@.map_values(|e: Header| e@);
    let mut out: Vec<Header> = Vec::new();
    let mut i: usize = 0;
    proof {
        assert(sv.subrange(0, 0) =~= Seq::<(Seq<char>, Seq<char>)>::empty());
    }
    while i < v.len()
        invariant
            sv == v@.map_values(|e: Header| e@),
            0 <= i <= v@.len(),
            out@.map_values(|e: Header| e@) == spec_sort_headers(sv.subrange(0, i as int)),
        decreases v@.len() - i,
    {
        let h = v[i].clone();
        assert(h@ == sv[i as int]);
        insert_header_sorted(&mut out, h);
        proof {
            assert(sv.subrange(0, i + 1).drop_last() =~= sv.subrange(0, i as int));
            assert(sv.subrange(0, i + 1).last() == sv[i as int]);
        }
        i += 1;
    }
    assert(sv.subrange(0, v@.len() as int) =~= sv);
    out
}

/// Builds an `Auth` value step by step.
#[derive(Debug)]
pub struct AuthBuilder {
    /// The request description built so far.
    pub auth: Auth,
}

impl Default for AuthBuilder {
    fn default() -> (r: Self)
        ensures
            r.auth.access_key_id@ == Seq::<char>::empty(),
            r.auth.access_key_secret@ == Seq::<char>::empty(),
            r.auth.verb == VERB::Get,
            r.auth.content_md5 is None,
            r.auth.content_type is None,
            r.auth.date@ == Seq::<char>::empty(),
            r.auth.canonicalized_resource@ == "/"@,
            r.auth.headers@ == Seq::<(Seq<char>, Seq<char>)>::empty(),
    {
        Self { auth: Auth::default() }
    }
}

impl AuthBuilder {
    /// Sets the key identifier.
    pub fn key(self, key: KeyId) -> (r: Self)
        ensures
            r.auth == (Auth { access_key_id: key, ..self.auth }),
    {
        let mut auth = self.auth;
        auth.access_key_id = key;
        Self { auth }
    }

    /// Sets the key secret.
    pub fn secret(self, secret: KeySecret) -> (r: Self)
        ensures
            r.auth == (Auth { access_key_secret: secret, ..self.auth }),
    {
        let mut auth = self.auth;
        auth.access_key_secret = secret;
        Self { auth }
    }

    /// Sets the method.
    pub fn verb(self, verb: VERB) -> (r: Self)
        ensures
            r.auth == (Auth { verb, ..self.auth }),
    {
        let mut auth = self.auth;
        auth.verb = verb;
        Self { auth }
    }

    /// Sets the body digest.
    pub fn content_md5(self, content_md5: ContentMd5) -> (r: Self)
        ensures
            r.auth == (Auth { content_md5: Some(content_md5), ..self.auth }),
    {
        let mut auth = self.auth;
        auth.content_md5 = Some(content_md5);
        Self { auth }
    }

    /// Sets the date line.
    pub fn date(self, date: Date) -> (r: Self)
        ensures
            r.auth == (Auth { date, ..self.auth }),
    {
        let mut auth = self.auth;
        auth.date = date;
        Self { auth }
    }

    /// Sets the signed resource.
    pub fn canonicalized_resource(self, data: CanonicalizedResource) -> (r: Self)
        ensures
            r.auth == (Auth { canonicalized_resource: data, ..self.auth }),
    {
        let mut auth = self.auth;
        auth.canonicalized_resource = data;
        Self { auth }
    }

    /// Replaces the whole header set, and takes the media type over from it
    /// where one is present.
    pub fn headers(self, headers: Headers) -> (r: Self)
        ensures
            r.auth.headers@ == headers@,
            r.auth.access_key_id == self.auth.access_key_id,
            r.auth.access_key_secret == self.auth.access_key_secret,
            r.auth.verb == self.auth.verb,
            r.auth.content_md5 == self.auth.content_md5,
            r.auth.date == self.auth.date,
            r.auth.canonicalized_resource == self.auth.canonicalized_resource,
            match spec_query_get(headers@, lower_chars("Content-Type"@)) {
                Some(v) => r.auth.content_type matches Some(c) && c@ == v,
                None => r.auth.content_type == self.auth.content_type,
            },
    {
        let mut auth = self.auth;
        auth.headers = headers;
        (Self { auth }).type_with_header()
    }

    /// Adds one header.
    pub fn header_insert(self, key: &str, value: String) -> (r: Self)
        ensures
            r.auth.headers@ == spec_query_set(self.auth.headers@, lower_chars(key@), value@),
            r.auth.access_key_id == self.auth.access_key_id,
            r.auth.access_key_secret == self.auth.access_key_secret,
            r.auth.verb == self.auth.verb,
            r.auth.content_md5 == self.auth.content_md5,
            r.auth.content_type == self.auth.content_type,
            r.auth.date == self.auth.date,
            r.auth.canonicalized_resource == self.auth.canonicalized_resource,
    {
        let mut auth = self.auth;
        auth.headers.insert(key, value);
        Self { auth }
    }

    /// Takes the media type over from the header set, where one is present.
    pub fn type_with_header(self) -> (r: Self)
        ensures
            match spec_query_get(self.auth.headers@, lower_chars("Content-Type"@)) {
                Some(v) => r.auth.content_type matches Some(c) && c@ == v,
                None => r.auth.content_type == self.auth.content_type,
            },
            r.auth.headers@ == self.auth.headers@,
            r.auth.access_key_id == self.auth.access_key_id,
            r.auth.access_key_secret == self.auth.access_key_secret,
            r.auth.verb == self.auth.verb,
            r.auth.content_md5 == self.auth.content_md5,
            r.auth.date == self.auth.date,
            r.auth.canonicalized_resource == self.auth.canonicalized_resource,
    {
        let mut auth = self.auth;
        let ct: Option<ContentType> = match auth.headers.get("Content-Type") {
            Some(v) => Some(ContentType::new(v.clone())),
            None => None,
        };
        match ct {
            Some(c) => {
                auth.content_type = Some(c);
            },
            None => {},
        }
        Self { auth }
    }

    /// Removes every header.
    pub fn header_clear(self) -> (r: Self)
        ensures
            r.auth.headers@ == Seq::<(Seq<char>, Seq<char>)>::empty(),
            r.auth.access_key_id == self.auth.access_key_id,
            r.auth.access_key_secret == self.auth.access_key_secret,
            r.auth.verb == self.auth.verb,
            r.auth.content_md5 == self.auth.content_md5,
            r.auth.content_type == self.auth.content_type,
            r.auth.date == self.auth.date,
            r.auth.canonicalized_resource == self.auth.canonicalized_resource,
    {
        let mut auth = self.auth;
        auth.headers.clear();
        Self { auth }
    }
}

/// The signature is a function of the request description alone: equal
/// descriptions yield the same signature, byte for byte.
pub proof fn lemma_sign_deterministic(a1: AuthView, a2: AuthView, r1: Seq<char>, r2: Seq<char>)
    requires
        a1 == a2,
        r1 == spec_signature(a1),
        r2 == spec_signature(a2),
    ensures
        r1 == r2,
{
}


/// A header run sorted ascending by name.
pub open spec fn sorted_by_name(s: Seq<(Seq<char>, Seq<char>)>) -> bool {
    forall|i: int| 0 <= i && i + 1 < s.len() ==> lex_le(#[trigger] s[i].0, s[i + 1].0)
}

/// A header run sorted strictly ascending by name.
pub open spec fn strict_sorted_by_name(s: Seq<(Seq<char>, Seq<char>)>) -> bool {
    forall|i: int|
        0 <= i && i + 1 < s.len() ==> lex_le(#[trigger] s[i].0, s[i + 1].0) && s[i].0 != s[i
            + 1].0
}

/// Some entry of `s` carries the name `n`.
pub open spec fn has_name(s: Seq<(Seq<char>, Seq<char>)>, n: Seq<char>) -> bool {
    exists|i: int| 0 <= i < s.len() && #[trigger] s[i].0 == n
}

proof fn lemma_insert_sorted_len(x: (Seq<char>, Seq<char>), s: Seq<(Seq<char>, Seq<char>)>)
    ensures
        hdr_insert_sorted(x, s).len() == s.len() + 1,
    decreases s.len(),
{
    if s.len() == 0 {
    } else if lex_le(s[0].0, x.0) {
        lemma_insert_sorted_len(x, s.drop_first());
    } else {
    }
}

proof fn lemma_insert_sorted_names(x: (Seq<char>, Seq<char>), s: Seq<(Seq<char>, Seq<char>)>)
    ensures
        forall|n: Seq<char>|
            #[trigger] has_name(hdr_insert_sorted(x, s), n) <==> (has_name(s, n) || n == x.0),
    decreases s.len(),
{
    let t = hdr_insert_sorted(x, s);
    if s.len() == 0 {
        assert forall|n: Seq<char>| #[trigger] has_name(t, n) <==> (has_name(s, n) || n == x.0) by {
            assert(t[0] == x);
            if has_name(t, n) {
                let i = choose|i: int| 0 <= i < t.len() && t[i].0 == n;
                assert(i == 0);
            }
        }
    } else if lex_le(s[0].0, x.0) {
        lemma_insert_sorted_names(x, s.drop_first());
        let rest = hdr_insert_sorted(x, s.drop_first());
        assert forall|n: Seq<char>| #[trigger] has_name(t, n) <==> (has_name(s, n) || n == x.0) by {
            if has_name(t, n) {
                let i = choose|i: int| 0 <= i < t.len() && t[i].0 == n;
                if i == 0 {
                    assert(s[0].0 == n);
                } else {
                    assert(t[i] == rest[i - 1]);
                    assert(rest[i - 1].0 == n);
                    assert(has_name(rest, n));
                    if has_name(s.drop_first(), n) {
                        let j = choose|j: int|
                            0 <= j < s.drop_first().len() && s.drop_first()[j].0 == n;
                        assert(s[j + 1].0 == n);
                    }
                }
            }
            if n == x.0 {
                assert(has_name(rest, n));
                let j = choose|j: int| 0 <= j < rest.len() && rest[j].0 == n;
                assert(t[j + 1].0 == n);
                assert(has_name(t, n));
            } else if has_name(s, n) {
                let i = choose|i: int| 0 <= i < s.len() && s[i].0 == n;
                if i == 0 {
                    assert(t[0].0 == n);
                } else {
                    assert(s.drop_first()[i - 1].0 == n);
                    assert(has_name(s.drop_first(), n));
                    assert(has_name(rest, n));
                    let j = choose|j: int| 0 <= j < rest.len() && rest[j].0 == n;
                    assert(t[j + 1].0 == n);
                }
                assert(has_name(t, n));
            }
        }
    } else {
        assert forall|n: Seq<char>| #[trigger] has_name(t, n) <==> (has_name(s, n) || n == x.0) by {
            if has_name(t, n) {
                let i = choose|i: int| 0 <= i < t.len() && t[i].0 == n;
                if i == 0 {
                } else {
                    assert(s[i - 1].0 == n);
                    assert(has_name(s, n));
                }
            }
            if n == x.0 {
                assert(t[0].0 == n);
                assert(has_name(t, n));
            } else if has_name(s, n) {
                let i = choose|i: int| 0 <= i < s.len() && s[i].0 == n;
                assert(t[i + 1].0 == n);
                assert(has_name(t, n));
            }
        }
    }
}

proof fn lemma_insert_sorted_distinct(x: (Seq<char>, Seq<char>), s: Seq<(Seq<char>, Seq<char>)>)
    requires
        query_wf(s),
        !has_name(s, x.0),
    ensures
        query_wf(hdr_insert_sorted(x, s)),
    decreases s.len(),
{
    let t = hdr_insert_sorted(x, s);
    if s.len() == 0 {
    } else if lex_le(s[0].0, x.0) {
        assert(query_wf(s.drop_first())) by {
            assert forall|a: int, b: int|
                0 <= a < b < s.drop_first().len() implies s.drop_first()[a].0 != s.drop_first()[b].0 by {
                assert(s[a + 1].0 != s[b + 1].0);
            }
        }
        assert(!has_name(s.drop_first(), x.0)) by {
            if has_name(s.drop_first(), x.0) {
                let j = choose|j: int| 0 <= j < s.drop_first().len() && s.drop_first()[j].0 == x.0;
                assert(s[j + 1].0 == x.0);
            }
        }
        lemma_insert_sorted_distinct(x, s.drop_first());
        lemma_insert_sorted_names(x, s.drop_first());
        let rest = hdr_insert_sorted(x, s.drop_first());
        assert forall|a: int, b: int| 0 <= a < b < t.len() implies t[a].0 != t[b].0 by {
            if a == 0 {
                assert(t[b] == rest[b - 1]);
                assert(has_name(rest, rest[b - 1].0));
                if t[a].0 == t[b].0 {
                    assert(has_name(s.drop_first(), s[0].0) || s[0].0 == x.0);
                    if has_name(s.drop_first(), s[0].0) {
                        let j = choose|j: int|
                            0 <= j < s.drop_first().len() && s.drop_first()[j].0 == s[0].0;
                        assert(s[j + 1].0 == s[0].0);
                    }
                }
            } else {
                assert(t[a] == rest[a - 1]);
                assert(t[b] == rest[b - 1]);
            }
        }
    } else {
        assert forall|a: int, b: int| 0 <= a < b < t.len() implies t[a].0 != t[b].0 by {
            if a == 0 {
                assert(t[b] == s[b - 1]);
                assert(s[b - 1].0 != x.0) by {
                    if s[b - 1].0 == x.0 {
                        assert(has_name(s, x.0));
                    }
                }
            } else {
                assert(t[a] == s[a - 1]);
                assert(t[b] == s[b - 1]);
            }
        }
    }
}

proof fn lemma_insert_sorted_sorted(x: (Seq<char>, Seq<char>), s: Seq<(Seq<char>, Seq<char>)>)
    requires
        sorted_by_name(s),
    ensures
        sorted_by_name(hdr_insert_sorted(x, s)),
    decreases s.len(),
{
    let t = hdr_insert_sorted(x, s);
    if s.len() == 0 {
    } else if lex_le(s[0].0, x.0) {
        assert(sorted_by_name(s.drop_first())) by {
            assert forall|i: int|
                0 <= i && i + 1 < s.drop_first().len() implies lex_le(
                #[trigger] s.drop_first()[i].0,
                s.drop_first()[i + 1].0,
            ) by {
                assert(lex_le(s[i + 1].0, s[i + 2].0));
            }
        }
        lemma_insert_sorted_sorted(x, s.drop_first());
        let rest = hdr_insert_sorted(x, s.drop_first());
        assert forall|i: int| 0 <= i && i + 1 < t.len() implies lex_le(
            #[trigger] t[i].0,
            t[i + 1].0,
        ) by {
            if i == 0 {
                assert(t[1] == rest[0]);
                if s.drop_first().len() == 0 {
                    assert(rest[0] == x);
                } else if lex_le(s.drop_first()[0].0, x.0) {
                    assert(rest[0] == s.drop_first()[0]);
                    assert(lex_le(s[0].0, s[1].0));
                } else {
                    assert(rest[0] == x);
                }
            } else {
                assert(t[i] == rest[i - 1]);
                assert(t[i + 1] == rest[i]);
            }
        }
    } else {
        crate::strutil::lemma_lex_le_total(s[0].0, x.0);
        assert(lex_le(x.0, s[0].0));
        assert forall|i: int| 0 <= i && i + 1 < t.len() implies lex_le(
            #[trigger] t[i].0,
            t[i + 1].0,
        ) by {
            if i == 0 {
            } else {
                assert(t[i] == s[i - 1]);
                assert(t[i + 1] == s[i]);
                assert(lex_le(s[i - 1].0, s[i].0));
            }
        }
    }
}

proof fn lemma_sort_headers_len(s: Seq<(Seq<char>, Seq<char>)>)
    ensures
        spec_sort_headers(s).len() == s.len(),
    decreases s.len(),
{
    if s.len() == 0 {
    } else {
        lemma_sort_headers_len(s.drop_last());
        lemma_insert_sorted_len(s.last(), spec_sort_headers(s.drop_last()));
    }
}

proof fn lemma_sort_headers_names(s: Seq<(Seq<char>, Seq<char>)>)
    ensures
        forall|n: Seq<char>| #[trigger] has_name(spec_sort_headers(s), n) <==> has_name(s, n),
    decreases s.len(),
{
    let t = spec_sort_headers(s);
    if s.len() == 0 {
        assert forall|n: Seq<char>| #[trigger] has_name(t, n) <==> has_name(s, n) by {
            if has_name(t, n) {
                let i = choose|i: int| 0 <= i < t.len() && t[i].0 == n;
            }
            if has_name(s, n) {
                let i = choose|i: int| 0 <= i < s.len() && s[i].0 == n;
            }
        }
    } else {
        lemma_sort_headers_names(s.drop_last());
        lemma_insert_sorted_names(s.last(), spec_sort_headers(s.drop_last()));
        assert forall|n: Seq<char>| #[trigger] has_name(t, n) <==> has_name(s, n) by {
            if has_name(t, n) {
                assert(has_name(spec_sort_headers(s.drop_last()), n) || n == s.last().0);
                if has_name(spec_sort_headers(s.drop_last()), n) {
                    assert(has_name(s.drop_last(), n));
                    let j = choose|j: int| 0 <= j < s.drop_last().len() && s.drop_last()[j].0 == n;
                    assert(s[j].0 == n);
                } else {
                    assert(s[s.len() - 1].0 == n);
                }
                assert(has_name(s, n));
            }
            if has_name(s, n) {
                let i = choose|i: int| 0 <= i < s.len() && s[i].0 == n;
                if i == s.len() - 1 {
                    assert(has_name(t, n));
                } else {
                    assert(s.drop_last()[i].0 == n);
                    assert(has_name(s.drop_last(), n));
                    assert(has_name(spec_sort_headers(s.drop_last()), n));
                    assert(has_name(t, n));
                }
            }
        }
    }
}

proof fn lemma_sort_headers_sorted(s: Seq<(Seq<char>, Seq<char>)>)
    ensures
        sorted_by_name(spec_sort_headers(s)),
        query_wf(s) ==> query_wf(spec_sort_headers(s)),
    decreases s.len(),
{
    if s.len() == 0 {
    } else {
        lemma_sort_headers_sorted(s.drop_last());
        lemma_insert_sorted_sorted(s.last(), spec_sort_headers(s.drop_last()));
        if query_wf(s) {
            assert(query_wf(s.drop_last())) by {
                assert forall|a: int, b: int|
                    0 <= a < b < s.drop_last().len() implies s.drop_last()[a].0 != s.drop_last()[b].0 by {
                    assert(s[a].0 != s[b].0);
                }
            }
            lemma_sort_headers_names(s.drop_last());
            assert(!has_name(spec_sort_headers(s.drop_last()), s.last().0)) by {
                if has_name(s.drop_last(), s.last().0) {
                    let j = choose|j: int|
                        0 <= j < s.drop_last().len() && s.drop_last()[j].0 == s.last().0;
                    assert(s[j].0 == s[s.len() - 1].0);
                }
            }
            lemma_insert_sorted_distinct(s.last(), spec_sort_headers(s.drop_last()));
        }
    }
}

proof fn lemma_filter_distinct(s: Seq<(Seq<char>, Seq<char>)>, pred: spec_fn((Seq<char>, Seq<char>)) -> bool)
    ensures
        query_wf(s) ==> query_wf(s.filter(pred)),
        forall|n: Seq<char>| #[trigger] has_name(s.filter(pred), n) ==> has_name(s, n),
    decreases s.len(),
{
    reveal(Seq::filter);
    let t = s.filter(pred);
    if s.len() == 0 {
    } else {
        lemma_filter_distinct(s.drop_last(), pred);
        let u = s.drop_last().filter(pred);
        assert(query_wf(s) ==> query_wf(s.drop_last())) by {
            if query_wf(s) {
                assert forall|a: int, b: int|
                    0 <= a < b < s.drop_last().len() implies s.drop_last()[a].0 != s.drop_last()[b].0 by {
                    assert(s[a].0 != s[b].0);
                }
            }
        }
        assert forall|n: Seq<char>| #[trigger] has_name(t, n) implies has_name(s, n) by {
            let i = choose|i: int| 0 <= i < t.len() && t[i].0 == n;
            if pred(s.last()) && i == t.len() - 1 {
                assert(s[s.len() - 1].0 == n);
            } else {
                assert(t[i] == u[i]);
                assert(u[i].0 == n);
                assert(has_name(u, n));
                assert(has_name(s.drop_last(), n));
                let j = choose|j: int| 0 <= j < s.drop_last().len() && s.drop_last()[j].0 == n;
                assert(s[j].0 == n);
            }
            assert(has_name(s, n));
        }
        if query_wf(s) {
            assert forall|a: int, b: int| 0 <= a < b < t.len() implies t[a].0 != t[b].0 by {
                if pred(s.last()) && b == t.len() - 1 {
                    assert(t[a] == u[a]);
                    assert(u[a].0 == t[a].0);
                    assert(has_name(u, u[a].0));
                    assert(has_name(s.drop_last(), t[a].0));
                    let j = choose|j: int|
                        0 <= j < s.drop_last().len() && s.drop_last()[j].0 == t[a].0;
                    assert(s[j].0 == t[a].0);
                    assert(s[j].0 != s[s.len() - 1].0);
                } else {
                    assert(t[a] == u[a]);
                    assert(t[b] == u[b]);
                }
            }
        }
    }
}

/// The vendor-header law: the vendor headers of any header set enter the
/// canonical string sorted by header name, ascending — strictly so for a
/// well-formed header set — and a header set without any vendor header
/// contributes no segment at all, as opposed to an empty line.
pub proof fn lemma_vendor_segment_law(h: Seq<(Seq<char>, Seq<char>)>)
    ensures
        sorted_by_name(spec_sort_headers(spec_vendor_headers(h))),
        headers_wf(h) ==> strict_sorted_by_name(spec_sort_headers(spec_vendor_headers(h))),
        spec_vendor_headers(h).len() == 0 <==> spec_header_str(h) is None,
        spec_header_str(h) is None ==> spec_canonical_string_omits_segment(h),
{
    let pred = |p: (Seq<char>, Seq<char>)| is_vendor_name(p.0);
    let v = spec_vendor_headers(h);
    lemma_sort_headers_sorted(v);
    lemma_sort_headers_len(v);
    if headers_wf(h) {
        lemma_filter_distinct(h, pred);
        assert(query_wf(spec_sort_headers(v)));
    }
}

/// Without vendor headers the canonical string carries no vendor segment:
/// the resource follows the date's line break immediately.
pub open spec fn spec_canonical_string_omits_segment(h: Seq<(Seq<char>, Seq<char>)>) -> bool {
    forall|a: AuthView|
        a.headers == h ==> #[trigger] spec_canonical_string(a) == spec_verb_str(a.verb) + "\n"@
            + spec_opt_str(a.md5) + "\n"@ + spec_opt_str(a.content_type) + "\n"@ + a.date + "\n"@
            + a.resource
}

} // verus!
