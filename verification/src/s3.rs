//! The S3-compatible backend: request preparation, presigned URLs, the
//! lazily latched bucket probe, and response classification. The HTTP
//! transport itself lives outside the library; everything that decides —
//! key prefixing, the single-flight probe, what each status code means —
//! is verified here.

use rusty_s3::S3Action;
use vstd::prelude::*;

use crate::errors::StoreError;

verus! {

/// Validity of every presigned URL, in seconds.
pub const PRESIGNED_URL_DURATION_SECONDS: u64 = 3600;

#[verifier::external_type_specification]
#[verifier::external_body]
pub struct ExBucket(rusty_s3::Bucket);

#[verifier::external_type_specification]
#[verifier::external_body]
pub struct ExCredentials(rusty_s3::Credentials);

/// Whether a byte string is valid UTF-8 text: the condition under which
/// std's String::from_utf8 succeeds, a function of the bytes alone.
pub uninterp spec fn utf8_ok(b: Seq<u8>) -> bool;

/// Whether an endpoint, bucket name and region yield a bucket handle:
/// the endpoint text must parse as an http or https URL with a host, and
/// the pieces must be valid text. A function of the arguments alone.
pub uninterp spec fn bucket_ok(endpoint: Seq<u8>, name: Seq<u8>, region: Seq<u8>) -> bool;

/// Relies on url::Url::parse and rusty_s3::Bucket::new (virtual-host
/// addressing): both are deterministic in their arguments, so a handle
/// comes back exactly when the settings are usable; every failure (bad
/// text, bad scheme, missing host) folds into `None`.
#[verifier::external_body]
fn make_bucket(endpoint: &Vec<u8>, name: &Vec<u8>, region: &Vec<u8>) -> (r: Option<
    rusty_s3::Bucket,
>)
    ensures
        r is Some <==> bucket_ok(endpoint@, name@, region@),
{
    let endpoint = String::from_utf8(endpoint.clone()).ok()?;
    let endpoint = url::Url::parse(&endpoint).ok()?;
    let name = String::from_utf8(name.clone()).ok()?;
    let region = String::from_utf8(region.clone()).ok()?;
    rusty_s3::Bucket::new(endpoint, rusty_s3::UrlStyle::VirtualHost, name, region).ok()
}

/// Relies on rusty_s3::Credentials::new, which never fails; only the
/// text conversion of the two settings can, so the outcome is exactly
/// their UTF-8 validity.
#[verifier::external_body]
fn make_credentials(key: &Vec<u8>, secret: &Vec<u8>) -> (r: Option<rusty_s3::Credentials>)
    ensures
        r is Some <==> (utf8_ok(key@) && utf8_ok(secret@)),
{
    let k = String::from_utf8(key.clone()).ok()?;
    let s = String::from_utf8(secret.clone()).ok()?;
    Some(rusty_s3::Credentials::new(k, s))
}

/// Relies on rusty_s3's HeadBucket action and S3Action::sign. The URL
/// embeds the signing time, so nothing is promised of its text.
#[verifier::external_body]
fn sign_head_bucket(bucket: &rusty_s3::Bucket, creds: &rusty_s3::Credentials, secs: u64) -> (r:
    String) {
    bucket.head_bucket(Some(creds)).sign(std::time::Duration::from_secs(secs)).to_string()
}

/// Relies on rusty_s3's GetObject action and S3Action::sign; the URL text
/// embeds the signing time, so nothing is promised of it, but signing
/// itself cannot fail, so the outcome is exactly the key's UTF-8
/// validity. A key beginning with a slash is excluded: rusty_s3 keeps
/// `/` unencoded and aborts on the URL such a key forms.
#[verifier::external_body]
fn sign_get_object(
    bucket: &rusty_s3::Bucket,
    creds: &rusty_s3::Credentials,
    key: &Vec<u8>,
    secs: u64,
) -> (r: Option<String>)
    requires
        key@.len() > 0 ==> key@[0] != 47,
    ensures
        r is Some <==> utf8_ok(key@),
{
    let key = String::from_utf8(key.clone()).ok()?;
    Some(bucket.get_object(Some(creds), &key).sign(std::time::Duration::from_secs(secs)).to_string())
}

/// Relies on rusty_s3's PutObject action and S3Action::sign; the URL text
/// embeds the signing time, so nothing is promised of it, but signing
/// itself cannot fail, so the outcome is exactly the key's UTF-8
/// validity. A key beginning with a slash is excluded: rusty_s3 keeps
/// `/` unencoded and aborts on the URL such a key forms.
#[verifier::external_body]
fn sign_put_object(
    bucket: &rusty_s3::Bucket,
    creds: &rusty_s3::Credentials,
    key: &Vec<u8>,
    secs: u64,
) -> (r: Option<String>)
    requires
        key@.len() > 0 ==> key@[0] != 47,
    ensures
        r is Some <==> utf8_ok(key@),
{
    let key = String::from_utf8(key.clone()).ok()?;
    Some(bucket.put_object(Some(creds), &key).sign(std::time::Duration::from_secs(secs)).to_string())
}

/// Relies on rusty_s3's DeleteObject action and S3Action::sign; the URL text
/// embeds the signing time, so nothing is promised of it, but signing
/// itself cannot fail, so the outcome is exactly the key's UTF-8
/// validity. A key beginning with a slash is excluded: rusty_s3 keeps
/// `/` unencoded and aborts on the URL such a key forms.
#[verifier::external_body]
fn sign_delete_object(
    bucket: &rusty_s3::Bucket,
    creds: &rusty_s3::Credentials,
    key: &Vec<u8>,
    secs: u64,
) -> (r: Option<String>)
    requires
        key@.len() > 0 ==> key@[0] != 47,
    ensures
        r is Some <==> utf8_ok(key@),
{
    let key = String::from_utf8(key.clone()).ok()?;
    Some(
        bucket.delete_object(Some(creds), &key).sign(
            std::time::Duration::from_secs(secs),
        ).to_string(),
    )
}

/// Relies on rusty_s3's HeadObject action and S3Action::sign; the URL text
/// embeds the signing time, so nothing is promised of it, but signing
/// itself cannot fail, so the outcome is exactly the key's UTF-8
/// validity. A key beginning with a slash is excluded: rusty_s3 keeps
/// `/` unencoded and aborts on the URL such a key forms.
#[verifier::external_body]
fn sign_head_object(
    bucket: &rusty_s3::Bucket,
    creds: &rusty_s3::Credentials,
    key: &Vec<u8>,
    secs: u64,
) -> (r: Option<String>)
    requires
        key@.len() > 0 ==> key@[0] != 47,
    ensures
        r is Some <==> utf8_ok(key@),
{
    let key = String::from_utf8(key.clone()).ok()?;
    Some(
        bucket.head_object(Some(creds), &key).sign(
            std::time::Duration::from_secs(secs),
        ).to_string(),
    )
}

/// How a failing HTTP status is surfaced: rate limits and server errors
/// are transient and retried; everything else is permanent.
pub open spec fn spec_classify_status(status: u16) -> StoreError {
    if status == 429 || (500 <= status && status <= 599) {
        StoreError::Transient
    } else {
        StoreError::Permanent
    }
}

/// Classifies a GET response: the body on 200, absence on 404, an error
/// kind otherwise.
pub fn classify_get_response(status: u16, body: Vec<u8>) -> (r: Result<Option<Vec<u8>>, StoreError>)
    ensures
        match r {
            Ok(Some(v)) => status == 200 && v == body,
            Ok(None) => status == 404,
            Err(e) => status != 200 && status != 404 && e == spec_classify_status(status),
        },
{
    if status == 200 {
        Ok(Some(body))
    } else if status == 404 {
        Ok(None)
    } else if status == 429 || (500 <= status && status <= 599) {
        Err(StoreError::Transient)
    } else {
        Err(StoreError::Permanent)
    }
}

/// Classifies a PUT or DELETE response: any success status is accepted.
pub fn classify_write_response(status: u16) -> (r: Result<(), StoreError>)
    ensures
        match r {
            Ok(_) => 200 <= status <= 299,
            Err(e) => !(200 <= status <= 299) && e == spec_classify_status(status),
        },
{
    if 200 <= status && status <= 299 {
        Ok(())
    } else if status == 429 || (500 <= status && status <= 599) {
        Err(StoreError::Transient)
    } else {
        Err(StoreError::Permanent)
    }
}

/// Classifies a HEAD-object response into presence.
pub fn classify_head_response(status: u16) -> (r: Result<bool, StoreError>)
    ensures
        match r {
            Ok(b) => (b && status == 200) || (!b && status == 404),
            Err(e) => status != 200 && status != 404 && e == spec_classify_status(status),
        },
{
    if status == 200 {
        Ok(true)
    } else if status == 404 {
        Ok(false)
    } else if status == 429 || (500 <= status && status <= 599) {
        Err(StoreError::Transient)
    } else {
        Err(StoreError::Permanent)
    }
}

/// The single-flight latch around the first-use bucket probe: however
/// many callers race, only the first is told to issue the HEAD request,
/// and once the probe succeeds it is never repeated.
pub struct BucketProbe {
    pub verified: bool,
    pub in_flight: bool,
}

impl BucketProbe {
    /// A fresh latch: not yet verified, nothing in flight.
    pub fn new() -> (p: BucketProbe)
        ensures
            !p.verified,
            !p.in_flight,
    {
        BucketProbe { verified: false, in_flight: false }
    }

    /// Asks whether this caller must issue the probe: yes exactly when
    /// the bucket is unverified and nobody else is probing.
    pub fn begin(&mut self) -> (do_probe: bool)
        ensures
            do_probe == (!old(self).verified && !old(self).in_flight),
            final(self).verified == old(self).verified,
            final(self).in_flight == (old(self).in_flight || do_probe),
    {
        if !self.verified && !self.in_flight {
            self.in_flight = true;
            true
        } else {
            false
        }
    }

    /// Records the probe's outcome: 200 latches the bucket as verified
    /// for good, 404 means the bucket does not exist (permanent), other
    /// failures are classified and the latch reopens for a retry.
    pub fn complete(&mut self, status: u16) -> (r: Result<(), StoreError>)
        requires
            !old(self).verified,
        ensures
            !final(self).in_flight,
            match r {
                Ok(_) => status == 200 && final(self).verified,
                Err(e) => status != 200 && !final(self).verified && e == (if status == 404 {
                    StoreError::Permanent
                } else {
                    spec_classify_status(status)
                }),
            },
    {
        self.in_flight = false;
        if status == 200 {
            self.verified = true;
            Ok(())
        } else if status == 404 {
            Err(StoreError::Permanent)
        } else if status == 429 || (500 <= status && status <= 599) {
            Err(StoreError::Transient)
        } else {
            Err(StoreError::Permanent)
        }
    }
}

/// The namespaced form of a key.
pub open spec fn spec_prefixed(prefix: Option<Vec<u8>>, key: Seq<u8>) -> Seq<u8> {
    match prefix {
        Some(p) => p@ + seq![47u8] + key,
        None => key,
    }
}

/// A usable namespace: non-empty and not beginning with a slash, so no
/// namespaced key ever begins with one.
pub open spec fn prefix_wf(prefix: Option<Vec<u8>>) -> bool {
    prefix matches Some(p) ==> p@.len() > 0 && p@[0] != 47
}

/// Prefixes a key with the configured namespace, if one is set.
pub fn prefixed_key(prefix: &Option<Vec<u8>>, key: &Vec<u8>) -> (r: Vec<u8>)
    ensures
        r@ == spec_prefixed(*prefix, key@),
{
    match prefix {
        Some(p) => {
            let mut out = crate::kv::clone_vec(p);
            out.push(47u8);
            let ghost mid = out@;
            let mut tail = crate::kv::clone_vec(key);
            out.append(&mut tail);
            proof {
                assert(out@ =~= p@ + seq![47u8] + key@);
            }
            out
        },
        None => crate::kv::clone_vec(key),
    }
}

/// Connection settings for an S3-compatible store.
pub struct S3Config {
    pub region: Vec<u8>,
    pub endpoint: Vec<u8>,
    pub bucket: Vec<u8>,
    pub prefix: Option<Vec<u8>>,
    pub key: Vec<u8>,
    pub secret: Vec<u8>,
}

/// Which required setting was missing.
#[derive(Clone, Copy, PartialEq, Eq, Structural, Debug)]
pub enum ConfigError {
    MissingKey,
    MissingSecret,
    MissingBucket,
}

/// The region assumed when none is configured.
pub open spec fn spec_default_region() -> Seq<u8> {
    seq![117u8, 115u8, 45u8, 101u8, 97u8, 115u8, 116u8, 45u8, 49u8]
}

/// The region assumed when none is configured ("us-east-1").
pub fn default_region() -> (r: Vec<u8>)
    ensures
        r@ == spec_default_region(),
{
    let mut r: Vec<u8> = Vec::new();
    r.push(117u8);
    r.push(115u8);
    r.push(45u8);
    r.push(101u8);
    r.push(97u8);
    r.push(115u8);
    r.push(116u8);
    r.push(45u8);
    r.push(49u8);
    proof {
        assert(r@ =~= spec_default_region());
    }
    r
}

/// The endpoint assumed for a region when none is configured:
/// "https://s3.dualstack." then the region then ".amazonaws.com".
pub open spec fn spec_default_endpoint(region: Seq<u8>) -> Seq<u8> {
    seq![
        104u8, 116u8, 116u8, 112u8, 115u8, 58u8, 47u8, 47u8, 115u8, 51u8, 46u8, 100u8, 117u8,
        97u8, 108u8, 115u8, 116u8, 97u8, 99u8, 107u8, 46u8,
    ] + region + seq![
        46u8, 97u8, 109u8, 97u8, 122u8, 111u8, 110u8, 97u8, 119u8, 115u8, 46u8, 99u8, 111u8,
        109u8,
    ]
}

/// Builds the default endpoint for a region.
pub fn default_endpoint(region: &Vec<u8>) -> (r: Vec<u8>)
    ensures
        r@ == spec_default_endpoint(region@),
{
    let mut r: Vec<u8> = Vec::new();
    let mut head: Vec<u8> = vec![
        104u8, 116u8, 116u8, 112u8, 115u8, 58u8, 47u8, 47u8, 115u8, 51u8, 46u8, 100u8, 117u8,
        97u8, 108u8, 115u8, 116u8, 97u8, 99u8, 107u8, 46u8,
    ];
    r.append(&mut head);
    let mut mid = crate::kv::clone_vec(region);
    r.append(&mut mid);
    let mut tail: Vec<u8> = vec![
        46u8, 97u8, 109u8, 97u8, 122u8, 111u8, 110u8, 97u8, 119u8, 115u8, 46u8, 99u8, 111u8,
        109u8,
    ];
    r.append(&mut tail);
    proof {
        assert(r@ =~= spec_default_endpoint(region@));
    }
    r
}

/// Assembles the S3 settings from environment values and arguments: the
/// environment wins over arguments for bucket and prefix, region and
/// endpoint fall back to their defaults, and each missing required
/// setting is reported by name.
pub fn s3_config_from_parts(
    region_env: Option<Vec<u8>>,
    endpoint_env: Option<Vec<u8>>,
    key_env: Option<Vec<u8>>,
    secret_env: Option<Vec<u8>>,
    bucket_env: Option<Vec<u8>>,
    bucket_arg: Option<Vec<u8>>,
    prefix_env: Option<Vec<u8>>,
    prefix_arg: Option<Vec<u8>>,
) -> (r: Result<S3Config, ConfigError>)
    ensures
        match r {
            Ok(c) => {
                &&& key_env matches Some(k) && c.key == k
                &&& secret_env matches Some(s) && c.secret == s
                &&& c.region@ == (match region_env {
                    Some(reg) => reg@,
                    None => spec_default_region(),
                })
                &&& c.endpoint@ == (match endpoint_env {
                    Some(e) => e@,
                    None => spec_default_endpoint(
                        match region_env {
                            Some(reg) => reg@,
                            None => spec_default_region(),
                        },
                    ),
                })
                &&& c.bucket == (match bucket_env {
                    Some(b) => b,
                    None => bucket_arg->Some_0,
                })
                &&& (bucket_env is Some || bucket_arg is Some)
                &&& c.prefix == (if prefix_env is Some {
                    prefix_env
                } else {
                    prefix_arg
                })
            },
            Err(e) => {
                &&& e == ConfigError::MissingKey ==> key_env is None
                &&& e == ConfigError::MissingSecret ==> key_env is Some && secret_env is None
                &&& e == ConfigError::MissingBucket ==> key_env is Some && secret_env is Some
                    && bucket_env is None && bucket_arg is None
            },
        },
        r is Err <==> (key_env is None || secret_env is None || (bucket_env is None
            && bucket_arg is None)),
{
    let key = match key_env {
        Some(k) => k,
        None => {
            return Err(ConfigError::MissingKey);
        },
    };
    let secret = match secret_env {
        Some(s) => s,
        None => {
            return Err(ConfigError::MissingSecret);
        },
    };
    let bucket = match bucket_env {
        Some(b) => b,
        None => match bucket_arg {
            Some(b) => b,
            None => {
                return Err(ConfigError::MissingBucket);
            },
        },
    };
    let region = match region_env {
        Some(r) => r,
        None => default_region(),
    };
    let endpoint = match endpoint_env {
        Some(e) => e,
        None => default_endpoint(&region),
    };
    let prefix = if prefix_env.is_some() {
        prefix_env
    } else {
        prefix_arg
    };
    Ok(S3Config { region, endpoint, bucket, prefix, key, secret })
}

/// The kinds of store a path can name.
#[derive(Clone, Copy, PartialEq, Eq, Structural, Debug)]
pub enum StoreKind {
    S3,
    Filesystem,
}

/// The "s3://" scheme marker.
pub open spec fn spec_s3_scheme() -> Seq<u8> {
    seq![115u8, 51u8, 58u8, 47u8, 47u8]
}

/// Decides which backend a store path names: an "s3://" URL names the
/// S3 store, anything else a filesystem root.
pub fn store_kind(path: &Vec<u8>) -> (k: StoreKind)
    ensures
        (k == StoreKind::S3) == (path@.len() >= 5 && path@.take(5) == spec_s3_scheme()),
{
    if path.len() >= 5 && path[0] == 115u8 && path[1] == 51u8 && path[2] == 58u8 && path[3] == 47u8
        && path[4] == 47u8 {
        proof {
            assert(path@.take(5) =~= spec_s3_scheme());
        }
        StoreKind::S3
    } else {
        proof {
            if path@.len() >= 5 && path@.take(5) == spec_s3_scheme() {
                assert(path@[0] == 115u8 && path@[1] == 51u8 && path@[2] == 58u8 && path@[3]
                    == 47u8 && path@[4] == 47u8) by {
                    assert(path@.take(5)[0] == path@[0]);
                    assert(path@.take(5)[1] == path@[1]);
                    assert(path@.take(5)[2] == path@[2]);
                    assert(path@.take(5)[3] == path@[3]);
                    assert(path@.take(5)[4] == path@[4]);
                }
            }
        }
        StoreKind::Filesystem
    }
}

/// An S3-compatible store client: the bucket handle, credentials, key
/// namespace and the probe latch. The HTTP transport drives it through
/// the URL builders and response classifiers.
pub struct S3Store {
    pub bucket: rusty_s3::Bucket,
    pub credentials: rusty_s3::Credentials,
    pub prefix: Option<Vec<u8>>,
    pub probe: BucketProbe,
    pub presign_secs: u64,
}

impl S3Store {
    /// The key namespace keeps every presigned key well-formed.
    pub open spec fn wf(&self) -> bool {
        prefix_wf(self.prefix)
    }

    /// Builds a client from settings; succeeds exactly when the endpoint,
    /// bucket and region form a usable bucket handle, the credentials are
    /// valid text, and the namespace (if any) is non-empty and does not
    /// begin with a slash.
    pub fn new(config: S3Config) -> (r: Option<S3Store>)
        ensures
            r is Some <==> bucket_ok(config.endpoint@, config.bucket@, config.region@) && utf8_ok(
                config.key@,
            ) && utf8_ok(config.secret@) && prefix_wf(config.prefix),
            r matches Some(s) ==> {
                &&& s.wf()
                &&& s.prefix == config.prefix
                &&& !s.probe.verified
                &&& !s.probe.in_flight
                &&& s.presign_secs == PRESIGNED_URL_DURATION_SECONDS
            },
    {
        match &config.prefix {
            Some(p) => {
                if p.len() == 0 || p[0] == 47 {
                    return None;
                }
            },
            None => {},
        }
        let bucket = match make_bucket(&config.endpoint, &config.bucket, &config.region) {
            Some(b) => b,
            None => {
                return None;
            },
        };
        let credentials = match make_credentials(&config.key, &config.secret) {
            Some(c) => c,
            None => {
                return None;
            },
        };
        Some(
            S3Store {
                bucket,
                credentials,
                prefix: config.prefix,
                probe: BucketProbe::new(),
                presign_secs: PRESIGNED_URL_DURATION_SECONDS,
            },
        )
    }

    /// A presigned URL probing the bucket.
    pub fn probe_url(&self) -> (r: String) {
        sign_head_bucket(&self.bucket, &self.credentials, self.presign_secs)
    }

    /// Claims the probe for this caller; see `BucketProbe::begin`.
    pub fn begin_probe(&mut self) -> (do_probe: bool)
        ensures
            do_probe == (!old(self).probe.verified && !old(self).probe.in_flight),
            final(self).probe.verified == old(self).probe.verified,
            final(self).probe.in_flight == (old(self).probe.in_flight || do_probe),
            final(self).prefix == old(self).prefix,
            final(self).presign_secs == old(self).presign_secs,
    {
        self.probe.begin()
    }

    /// Settles the probe with the HEAD status; see `BucketProbe::complete`.
    pub fn complete_probe(&mut self, status: u16) -> (r: Result<(), StoreError>)
        requires
            !old(self).probe.verified,
        ensures
            !final(self).probe.in_flight,
            final(self).prefix == old(self).prefix,
            final(self).presign_secs == old(self).presign_secs,
            match r {
                Ok(_) => status == 200 && final(self).probe.verified,
                Err(e) => status != 200 && !final(self).probe.verified && e == (if status == 404 {
                    StoreError::Permanent
                } else {
                    spec_classify_status(status)
                }),
            },
    {
        self.probe.complete(status)
    }

    /// A presigned URL reading `key` within the namespace: one comes
    /// back for every valid key that is UTF-8 text.
    pub fn get_url(&self, key: &Vec<u8>) -> (r: Option<String>)
        requires
            self.wf(),
            crate::valid_key(key@),
            key@[0] != 47,
        ensures
            r is Some <==> utf8_ok(spec_prefixed(self.prefix, key@)),
    {
        let k = prefixed_key(&self.prefix, key);
        proof {
            assert(k@.len() > 0 && k@[0] != 47);
        }
        sign_get_object(&self.bucket, &self.credentials, &k, self.presign_secs)
    }

    /// A presigned URL writing `key` within the namespace: one comes
    /// back for every valid key that is UTF-8 text.
    pub fn set_url(&self, key: &Vec<u8>) -> (r: Option<String>)
        requires
            self.wf(),
            crate::valid_key(key@),
            key@[0] != 47,
        ensures
            r is Some <==> utf8_ok(spec_prefixed(self.prefix, key@)),
    {
        let k = prefixed_key(&self.prefix, key);
        proof {
            assert(k@.len() > 0 && k@[0] != 47);
        }
        sign_put_object(&self.bucket, &self.credentials, &k, self.presign_secs)
    }

    /// A presigned URL deleting `key` within the namespace: one comes
    /// back for every valid key that is UTF-8 text.
    pub fn remove_url(&self, key: &Vec<u8>) -> (r: Option<String>)
        requires
            self.wf(),
            crate::valid_key(key@),
            key@[0] != 47,
        ensures
            r is Some <==> utf8_ok(spec_prefixed(self.prefix, key@)),
    {
        let k = prefixed_key(&self.prefix, key);
        proof {
            assert(k@.len() > 0 && k@[0] != 47);
        }
        sign_delete_object(&self.bucket, &self.credentials, &k, self.presign_secs)
    }

    /// A presigned URL probing `key` within the namespace: one comes
    /// back for every valid key that is UTF-8 text.
    pub fn exists_url(&self, key: &Vec<u8>) -> (r: Option<String>)
        requires
            self.wf(),
            crate::valid_key(key@),
            key@[0] != 47,
        ensures
            r is Some <==> utf8_ok(spec_prefixed(self.prefix, key@)),
    {
        let k = prefixed_key(&self.prefix, key);
        proof {
            assert(k@.len() > 0 && k@[0] != 47);
        }
        sign_head_object(&self.bucket, &self.credentials, &k, self.presign_secs)
    }
}

} // verus!
