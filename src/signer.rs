//! Minting of time-limited read URLs for stored objects.
use vstd::prelude::*;
use crate::filter::contains_seq;
use vstd::utf8::encode_utf8;
use rusoto_core::credential::AwsCredentials;
use rusoto_core::Region;
use rusoto_s3::util::{PreSignedRequest, PreSignedRequestOption};
use rusoto_s3::GetObjectRequest;
use std::str::FromStr;

verus! {

/// Lifetime of a minted URL, in seconds (thirty minutes).
pub const URL_LIFETIME_SECS: u64 = 1800;

/// The region name used when the configured one is not known.
pub open spec fn fallback_region_name() -> Seq<char> {
    seq!['u', 's', '-', 'e', 'a', 's', 't', '-', '1']
}

/// Bytes that URL signing leaves as they are in a query value: ASCII
/// letters and digits and `-._~`.
pub open spec fn is_unreserved_byte(b: u8) -> bool {
    (0x61 <= b && b <= 0x7a) || (0x41 <= b && b <= 0x5a) || (0x30 <= b && b <= 0x39) || b == 0x2d
        || b == 0x2e || b == 0x5f || b == 0x7e
}

/// Upper-case hexadecimal digit of `n`, for `n < 16`.
pub open spec fn hex_digit(n: u8) -> char {
    if n < 10 {
        (('0' as u8) + n) as char
    } else {
        (('A' as u8) + n - 10) as char
    }
}

/// Percent-encodes `bytes`: unreserved bytes, and `/` when `keep_slash`,
/// stand as they are; every other byte becomes `%XY`.
pub open spec fn percent_encode(bytes: Seq<u8>, keep_slash: bool) -> Seq<char>
    decreases bytes.len(),
{
    if bytes.len() == 0 {
        Seq::empty()
    } else {
        let b = bytes.last();
        percent_encode(bytes.drop_last(), keep_slash) + if is_unreserved_byte(b) || (keep_slash && b
            == 0x2f) {
            seq![b as char]
        } else {
            seq!['%', hex_digit(b / 16), hex_digit(b % 16)]
        }
    }
}

/// A URL path as signing writes it: the UTF-8 bytes of `s`, percent-encoded
/// with `/` kept.
pub open spec fn encoded_path(s: Seq<char>) -> Seq<char> {
    percent_encode(encode_utf8(s), true)
}

/// A query value as signing writes it: the UTF-8 bytes of `s`,
/// percent-encoded with `/` escaped.
pub open spec fn encoded_value(s: Seq<char>) -> Seq<char> {
    percent_encode(encode_utf8(s), false)
}

/// Whether rusoto knows `name` as a region name.
pub uninterp spec fn known_region(name: Seq<char>) -> bool;

/// The canonical name (such as "eu-west-1") of the region rusoto parses from
/// `name`.
pub uninterp spec fn region_code(name: Seq<char>) -> Seq<char>;

/// Relies on rusoto's `FromStr` for `Region`: a name parses exactly when it
/// is known, and "us-east-1" is known.
#[verifier::external_body]
fn is_known_region(name: &str) -> (r: bool)
    ensures
        r == known_region(name@),
        name@ == fallback_region_name() ==> r,
{
    Region::from_str(name).is_ok()
}

/// Relies on rusoto's `FromStr` for `Region` (to turn the known name into a
/// region) and on rusoto_s3's `PreSignedRequest::get_presigned_url` for a
/// `GetObjectRequest`. Signing is local and uses the current time. The result
/// is `scheme://host` + the encoded path `/bucket/key` + `?` + the query;
/// the query holds `X-Amz-Expires=<seconds>` and `X-Amz-Credential=` with the
/// encoded `<access key>/<date>/<region name>/s3/aws4_request`.
#[verifier::external_body]
fn presign_get(
    region_name: &str,
    bucket: &String,
    key: &String,
    access_key: &String,
    secret_key: &String,
    lifetime_secs: u64,
) -> (r: String)
    requires
        known_region(region_name@),
    ensures
        r@.len() > 0,
        lifetime_secs == 1800 ==> contains_seq(r@, "X-Amz-Expires=1800"@),
        contains_seq(r@, "X-Amz-Credential="@ + encoded_value(access_key@) + "%2F"@),
        contains_seq(
            r@,
            "%2F"@ + encoded_value(region_code(region_name@)) + "%2Fs3%2Faws4_request"@,
        ),
        region_name@ == fallback_region_name() ==> contains_seq(
            r@,
            "%2Fus-east-1%2Fs3%2Faws4_request"@,
        ),
        contains_seq(r@, encoded_path("/"@ + bucket@ + "/"@ + key@) + "?"@),
{
    let region = Region::from_str(region_name).unwrap();
    let request = GetObjectRequest { bucket: bucket.clone(), key: key.clone(), ..Default::default() };
    let credentials = AwsCredentials::new(access_key.clone(), secret_key.clone(), None, None);
    let option = PreSignedRequestOption { expires_in: std::time::Duration::from_secs(lifetime_secs) };
    request.get_presigned_url(&region, &credentials, &option)
}

/// Signs read URLs for the objects of one bucket, and keeps a ghost record of
/// every file name a URL was minted for.
pub struct UrlSigner {
    region_name: String,
    bucket_name: String,
    access_key: String,
    secret_key: String,
    minted: Ghost<Seq<Seq<char>>>,
}

impl UrlSigner {
    #[verifier::type_invariant]
    spec fn known(&self) -> bool {
        known_region(self.region_name@)
    }

    /// File names that URLs were minted for, in order.
    pub closed spec fn minted(&self) -> Seq<Seq<char>> {
        self.minted@
    }

    pub closed spec fn bucket_view(&self) -> Seq<char> {
        self.bucket_name@
    }

    pub closed spec fn access_key_view(&self) -> Seq<char> {
        self.access_key@
    }

    pub closed spec fn secret_key_view(&self) -> Seq<char> {
        self.secret_key@
    }

    /// The name of the region that URLs are signed for.
    pub closed spec fn region_name_view(&self) -> Seq<char> {
        self.region_name@
    }

    /// A signer for `bucket_name` with the given credentials, in the region
    /// named `region_name` when rusoto knows it, else in us-east-1.
    pub fn new(region_name: &str, bucket_name: String, access_key: String, secret_key: String) -> (r: UrlSigner)
        ensures
            r.minted() == Seq::<Seq<char>>::empty(),
            r.bucket_view() == bucket_name@,
            r.access_key_view() == access_key@,
            r.secret_key_view() == secret_key@,
            r.region_name_view() == (if known_region(region_name@) {
                region_name@
            } else {
                fallback_region_name()
            }),
    {
        let chosen = if is_known_region(region_name) {
            region_name.to_owned()
        } else {
            let fallback = "us-east-1";
            proof {
                reveal_strlit("us-east-1");
            }
            assert(fallback@ =~= fallback_region_name());
            let fallback_known = is_known_region(fallback);
            assert(fallback_known);
            fallback.to_owned()
        };
        UrlSigner {
            region_name: chosen,
            bucket_name,
            access_key,
            secret_key,
            minted: Ghost(Seq::empty()),
        }
    }

    /// The name of the region that URLs are signed for.
    pub fn region_name(&self) -> (r: &String)
        ensures
            r@ == self.region_name_view(),
    {
        &self.region_name
    }

    /// A thirty-minute read URL for `file_name`.
    pub fn get_presigned_url_for_file(&mut self, file_name: &String) -> (r: String)
        ensures
            r@.len() > 0,
            contains_seq(r@, "X-Amz-Expires=1800"@),
            contains_seq(r@, "X-Amz-Credential="@ + encoded_value(old(self).access_key_view()) + "%2F"@),
            contains_seq(
                r@,
                "%2F"@ + encoded_value(region_code(old(self).region_name_view())) + "%2Fs3%2Faws4_request"@,
            ),
            old(self).region_name_view() == fallback_region_name() ==> contains_seq(
                r@,
                "%2Fus-east-1%2Fs3%2Faws4_request"@,
            ),
            contains_seq(r@, encoded_path("/"@ + old(self).bucket_view() + "/"@ + file_name@) + "?"@),
            final(self).minted() == old(self).minted().push(file_name@),
            final(self).bucket_view() == old(self).bucket_view(),
            final(self).access_key_view() == old(self).access_key_view(),
            final(self).secret_key_view() == old(self).secret_key_view(),
            final(self).region_name_view() == old(self).region_name_view(),
    {
        proof {
            use_type_invariant(&*self);
        }
        let url = presign_get(
            self.region_name.as_str(),
            &self.bucket_name,
            file_name,
            &self.access_key,
            &self.secret_key,
            URL_LIFETIME_SECS,
        );
        self.minted = Ghost(self.minted@.push(file_name@));
        url
    }
}

} // verus!
