//! Uploading a file: the grant that the upstream gives, the signed request that stores the
//! file, the wait until it has been read, and the reference by which it is spoken of.

use crate::codec::{
    hex_digits, hex_encode, hex_value, hmac, hmac_digest, percent_decoded, sha256, sha256_digest,
};
use crate::error::{AppError, AppResult};
use crate::ident::{uuid4, uuid_of};
use crate::json::{array, lemma_items_view, object, Json, JsonView};
use crate::text::{
    before_first, begins_with, char_vec, same_text, starts_with_text, strip_prefix_text,
    text_before_first, text_between,
};
use crate::toolcall::markers::lemma_ascii_bytes;
use vstd::prelude::*;
use vstd::utf8::*;

verus! {

// ---------------------------------------------------------------------------
// Encoding addresses
// ---------------------------------------------------------------------------

/// A byte that stands for itself in an address.
pub open spec fn is_plain(b: u8) -> bool {
    ||| 0x30 <= b <= 0x39
    ||| 0x41 <= b <= 0x5a
    ||| 0x61 <= b <= 0x7a
    ||| b == 0x5f
    ||| b == 0x2d
    ||| b == 0x7e
    ||| b == 0x2e
}

/// The upper-case hexadecimal digit of a number below sixteen.
pub open spec fn upper_hex(d: int) -> char {
    if d < 10 {
        (0x30 + d) as char
    } else {
        (0x37 + d) as char
    }
}

/// A byte in an address: itself where it is plain, otherwise a percent sign and two
/// hexadecimal digits. A slash stays where `slashes` says so.
pub open spec fn encoded_byte(b: u8, slashes: bool) -> Seq<char> {
    if is_plain(b) || (slashes && b == 0x2f) {
        seq![b as char]
    } else {
        seq!['%', upper_hex(b as int / 16), upper_hex(b as int % 16)]
    }
}

/// The bytes in an address.
pub open spec fn encoded_bytes(b: Seq<u8>, slashes: bool) -> Seq<char>
    decreases b.len(),
{
    if b.len() == 0 {
        Seq::empty()
    } else {
        encoded_bytes(b.drop_last(), slashes) + encoded_byte(b.last(), slashes)
    }
}

/// A text in an address.
pub open spec fn uri_encoded(raw: Seq<char>, slashes: bool) -> Seq<char> {
    encoded_bytes(encode_utf8(raw), slashes)
}

fn upper_hex_digit(d: u8) -> (r: char)
    requires
        d < 16,
    ensures
        r == upper_hex(d as int),
{
    if d < 10 {
        (0x30 + d) as char
    } else {
        (0x37 + d) as char
    }
}

/// A text in an address: letters, digits and `_-~.` stay, a slash stays where
/// `ignore_slashes` says so, and every other byte is written as a percent sign and two
/// upper-case hexadecimal digits.
pub fn v4_uri_encode(raw: &str, ignore_slashes: bool) -> (r: String)
    ensures
        r@ == uri_encoded(raw@, ignore_slashes),
{
    let bytes = raw.as_bytes();
    let n: usize = bytes.len();
    let ghost b = encode_utf8(raw@);
    let mut res = String::new();
    let mut i: usize = 0;
    proof {
        assert(res@ =~= encoded_bytes(b.take(0), ignore_slashes));
    }
    while i < n
        invariant
            bytes@ == b,
            n == b.len(),
            i <= n,
            res@ == encoded_bytes(b.take(i as int), ignore_slashes),
        decreases n - i,
    {
        let c: u8 = bytes[i];
        let ghost before = res@;
        proof {
            assert(b.take(i as int + 1).drop_last() =~= b.take(i as int));
            assert(b.take(i as int + 1).last() == c);
        }
        if (0x30 <= c && c <= 0x39) || (0x41 <= c && c <= 0x5a) || (0x61 <= c && c <= 0x7a) || c
            == 0x5f || c == 0x2d || c == 0x7e || c == 0x2e || (ignore_slashes && c == 0x2f) {
            res.push(c as char);
            proof {
                assert(res@ =~= before + encoded_byte(c, ignore_slashes));
            }
        } else {
            res.push('%');
            res.push(upper_hex_digit(c / 16));
            res.push(upper_hex_digit(c % 16));
            proof {
                assert(res@ =~= before + encoded_byte(c, ignore_slashes));
            }
        }
        i += 1;
    }
    proof {
        assert(b.take(n as int) =~= b);
    }
    res
}

/// A character that an encoded address may hold.
pub open spec fn is_address_char(c: char, slashes: bool) -> bool {
    ||| '0' <= c <= '9'
    ||| 'A' <= c <= 'Z'
    ||| 'a' <= c <= 'z'
    ||| c == '_'
    ||| c == '-'
    ||| c == '~'
    ||| c == '.'
    ||| c == '%'
    ||| slashes && c == '/'
}

/// An encoded address holds no character that would end it or split it.
pub proof fn encoded_addresses_are_clean(b: Seq<u8>, slashes: bool)
    ensures
        forall|i: int|
            0 <= i < encoded_bytes(b, slashes).len() ==> is_address_char(
                #[trigger] encoded_bytes(b, slashes)[i],
                slashes,
            ),
    decreases b.len(),
{
    if b.len() > 0 {
        encoded_addresses_are_clean(b.drop_last(), slashes);
        let head = encoded_bytes(b.drop_last(), slashes);
        let tail = encoded_byte(b.last(), slashes);
        let all = encoded_bytes(b, slashes);
        assert(0 <= b.last() as int / 16 < 16 && 0 <= b.last() as int % 16 < 16);
        assert forall|i: int| 0 <= i < tail.len() implies is_address_char(
            #[trigger] tail[i],
            slashes,
        ) by {}
        assert forall|i: int| 0 <= i < all.len() implies is_address_char(
            #[trigger] all[i],
            slashes,
        ) by {
            if i < head.len() {
                assert(all[i] == head[i]);
            } else {
                assert(all[i] == tail[i - head.len()]);
            }
        }
    }
}

proof fn lemma_encoded_first(b: Seq<u8>, slashes: bool)
    requires
        b.len() > 0,
    ensures
        encoded_bytes(b, slashes) == encoded_byte(b[0], slashes) + encoded_bytes(
            b.skip(1),
            slashes,
        ),
    decreases b.len(),
{
    let rest = b.skip(1);
    if b.len() > 1 {
        lemma_encoded_first(b.drop_last(), slashes);
        assert(b.drop_last().skip(1) =~= rest.drop_last());
        assert(rest.last() == b.last());
        assert(encoded_bytes(b, slashes) =~= encoded_byte(b[0], slashes) + encoded_bytes(
            rest,
            slashes,
        ));
    } else {
        assert(b.drop_last() =~= Seq::<u8>::empty());
        assert(rest =~= Seq::<u8>::empty());
        assert(encoded_bytes(b, slashes) =~= encoded_byte(b[0], slashes) + encoded_bytes(
            rest,
            slashes,
        ));
    }
}

proof fn lemma_encoded_byte_apart(x: u8, y: u8, slashes: bool)
    requires
        encoded_byte(x, slashes) == encoded_byte(y, slashes),
    ensures
        x == y,
{
    let ex = encoded_byte(x, slashes);
    let ey = encoded_byte(y, slashes);
    if ex.len() == 1 {
        assert(ex[0] == ey[0]);
        assert(x as char == y as char);
    } else {
        assert(ex[1] == ey[1]);
        assert(ex[2] == ey[2]);
        let (a, c) = (x as int / 16, x as int % 16);
        let (p, q) = (y as int / 16, y as int % 16);
        assert(0 <= a < 16 && 0 <= c < 16 && 0 <= p < 16 && 0 <= q < 16);
        assert(upper_hex(a) == upper_hex(p) ==> a == p);
        assert(upper_hex(c) == upper_hex(q) ==> c == q);
        assert(x == 16 * a + c && y == 16 * p + q);
    }
}

/// Different texts have different addresses.
pub proof fn encoded_addresses_are_distinct(x: Seq<u8>, y: Seq<u8>, slashes: bool)
    requires
        encoded_bytes(x, slashes) == encoded_bytes(y, slashes),
    ensures
        x == y,
    decreases x.len(),
{
    if x.len() > 0 {
        lemma_encoded_first(x, slashes);
        assert(encoded_bytes(x, slashes).len() >= encoded_byte(x[0], slashes).len());
    }
    if y.len() > 0 {
        lemma_encoded_first(y, slashes);
        assert(encoded_bytes(y, slashes).len() >= encoded_byte(y[0], slashes).len());
    }
    if x.len() == 0 || y.len() == 0 {
        assert(x =~= y);
    } else {
        let ex = encoded_byte(x[0], slashes);
        let ey = encoded_byte(y[0], slashes);
        let rx = encoded_bytes(x.skip(1), slashes);
        let ry = encoded_bytes(y.skip(1), slashes);
        let e = encoded_bytes(x, slashes);
        assert(e[0] == ex[0] && e[0] == ey[0]);
        assert(ex.len() == ey.len());
        assert(ex =~= e.take(ex.len() as int));
        assert(ey =~= e.take(ex.len() as int));
        lemma_encoded_byte_apart(x[0], y[0], slashes);
        assert(rx =~= e.skip(ex.len() as int));
        assert(ry =~= e.skip(ex.len() as int));
        encoded_addresses_are_distinct(x.skip(1), y.skip(1), slashes);
        assert(x =~= seq![x[0]] + x.skip(1));
        assert(y =~= seq![y[0]] + y.skip(1));
    }
}

/// Decoding an address gives back what was encoded.
pub proof fn encoded_addresses_are_decoded(b: Seq<u8>, slashes: bool)
    ensures
        percent_decoded(encode_utf8(encoded_bytes(b, slashes))) == b,
    decreases b.len(),
{
    let e = encoded_bytes(b, slashes);
    encoded_addresses_are_clean(b, slashes);
    lemma_ascii_bytes(e);
    let u = encode_utf8(e);
    if b.len() == 0 {
        assert(u =~= Seq::<u8>::empty());
        assert(percent_decoded(u) =~= b);
    } else {
        let x = b[0];
        let rest = b.skip(1);
        let first = encoded_byte(x, slashes);
        let tail = encoded_bytes(rest, slashes);
        lemma_encoded_first(b, slashes);
        encoded_addresses_are_decoded(rest, slashes);
        encoded_addresses_are_clean(rest, slashes);
        lemma_ascii_bytes(tail);
        assert(u.skip(first.len() as int) =~= encode_utf8(tail)) by {
            assert forall|i: int| 0 <= i < tail.len() implies u.skip(first.len() as int)[i]
                == encode_utf8(tail)[i] by {
                assert(e[first.len() + i] == tail[i]);
                assert(u[first.len() + i] == e[first.len() + i] as u8);
                assert(encode_utf8(tail)[i] == tail[i] as u8);
            }
        }
        assert(e[0] == first[0] && u[0] == e[0] as u8);
        if first.len() == 1 {
            assert(u[0] == x && x != 0x25);
        } else {
            let (h, l) = (x as int / 16, x as int % 16);
            assert(0 <= h < 16 && 0 <= l < 16 && x == 16 * h + l);
            assert(e[1] == first[1] && u[1] == e[1] as u8);
            assert(e[2] == first[2] && u[2] == e[2] as u8);
            assert(hex_value(u[1]) == Some(h as u8));
            assert(hex_value(u[2]) == Some(l as u8));
        }
        assert(percent_decoded(u) =~= seq![x] + rest);
        assert(seq![x] + rest =~= b);
    }
}

// ---------------------------------------------------------------------------
// Signing
// ---------------------------------------------------------------------------

/// The keys of a grant, and the region that it is for.
#[derive(Debug)]
pub struct StsCreds<'a> {
    pub ak: &'a str,
    pub sk: &'a str,
    pub token: &'a str,
    pub region: &'a str,
}

/// The time and the place that a signature is for.
pub open spec fn signing_scope(ymd: Seq<char>, region: Seq<char>) -> Seq<char> {
    ymd + "/"@ + region + "/oss/aliyun_v4_request"@
}

/// The request that is signed, in its canonical form.
pub open spec fn canonical_request(
    bucket: Seq<char>,
    key: Seq<char>,
    content_type: Seq<char>,
    xdate: Seq<char>,
    token: Seq<char>,
) -> Seq<char> {
    "PUT\n"@ + uri_encoded("/"@ + bucket + "/"@ + key, true) + "\n\ncontent-type:"@ + content_type
        + "\nx-oss-content-sha256:UNSIGNED-PAYLOAD\nx-oss-date:"@ + xdate
        + "\nx-oss-security-token:"@ + token + "\n\n\nUNSIGNED-PAYLOAD"@
}

/// The text that is signed, given the digest of the request in hexadecimal digits.
pub open spec fn string_to_sign(xdate: Seq<char>, scope: Seq<char>, hash: Seq<char>) -> Seq<char> {
    "OSS4-HMAC-SHA256\n"@ + xdate + "\n"@ + scope + "\n"@ + hash
}

/// The header that authorizes a request, given its signature in hexadecimal digits.
pub open spec fn authorization_header(
    ak: Seq<char>,
    scope: Seq<char>,
    signature: Seq<char>,
) -> Seq<char> {
    "OSS4-HMAC-SHA256 Credential="@ + ak + "/"@ + scope + ", Signature="@ + signature
}

/// The key that signs: the secret, bound in turn to the day, to the region, to the service and
/// to this kind of request.
pub open spec fn signing_key(sk: Seq<char>, ymd: Seq<char>, region: Seq<char>) -> Seq<u8> {
    hmac_digest(
        hmac_digest(
            hmac_digest(
                hmac_digest(encode_utf8("aliyun_v4"@ + sk), encode_utf8(ymd)),
                encode_utf8(region),
            ),
            encode_utf8("oss"@),
        ),
        encode_utf8("aliyun_v4_request"@),
    )
}

/// The header that authorizes a request.
pub open spec fn authorization(
    creds: StsCreds,
    bucket: Seq<char>,
    key: Seq<char>,
    content_type: Seq<char>,
    xdate: Seq<char>,
    ymd: Seq<char>,
) -> Seq<char> {
    let scope = signing_scope(ymd, creds.region@);
    let request = canonical_request(bucket, key, content_type, xdate, creds.token@);
    let hash = hex_digits(sha256_digest(encode_utf8(request)));
    let signature = hmac_digest(
        signing_key(creds.sk@, ymd, creds.region@),
        encode_utf8(string_to_sign(xdate, scope, hash)),
    );
    authorization_header(creds.ak@, scope, hex_digits(signature))
}

/// The time and the place that a signature is for.
pub fn build_scope(ymd: &str, region: &str) -> (r: String)
    ensures
        r@ == signing_scope(ymd@, region@),
{
    let mut scope = ymd.to_string();
    scope.append("/");
    scope.append(region);
    scope.append("/oss/aliyun_v4_request");
    scope
}

/// The request that is signed, in its canonical form.
pub fn build_canonical_request(
    bucket: &str,
    key: &str,
    content_type: &str,
    xdate: &str,
    token: &str,
) -> (r: String)
    ensures
        r@ == canonical_request(bucket@, key@, content_type@, xdate@, token@),
{
    let mut path = "/".to_string();
    path.append(bucket);
    path.append("/");
    path.append(key);
    let mut request = "PUT\n".to_string();
    request.append(v4_uri_encode(path.as_str(), true).as_str());
    request.append("\n\ncontent-type:");
    request.append(content_type);
    request.append("\nx-oss-content-sha256:UNSIGNED-PAYLOAD\nx-oss-date:");
    request.append(xdate);
    request.append("\nx-oss-security-token:");
    request.append(token);
    request.append("\n\n\nUNSIGNED-PAYLOAD");
    request
}

/// The text that is signed, given the digest of the request in hexadecimal digits.
pub fn build_string_to_sign(xdate: &str, scope: &str, hash: &str) -> (r: String)
    ensures
        r@ == string_to_sign(xdate@, scope@, hash@),
{
    let mut text = "OSS4-HMAC-SHA256\n".to_string();
    text.append(xdate);
    text.append("\n");
    text.append(scope);
    text.append("\n");
    text.append(hash);
    text
}

/// The header that authorizes a request, given its signature in hexadecimal digits.
pub fn build_authorization(ak: &str, scope: &str, signature: &str) -> (r: String)
    ensures
        r@ == authorization_header(ak@, scope@, signature@),
{
    let mut auth = "OSS4-HMAC-SHA256 Credential=".to_string();
    auth.append(ak);
    auth.append("/");
    auth.append(scope);
    auth.append(", Signature=");
    auth.append(signature);
    auth
}

/// The headers of the request that stores a file: the authorization, the date, and the mark
/// that the contents are not signed. `xdate` and `ymd` are the time and the day of now.
pub fn sign_put(
    creds: &StsCreds,
    bucket: &str,
    key: &str,
    content_type: &str,
    xdate: &str,
    ymd: &str,
) -> (r: (String, String, String))
    ensures
        r.0@ == authorization(*creds, bucket@, key@, content_type@, xdate@, ymd@),
        r.1@ == xdate@,
        r.2@ == "UNSIGNED-PAYLOAD"@,
{
    let request = build_canonical_request(bucket, key, content_type, xdate, creds.token);
    let scope = build_scope(ymd, creds.region);
    let hash = hex_encode(&sha256(request.as_str().as_bytes()));
    let to_sign = build_string_to_sign(xdate, scope.as_str(), hash.as_str());
    let mut k_secret = "aliyun_v4".to_string();
    k_secret.append(creds.sk);
    let k_date = hmac(k_secret.as_str().as_bytes(), ymd.as_bytes());
    let k_region = hmac(&k_date, creds.region.as_bytes());
    let k_product = hmac(&k_region, "oss".as_bytes());
    let k_signing = hmac(&k_product, "aliyun_v4_request".as_bytes());
    let signature = hex_encode(&hmac(&k_signing, to_sign.as_str().as_bytes()));
    let auth = build_authorization(creds.ak, scope.as_str(), signature.as_str());
    (auth, xdate.to_string(), "UNSIGNED-PAYLOAD".to_string())
}

// ---------------------------------------------------------------------------
// The grant
// ---------------------------------------------------------------------------

/// How the upstream classes a file of a type.
pub open spec fn class_of(content_type: Seq<char>) -> Seq<char> {
    if begins_with(content_type, "image/"@) {
        "image"@
    } else if begins_with(content_type, "audio/"@) {
        "audio"@
    } else if begins_with(content_type, "video/"@) {
        "video"@
    } else {
        "document"@
    }
}

/// How the upstream classes a file of a type.
pub fn file_class(content_type: &str) -> (r: &'static str)
    ensures
        r@ == class_of(content_type@),
{
    if starts_with_text(content_type, "image/") {
        "image"
    } else if starts_with_text(content_type, "audio/") {
        "audio"
    } else if starts_with_text(content_type, "video/") {
        "video"
    } else {
        "document"
    }
}

/// What asks for a grant.
pub fn grant_request(filename: &str, size: usize) -> (r: Json)
    ensures
        r@ == object().with("filename"@, JsonView::Str(filename@)).with(
            "filesize"@,
            JsonView::Int(size as int),
        ).with("filetype"@, JsonView::Str("file"@)),
{
    Json::object().with("filename", Json::str(filename)).with(
        "filesize",
        Json::uint(size as u64),
    ).with("filetype", Json::str("file"))
}

/// How long to wait before a grant is asked for once more, in milliseconds, behind the
/// `attempt`th failure, counted from zero: three attempts are made, with growing waits.
pub fn grant_retry_delay(attempt: u32) -> (r: Option<u64>)
    ensures
        r == (if attempt < 2 {
            Some((300 * (attempt + 1)) as u64)
        } else {
            None
        }),
{
    if attempt < 2 {
        Some(300 * (attempt as u64 + 1))
    } else {
        None
    }
}

/// A grant to store one file.
#[derive(Debug)]
pub struct Grant {
    pub ak: String,
    pub sk: String,
    pub token: String,
    pub bucket: String,
    pub endpoint: String,
    pub file_path: String,
    pub file_id: String,
    pub region: String,
}

/// The text of a field, empty where there is none.
pub open spec fn field(d: JsonView, key: Seq<char>) -> Seq<char> {
    match d.get_str(key) {
        Some(s) => s,
        None => ""@,
    }
}

/// A text without a prefix that it may have.
pub open spec fn without_prefix(s: Seq<char>, prefix: Seq<char>) -> Seq<char> {
    if begins_with(s, prefix) {
        s.skip(prefix.len() as int)
    } else {
        s
    }
}

impl Grant {
    /// The grant says what the data of an answer say.
    pub open spec fn says(self, d: JsonView) -> bool {
        &&& self.ak@ == field(d, "access_key_id"@)
        &&& self.sk@ == field(d, "access_key_secret"@)
        &&& self.token@ == field(d, "security_token"@)
        &&& self.bucket@ == field(d, "bucketname"@)
        &&& self.endpoint@ == field(d, "endpoint"@)
        &&& self.file_path@ == field(d, "file_path"@)
        &&& self.file_id@ == field(d, "file_id"@)
        &&& self.region@ == without_prefix(field(d, "region"@), "oss-"@)
    }
}

/// The data of an answer lack what no upload can do without.
pub open spec fn lacks_fields(d: JsonView) -> bool {
    ||| field(d, "access_key_id"@).len() == 0
    ||| field(d, "bucketname"@).len() == 0
    ||| field(d, "file_path"@).len() == 0
}

fn read_field(d: &Json, key: &str) -> (r: String)
    ensures
        r@ == field(d@, key@),
{
    match d.get_str(key) {
        Some(s) => s.to_string(),
        None => "".to_string(),
    }
}

/// The failure that the upstream is to blame for.
pub open spec fn upstream_error(e: AppError, message: Seq<char>) -> bool {
    e matches AppError::Upstream(m) && m@ == message
}

/// The grant in an answer.
pub fn read_grant(answer: &Json) -> (r: AppResult<Grant>)
    ensures
        match answer@.get("data"@) {
            None => r matches Err(e) && upstream_error(e, "getstsToken response missing data"@),
            Some(d) => if lacks_fields(d) {
                r matches Err(e) && upstream_error(
                    e,
                    "getstsToken response missing required fields"@,
                )
            } else {
                r matches Ok(g) && g.says(d)
            },
        },
{
    let d = match answer.get("data") {
        Some(d) => d,
        None => {
            return Err(AppError::Upstream("getstsToken response missing data".to_string()));
        },
    };
    let raw_region = read_field(d, "region");
    let region = match strip_prefix_text(raw_region.as_str(), "oss-") {
        Some(s) => s,
        None => raw_region,
    };
    let grant = Grant {
        ak: read_field(d, "access_key_id"),
        sk: read_field(d, "access_key_secret"),
        token: read_field(d, "security_token"),
        bucket: read_field(d, "bucketname"),
        endpoint: read_field(d, "endpoint"),
        file_path: read_field(d, "file_path"),
        file_id: read_field(d, "file_id"),
        region,
    };
    if grant.ak.as_str().is_empty() || grant.bucket.as_str().is_empty()
        || grant.file_path.as_str().is_empty() {
        return Err(
            AppError::Upstream("getstsToken response missing required fields".to_string()),
        );
    }
    Ok(grant)
}

/// The failure to get a grant.
pub fn grant_failure(last_err: &str) -> (r: AppError)
    ensures
        upstream_error(r, "getstsToken "@ + last_err@),
{
    let mut m = "getstsToken ".to_string();
    m.append(last_err);
    AppError::Upstream(m)
}

// ---------------------------------------------------------------------------
// Storing
// ---------------------------------------------------------------------------

/// The request that stores a file.
#[derive(Debug)]
pub struct PutRequest {
    pub url: String,
    pub authorization: String,
    pub date: String,
    pub content_sha256: String,
    pub security_token: String,
}

/// The keys of a grant.
pub open spec fn creds_of(g: Grant, creds: StsCreds) -> bool {
    &&& creds.ak@ == g.ak@
    &&& creds.sk@ == g.sk@
    &&& creds.token@ == g.token@
    &&& creds.region@ == g.region@
}

/// The request that stores a file of a type under a grant. Slashes in the path are encoded in
/// the address and kept in what is signed.
pub fn put_request(g: &Grant, content_type: &str, xdate: &str, ymd: &str) -> (r: PutRequest)
    ensures
        r.url@ == "https://"@ + g.bucket@ + "."@ + g.endpoint@ + "/"@ + uri_encoded(
            g.file_path@,
            false,
        ),
        r.date@ == xdate@,
        r.content_sha256@ == "UNSIGNED-PAYLOAD"@,
        r.security_token@ == g.token@,
        forall|creds: StsCreds|
            creds_of(*g, creds) ==> r.authorization@ == #[trigger] authorization(
                creds,
                g.bucket@,
                g.file_path@,
                content_type@,
                xdate@,
                ymd@,
            ),
{
    let creds = StsCreds {
        ak: g.ak.as_str(),
        sk: g.sk.as_str(),
        token: g.token.as_str(),
        region: g.region.as_str(),
    };
    let signed = sign_put(
        &creds,
        g.bucket.as_str(),
        g.file_path.as_str(),
        content_type,
        xdate,
        ymd,
    );
    let mut url = "https://".to_string();
    url.append(g.bucket.as_str());
    url.append(".");
    url.append(g.endpoint.as_str());
    url.append("/");
    url.append(v4_uri_encode(g.file_path.as_str(), false).as_str());
    PutRequest {
        url,
        authorization: signed.0,
        date: signed.1,
        content_sha256: signed.2,
        security_token: g.token.as_str().to_string(),
    }
}

/// The failure to store a file, told with the beginning of the answer.
pub fn put_failure(status: &str, body: &str) -> (r: AppError)
    ensures
        upstream_error(
            r,
            "OSS PUT failed "@ + status@ + ": "@ + (if body@.len() > 200 {
                body@.take(200)
            } else {
                body@
            }),
        ),
{
    let chars = char_vec(body);
    let n: usize = if chars.len() > 200 {
        200
    } else {
        chars.len()
    };
    let head = text_between(&chars, 0, n);
    proof {
        assert(head@ =~= body@.take(n as int));
        assert(body@.take(body@.len() as int) =~= body@);
    }
    let mut m = "OSS PUT failed ".to_string();
    m.append(status);
    m.append(": ");
    m.append(head.as_str());
    AppError::Upstream(m)
}

// ---------------------------------------------------------------------------
// Waiting
// ---------------------------------------------------------------------------

/// What to do about a file that is being read.
#[derive(Debug)]
pub enum ParseStep {
    /// It has been read.
    Finished,
    /// It cannot be read.
    Failed(AppError),
    /// Ask again, and this is how far it has come where that is known.
    Again(Option<String>),
}

/// How far a file has come, by an answer.
pub open spec fn parse_status(answer: JsonView) -> Option<Seq<char>> {
    match answer.get_array("data"@) {
        Some(list) => if list.len() > 0 {
            list[0].get_str("status"@)
        } else {
            None
        },
        None => None,
    }
}

/// What to do about a file that is being read, by an answer.
pub fn parse_step(answer: &Json) -> (r: ParseStep)
    ensures
        match parse_status(answer@) {
            Some(s) => if s == "success"@ {
                r is Finished
            } else if s == "failed"@ || s == "error"@ {
                r matches ParseStep::Failed(e) && upstream_error(
                    e,
                    "File parse failed status="@ + s,
                )
            } else {
                r matches ParseStep::Again(Some(t)) && t@ == s
            },
            None => r matches ParseStep::Again(None),
        },
{
    let status = match answer.get_array("data") {
        Some(list) => {
            proof {
                lemma_items_view(list@);
            }
            if list.len() > 0 {
                list[0].get_str("status")
            } else {
                None
            }
        },
        None => None,
    };
    match status {
        Some(s) => if same_text(s, "success") {
            ParseStep::Finished
        } else if same_text(s, "failed") || same_text(s, "error") {
            let mut m = "File parse failed status=".to_string();
            m.append(s);
            ParseStep::Failed(AppError::Upstream(m))
        } else {
            ParseStep::Again(Some(s.to_string()))
        },
        None => ParseStep::Again(None),
    }
}

/// What asks for a file to be read.
pub fn parse_request(file_id: &str) -> (r: Json)
    ensures
        r@ == object().with("file_id"@, JsonView::Str(file_id@)),
{
    Json::object().with("file_id", Json::str(file_id))
}

/// What asks how far a file has come.
pub fn status_request(file_id: &str) -> (r: Json)
    ensures
        r@ == object().with("file_id_list"@, array().item(JsonView::Str(file_id@))),
{
    Json::object().with("file_id_list", Json::array().item(Json::str(file_id)))
}

// ---------------------------------------------------------------------------
// The reference
// ---------------------------------------------------------------------------

/// What is known of an uploaded file.
#[derive(Debug)]
pub struct UploadedFile<'a> {
    pub filename: &'a str,
    pub size: usize,
    pub content_type: &'a str,
    pub parse_status: &'a str,
    pub uploaded_at: i64,
}

/// The reference by which a file is spoken of.
pub open spec fn file_ref(g: Grant, f: UploadedFile, item: Seq<char>, task: Seq<char>) -> JsonView {
    object().with("type"@, JsonView::Str("file"@)).with(
        "file"@,
        object().with("created_at"@, JsonView::Int(f.uploaded_at as int)).with(
            "data"@,
            object(),
        ).with("filename"@, JsonView::Str(f.filename@)).with("hash"@, JsonView::Null).with(
            "id"@,
            JsonView::Str(g.file_id@),
        ).with("user_id"@, JsonView::Str(before_first(g.file_path@, '/'))).with(
            "meta"@,
            object().with("name"@, JsonView::Str(f.filename@)).with(
                "size"@,
                JsonView::Int(f.size as int),
            ).with("content_type"@, JsonView::Str(f.content_type@)).with(
                "parse_meta"@,
                object().with("parse_status"@, JsonView::Str(f.parse_status@)),
            ),
        ).with("update_at"@, JsonView::Int(f.uploaded_at as int)),
    ).with("id"@, JsonView::Str(g.file_id@)).with(
        "url"@,
        JsonView::Str("https://"@ + g.bucket@ + "."@ + g.endpoint@ + "/"@ + g.file_path@),
    ).with("name"@, JsonView::Str(f.filename@)).with(
        "collection_name"@,
        JsonView::Str(""@),
    ).with("progress"@, JsonView::Int(0)).with("status"@, JsonView::Str("uploaded"@)).with(
        "greenNet"@,
        JsonView::Str("success"@),
    ).with("size"@, JsonView::Int(f.size as int)).with("error"@, JsonView::Str(""@)).with(
        "itemId"@,
        JsonView::Str(item),
    ).with("file_type"@, JsonView::Str(f.content_type@)).with(
        "showType"@,
        JsonView::Str("file"@),
    ).with("file_class"@, JsonView::Str(class_of(f.content_type@))).with(
        "uploadTaskId"@,
        JsonView::Str(task),
    )
}

/// The reference by which a file is spoken of, with the given identifiers.
pub fn build_file_ref(g: &Grant, f: &UploadedFile, item: &str, task: &str) -> (r: Json)
    ensures
        r@ == file_ref(*g, *f, item@, task@),
{
    let mut url = "https://".to_string();
    url.append(g.bucket.as_str());
    url.append(".");
    url.append(g.endpoint.as_str());
    url.append("/");
    url.append(g.file_path.as_str());
    let user_id = text_before_first(g.file_path.as_str(), '/');
    let meta = Json::object().with("name", Json::str(f.filename)).with(
        "size",
        Json::uint(f.size as u64),
    ).with("content_type", Json::str(f.content_type)).with(
        "parse_meta",
        Json::object().with("parse_status", Json::str(f.parse_status)),
    );
    let file = Json::object().with("created_at", Json::integer(f.uploaded_at)).with(
        "data",
        Json::object(),
    ).with("filename", Json::str(f.filename)).with("hash", Json::Null).with(
        "id",
        Json::str(g.file_id.as_str()),
    ).with("user_id", Json::str(user_id.as_str())).with("meta", meta).with(
        "update_at",
        Json::integer(f.uploaded_at),
    );
    Json::object().with("type", Json::str("file")).with("file", file).with(
        "id",
        Json::str(g.file_id.as_str()),
    ).with("url", Json::str(url.as_str())).with("name", Json::str(f.filename)).with(
        "collection_name",
        Json::str(""),
    ).with("progress", Json::integer(0)).with("status", Json::str("uploaded")).with(
        "greenNet",
        Json::str("success"),
    ).with("size", Json::uint(f.size as u64)).with("error", Json::str("")).with(
        "itemId",
        Json::str(item),
    ).with("file_type", Json::str(f.content_type)).with("showType", Json::str("file")).with(
        "file_class",
        Json::str(file_class(f.content_type)),
    ).with("uploadTaskId", Json::str(task))
}

/// The reference by which a file is spoken of, with fresh identifiers.
pub fn remote_ref(g: &Grant, f: &UploadedFile) -> (r: Json)
    ensures
        exists|a: u64, b: u64, c: u64, d: u64|
            r@ == file_ref(
                *g,
                *f,
                #[trigger] uuid_of(a as int, b as int),
                #[trigger] uuid_of(c as int, d as int),
            ),
{
    let item = uuid4();
    let task = uuid4();
    let r = build_file_ref(g, f, item.as_str(), task.as_str());
    proof {
        let (a, b) = choose|a: u64, b: u64| item@ == #[trigger] uuid_of(a as int, b as int);
        let (c, d) = choose|c: u64, d: u64| task@ == #[trigger] uuid_of(c as int, d as int);
        assert(r@ == file_ref(
            *g,
            *f,
            uuid_of(a as int, b as int),
            uuid_of(c as int, d as int),
        ));
    }
    r
}

} // verus!
