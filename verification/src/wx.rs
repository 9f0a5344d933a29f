use vstd::prelude::*;

use crate::digest::{hex_encode, hex_of, sha1_digest, sha1_of};
use vstd::string::StringSliceAdditionalSpecFns;

verus! {

/// The query a message-origin check receives: the signature to check,
/// the two values that entered it, and the echo string handed back on
/// success.
pub struct ValidationMessage {
    /// Signature over the configured token, the timestamp and the nonce.
    pub signature: String,
    /// Timestamp, in seconds, as the decimal string it was sent as.
    pub timestamp: String,
    /// Random nonce.
    pub nonce: String,
    /// Random string to echo back when the signature checks out.
    pub echostr: String,
}

/// Lexicographic order on byte strings: how the three signature inputs
/// are sorted before they are joined.
pub open spec fn bytes_le(a: Seq<u8>, b: Seq<u8>) -> bool
    decreases a.len(),
{
    if a.len() == 0 {
        true
    } else if b.len() == 0 {
        false
    } else if a[0] < b[0] {
        true
    } else if a[0] > b[0] {
        false
    } else {
        bytes_le(a.drop_first(), b.drop_first())
    }
}

/// While two byte strings agree on a prefix, their order is decided by
/// what follows it.
proof fn lemma_bytes_le_skip(a: Seq<u8>, b: Seq<u8>, i: int)
    requires
        0 <= i <= a.len(),
        i <= b.len(),
        forall|j: int| 0 <= j < i ==> a[j] == b[j],
    ensures
        bytes_le(a, b) == bytes_le(a.skip(i), b.skip(i)),
    decreases i,
{
    if i > 0 {
        lemma_bytes_le_skip(a, b, i - 1);
        assert(a.skip(i - 1).drop_first() =~= a.skip(i));
        assert(b.skip(i - 1).drop_first() =~= b.skip(i));
        assert(a.skip(i - 1)[0] == a[i - 1]);
        assert(b.skip(i - 1)[0] == b[i - 1]);
    } else {
        assert(a.skip(0) =~= a);
        assert(b.skip(0) =~= b);
    }
}

/// Compares two byte strings lexicographically, as strings compare.
#[verifier::loop_isolation(false)]
pub fn bytes_le_exec(a: &[u8], b: &[u8]) -> (r: bool)
    ensures
        r == bytes_le(a@, b@),
{
    let mut i: usize = 0;
    while i < a.len() && i < b.len()
        invariant
            0 <= i <= a@.len(),
            i <= b@.len(),
            forall|j: int| 0 <= j < i ==> a@[j] == b@[j],
        decreases a@.len() - i,
    {
        let x = *vstd::slice::slice_index_get(a, i);
        let y = *vstd::slice::slice_index_get(b, i);
        if x < y {
            proof {
                lemma_bytes_le_skip(a@, b@, i as int);
                assert(a@.skip(i as int)[0] == x && b@.skip(i as int)[0] == y);
            }
            return true;
        }
        if x > y {
            proof {
                lemma_bytes_le_skip(a@, b@, i as int);
                assert(a@.skip(i as int)[0] == x && b@.skip(i as int)[0] == y);
            }
            return false;
        }
        i = i + 1;
    }
    proof {
        lemma_bytes_le_skip(a@, b@, i as int);
        if i == a@.len() {
            assert(a@.skip(i as int).len() == 0);
        } else {
            assert(b@.skip(i as int).len() == 0);
            assert(a@.skip(i as int).len() > 0);
        }
    }
    i == a.len()
}

/// The three signature inputs in ascending order.
pub open spec fn spec_sort3(a: Seq<u8>, b: Seq<u8>, c: Seq<u8>) -> (Seq<u8>, Seq<u8>, Seq<u8>) {
    if bytes_le(a, b) {
        if bytes_le(b, c) {
            (a, b, c)
        } else if bytes_le(a, c) {
            (a, c, b)
        } else {
            (c, a, b)
        }
    } else {
        if bytes_le(a, c) {
            (b, a, c)
        } else if bytes_le(b, c) {
            (b, c, a)
        } else {
            (c, b, a)
        }
    }
}

/// The signature the origin check recomputes: sort the token, the
/// timestamp and the nonce, join them, and render the SHA-1 digest of
/// the joined bytes in lowercase hexadecimal.
pub open spec fn wx_signature(token: Seq<u8>, timestamp: Seq<u8>, nonce: Seq<u8>) -> Seq<char> {
    let (x, y, z) = spec_sort3(token, timestamp, nonce);
    hex_of(sha1_of(x + y + z))
}

/// Joins three byte strings.
#[verifier::loop_isolation(false)]
fn concat_bytes3(a: &[u8], b: &[u8], c: &[u8]) -> (r: Vec<u8>)
    ensures
        r@ == a@ + b@ + c@,
{
    let mut out: Vec<u8> = Vec::new();
    let mut i: usize = 0;
    while i < a.len()
        invariant
            0 <= i <= a@.len(),
            out@ =~= a@.subrange(0, i as int),
        decreases a@.len() - i,
    {
        out.push(*vstd::slice::slice_index_get(a, i));
        assert(out@ =~= a@.subrange(0, i + 1));
        i = i + 1;
    }
    assert(out@ =~= a@);
    let mut j: usize = 0;
    while j < b.len()
        invariant
            0 <= j <= b@.len(),
            out@ =~= a@ + b@.subrange(0, j as int),
        decreases b@.len() - j,
    {
        out.push(*vstd::slice::slice_index_get(b, j));
        assert(out@ =~= a@ + b@.subrange(0, j + 1));
        j = j + 1;
    }
    assert(out@ =~= a@ + b@);
    let mut k: usize = 0;
    while k < c.len()
        invariant
            0 <= k <= c@.len(),
            out@ =~= a@ + b@ + c@.subrange(0, k as int),
        decreases c@.len() - k,
    {
        out.push(*vstd::slice::slice_index_get(c, k));
        assert(out@ =~= a@ + b@ + c@.subrange(0, k + 1));
        k = k + 1;
    }
    assert(out@ =~= a@ + b@ + c@);
    out
}

/// Checks that a message really carries the signature the shared token
/// yields: the token, the timestamp and the nonce are sorted, joined,
/// digested and rendered, and the result is held against the signature
/// the query carries.
pub fn validation_message(token: &str, query: &ValidationMessage) -> (r: bool)
    ensures
        r == (query.signature@ == wx_signature(
            vstd::utf8::encode_utf8(token@),
            vstd::utf8::encode_utf8(query.timestamp@),
            vstd::utf8::encode_utf8(query.nonce@),
        )),
{
    let t = token.as_bytes();
    let ts = query.timestamp.as_str().as_bytes();
    let n = query.nonce.as_str().as_bytes();
    let ab = bytes_le_exec(t, ts);
    let bc = bytes_le_exec(ts, n);
    let ac = bytes_le_exec(t, n);
    let joined = if ab {
        if bc {
            concat_bytes3(t, ts, n)
        } else if ac {
            concat_bytes3(t, n, ts)
        } else {
            concat_bytes3(n, t, ts)
        }
    } else {
        if ac {
            concat_bytes3(ts, t, n)
        } else if bc {
            concat_bytes3(ts, n, t)
        } else {
            concat_bytes3(n, ts, t)
        }
    };
    let digest = sha1_digest(joined.as_slice());
    let expected = hex_encode(&digest);
    query.signature.eq(&expected)
}

/// A bare error reply of the remote message API.
pub struct WxApiRes {
    pub errcode: i64,
    pub errmsg: String,
}

/// Reply to an access-token request.
pub struct AccessTokenResult {
    /// The credential obtained.
    pub access_token: Option<String>,
    /// Lifetime of the credential, in seconds.
    pub expires_in: Option<usize>,
    /// Error code on failure.
    pub errcode: Option<i64>,
    /// Error description on failure.
    pub errmsg: Option<String>,
}

/// Reply to a page-authorization token request; this token is distinct
/// from the basic access token.
pub struct OauthAccessTokenResult {
    pub access_token: Option<String>,
    pub expires_in: Option<usize>,
    pub refresh_token: Option<String>,
    pub openid: Option<String>,
    pub scope: Option<String>,
    pub errcode: Option<i64>,
    pub errmsg: Option<String>,
}

/// Reply to a script-interface ticket request.
pub struct JsapiTicketResult {
    pub ticket: Option<String>,
    pub expires_in: Option<usize>,
    pub errcode: Option<i64>,
    pub errmsg: Option<String>,
}

/// Request for a script-configuration signature: the page address the
/// signature is computed for.
pub struct GetJsSdkConfig {
    pub url: String,
}

/// The script configuration handed back to a page.
pub struct JsSdkConfigResult {
    pub app_id: String,
    pub timestamp: i64,
    pub nonce_str: String,
    pub signature: String,
}

/// The envelope fields every incoming message carries.
pub struct WxMsg {
    pub to_user_name: String,
    pub from_user_name: String,
    pub msg_type: String,
}

/// A plain text message.
pub struct TextMsg {
    pub to_user_name: String,
    pub from_user_name: String,
    pub create_time: i64,
    pub msg_type: String,
    pub content: String,
    pub msg_id: u64,
}

/// A picture message.
pub struct ImageMsg {
    pub to_user_name: String,
    pub from_user_name: String,
    pub create_time: i64,
    pub msg_type: String,
    pub pic_url: String,
    pub media_id: String,
    pub msg_id: u64,
}

/// A voice message; the recognition field is present only when speech
/// recognition is switched on upstream.
pub struct VoiceMsg {
    pub to_user_name: String,
    pub from_user_name: String,
    pub create_time: i64,
    pub msg_type: String,
    pub media_id: String,
    pub format: String,
    pub recognition: Option<String>,
    pub msg_id: u64,
}

/// A video message.
pub struct VideoMsg {
    pub to_user_name: String,
    pub from_user_name: String,
    pub create_time: i64,
    pub msg_type: String,
    pub media_id: String,
    pub thumb_media_id: String,
    pub msg_id: u64,
}

/// A short-video message.
pub struct ShortVideoMsg {
    pub to_user_name: String,
    pub from_user_name: String,
    pub create_time: i64,
    pub msg_type: String,
    pub media_id: String,
    pub thumb_media_id: String,
    pub msg_id: u64,
}

/// A link message.
pub struct LinkMsg {
    pub to_user_name: String,
    pub from_user_name: String,
    pub create_time: i64,
    pub msg_type: String,
    pub title: String,
    pub description: String,
    pub url: String,
    pub msg_id: u64,
}

/// A user profile as the remote service reports it.
pub struct Userinfo {
    pub openid: Option<String>,
    pub nickname: Option<String>,
    /// 1 male, 2 female, 0 unknown.
    pub sex: Option<u8>,
    pub province: Option<String>,
    pub city: Option<String>,
    pub country: Option<String>,
    pub headimgurl: Option<String>,
    pub privilege: Option<Vec<String>>,
    pub unionid: Option<String>,
    pub errcode: Option<i64>,
    pub errmsg: Option<String>,
}

/// A login callback's query: the one-time code.
pub struct LoginQuery {
    pub code: String,
}

} // verus!
