use vstd::prelude::*;

verus! {

/// A mini-program login request: the temporary code obtained on the
/// device.
pub struct MpLogin {
    pub code: String,
}

/// A bare error reply of the mini-program API.
pub struct WxmpApiErrorResult {
    pub errcode: i64,
    pub errmsg: String,
}

/// Reply to a code-to-session exchange.
pub struct Code2SessionResult {
    /// The user's identifier.
    pub openid: Option<String>,
    /// The session key.
    pub session_key: Option<String>,
    pub errcode: Option<i64>,
    pub errmsg: Option<String>,
}

/// Reply to a mini-program access-token request.
pub struct AccessTokenResult {
    pub access_token: Option<String>,
    /// Lifetime in seconds, at most 7200.
    pub expires_in: Option<usize>,
    pub errcode: Option<i64>,
    pub errmsg: Option<String>,
}

/// Reply to a phone-number lookup.
pub struct GetUserPhoneNumberResult {
    pub errcode: i64,
    pub errmsg: String,
    pub phone_info: PhoneInfo,
}

/// The phone number block of a lookup reply.
pub struct PhoneInfo {
    pub phone_number: String,
    pub pure_phone_number: String,
    pub country_code: String,
    pub watermark: Watermark,
}

/// Provenance of a phone-number reply.
pub struct Watermark {
    pub timestamp: i64,
    pub appid: String,
}

/// Request body for a phone-number lookup: the one-time code.
pub struct GetPhoneForm {
    pub code: String,
}

/// Request body for image cropping: the address of the image.
pub struct GetImgAiCrop {
    pub img_url: String,
}

} // verus!
