use vstd::prelude::*;

use crate::users::NewPhoneUser;

verus! {

/// A request for a login code to be sent to a phone.
pub struct SendPhoneCaptcha {
    pub phone: String,
}

/// A login request: with a username and password, or with a phone
/// number and the code that was sent to it; `type_` says which
/// (`account` or `mobile`).
pub struct LoginAccount {
    pub username: Option<String>,
    pub password: Option<String>,
    pub mobile: Option<String>,
    /// Four digits.
    pub captcha: Option<String>,
    /// `account` for username and password, `mobile` for phone and code.
    pub type_: String,
}

/// A registration by phone number: the new account and the code that
/// was sent to the phone.
pub struct PhoneUserRegister {
    pub user: NewPhoneUser,
    /// Four digits.
    pub captcha: String,
}

} // verus!
