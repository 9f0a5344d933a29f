use vstd::prelude::*;

verus! {

/// How an account was created: with a username and password, or with a
/// phone number.
pub enum UserType {
    Account,
    Phone,
}

impl UserType {
    /// The stored tag of a username-and-password account.
    pub fn account() -> (r: u8)
        ensures
            r == 1u8,
    {
        1
    }

    /// The stored tag of a phone-number account.
    pub fn phone() -> (r: u8)
        ensures
            r == 2u8,
    {
        2
    }
}

/// Fields an update may change; absent fields are left alone.
pub struct UpdateUser {
    pub email: Option<String>,
    pub username: Option<String>,
    pub phone: Option<String>,
    pub avatar: Option<String>,
    pub is_active: Option<bool>,
}

/// A new account registered with a phone number.
pub struct NewPhoneUser {
    /// Stored account tag; see [`UserType::phone`].
    pub user_type: u8,
    pub phone: String,
    pub avatar: Option<String>,
    pub is_active: Option<bool>,
}

/// A new account registered with a username and password.
pub struct NewAccountUser {
    /// Stored account tag; see [`UserType::account`].
    pub user_type: u8,
    pub username: String,
    pub password: String,
    pub avatar: Option<String>,
    pub is_active: Option<bool>,
}

/// A password change request: the current password, the new one, and
/// its confirmation.
pub struct ChangePwd {
    pub pwd: String,
    pub new_pwd: String,
    pub new_pwd2: String,
}

/// Search filters over accounts; absent fields do not filter.
/// Timestamps are carried as epoch milliseconds.
pub struct SearchUser {
    pub user_type: Option<u8>,
    pub email: Option<String>,
    pub username: Option<String>,
    pub phone: Option<String>,
    pub avatar: Option<String>,
    pub is_superadmin: Option<bool>,
    pub is_active: Option<bool>,
    pub is_staff: Option<bool>,
    pub last_login: Option<i64>,
    pub create_at: Option<i64>,
    pub update_at: Option<i64>,
}

/// A listing request that can page.
pub trait Paging {
    /// Whether the request asks for a specific page.
    fn has_page(&self) -> bool;
}

/// A paged account listing: the page cursor and the filters.
pub struct UserListQuery {
    /// Page, starting at 1.
    pub page: Option<i64>,
    /// How many rows are wanted.
    pub limit: Option<i64>,
    pub user: SearchUser,
}

impl Paging for UserListQuery {
    fn has_page(&self) -> bool {
        self.page.is_some() && self.limit.is_some()
    }
}

/// An account joined with everything it owns, for replies that carry
/// the whole picture.
pub struct UserWithAll<A, B, C, D, E> {
    pub user: A,
    pub books: B,
    pub posts: C,
    pub groups: D,
    pub perms: E,
}

} // verus!
