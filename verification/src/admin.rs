use vstd::prelude::*;

verus! {

/// Search filters over administrators; absent fields do not filter.
/// Timestamps are carried as epoch milliseconds.
pub struct SearchAdmin {
    pub username: Option<String>,
    pub realname: Option<String>,
    pub email: Option<String>,
    pub is_active: Option<bool>,
    pub remark: Option<String>,
    pub last_login: Option<String>,
    pub create_at: Option<i64>,
    pub update_at: Option<i64>,
}

/// A paged administrator listing: the page cursor and the filters.
pub struct ListQuery {
    /// Page, starting at 1.
    pub page: Option<i64>,
    /// How many rows are wanted.
    pub limit: Option<i64>,
    pub admin: SearchAdmin,
}

/// An administrator login request.
pub struct Login {
    pub username: String,
    pub password: String,
}

/// A new administrator account.
pub struct NewAdmin {
    pub username: String,
    pub password: String,
    pub realname: Option<String>,
    pub email: Option<String>,
    pub remark: Option<String>,
    pub is_active: Option<bool>,
}

/// An administrator password change request.
pub struct ChangePwd {
    pub pwd: String,
    pub new_pwd: String,
    pub new_pwd2: String,
}

/// A new permission group.
pub struct GroupNew {
    pub name: String,
    pub desc: String,
}

/// A new permission.
pub struct PermissionNew {
    pub name: String,
    pub desc: String,
}

/// What an audit-log row records having been done.
pub enum ActionFlag {
    Add,
    Del,
    Update,
}

impl ActionFlag {
    /// The stored tag of each action: add 1, delete 2, update 3.
    pub fn code(&self) -> (r: u8)
        ensures
            r == match self {
                ActionFlag::Add => 1u8,
                ActionFlag::Del => 2u8,
                ActionFlag::Update => 3u8,
            },
    {
        match self {
            ActionFlag::Add => 1,
            ActionFlag::Del => 2,
            ActionFlag::Update => 3,
        }
    }
}

} // verus!
