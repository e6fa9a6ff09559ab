//! The records that the library hands to and takes from its callers.
use vstd::prelude::*;

verus! {

/// A game account as the launcher shows it: credentials in clear text.
#[derive(Debug, Clone)]
pub struct Account {
    pub id: String,
    pub username: String,
    pub password: String,
    pub server: String,
    pub server_port: i32,
    pub is_running: bool,
    pub farm_mode: bool,
    pub boss_mode: bool,
    pub created_at: String,
    pub pid: Option<u32>,
}

/// The fields of a new account that the user supplies.
#[derive(Debug, Clone)]
pub struct AddAccountRequest {
    pub username: String,
    pub password: String,
    pub server: String,
    pub server_port: i32,
}

/// New credentials and server for an existing account.
#[derive(Debug, Clone)]
pub struct UpdateAccountRequest {
    pub id: String,
    pub username: String,
    pub password: String,
    pub server: String,
    pub server_port: i32,
}

/// The answer of every command: a success flag, the data on success, the
/// error message on failure.
#[derive(Debug, Clone)]
pub struct ApiResponse<T> {
    pub success: bool,
    pub data: Option<T>,
    pub error: Option<String>,
}

/// How many accounts a bulk launch started.
#[derive(Debug, Clone)]
pub struct LaunchAllResponse {
    pub data: usize,
}

/// A login page as the user needs it to log in by hand: the security image
/// in base64, the page's hidden form state and its session cookies.
#[derive(Debug, Clone)]
pub struct CaptchaResponse {
    pub image_base64: String,
    pub viewstate: String,
    pub eventvalidation: String,
    pub viewstategenerator: String,
    pub cookies: Vec<String>,
}

impl<T> ApiResponse<T> {
    /// A successful answer carrying `data`.
    pub fn success(data: T) -> (res: ApiResponse<T>)
        ensures
            res.success,
            res.data == Some(data),
            res.error is None,
    {
        ApiResponse { success: true, data: Some(data), error: None }
    }

    /// A failed answer carrying the message `error`.
    pub fn failure(error: String) -> (res: ApiResponse<T>)
        ensures
            !res.success,
            res.data is None,
            res.error == Some(error),
    {
        ApiResponse { success: false, data: None, error: Some(error) }
    }

    /// The answer to an operation's outcome: its value on success, its
    /// message on failure.
    pub fn from_result(r: Result<T, String>) -> (res: ApiResponse<T>)
        ensures
            res.success == r is Ok,
            match r {
                Ok(v) => res.data == Some(v) && res.error is None,
                Err(e) => res.data is None && res.error == Some(e),
            },
    {
        match r {
            Ok(v) => ApiResponse::success(v),
            Err(e) => ApiResponse::failure(e),
        }
    }
}

} // verus!
