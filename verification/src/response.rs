//! The application's response wrapper.

use vstd::prelude::*;

verus! {

/// The envelope every HTTP handler answers with.
#[derive(Debug, Clone, PartialEq, Eq)]
pub struct AppResponse<T> {
    pub is_success: bool,
    pub error_code: i32,
    pub error_msg: Option<String>,
    pub result: Option<T>,
}

impl<T> AppResponse<T> {
    /// A successful response carrying `result`.
    pub fn new(result: T) -> (r: AppResponse<T>)
        ensures
            r.is_success,
            r.error_code == 0,
            r.error_msg is None,
            r.result == Some(result),
    {
        AppResponse { is_success: true, error_code: 0, error_msg: None, result: Some(result) }
    }
}

/// Who a request is authenticated as.
#[derive(Debug, Clone, PartialEq, Eq, Structural)]
pub enum LoginInfo {
    User,
    Admin,
}

} // verus!
