//! The bodies the HTTP API answers with, and the forms and records it reads.
use vstd::prelude::*;

use crate::views::{View, ViewPage};

verus! {

/// A successful or failed answer carrying data of type `T`.
pub struct ApiResponse<T> {
    pub success: bool,
    pub data: Option<T>,
    pub message: Option<String>,
}

impl<T> ApiResponse<T> {
    /// A successful answer with `data`.
    pub fn success(data: T) -> (r: Self)
        ensures
            r.success,
            r.data == Some(data),
            r.message is None,
    {
        ApiResponse { success: true, data: Some(data), message: None }
    }
}

/// The answer shape that carries one view.
pub struct ApiResponseView {
    pub success: bool,
    pub data: Option<View>,
    pub message: Option<String>,
}

/// The answer shape that carries one page of views.
pub struct ApiResponseViewPage {
    pub success: bool,
    pub data: Option<ViewPage>,
    pub message: Option<String>,
}

/// An answer without data.
pub struct ApiResponseEmpty {
    pub success: bool,
    pub data: Option<()>,
    pub message: Option<String>,
}

impl ApiResponseEmpty {
    /// Success: `data` is the unit value, no message.
    pub fn success() -> (r: Self)
        ensures
            r.success,
            r.data == Some(()),
            r.message is None,
    {
        ApiResponseEmpty { success: true, data: Some(()), message: None }
    }

    /// Failure with `message` and no data.
    pub fn error(message: String) -> (r: Self)
        ensures
            !r.success,
            r.data is None,
            r.message == Some(message),
    {
        ApiResponseEmpty { success: false, data: None, message: Some(message) }
    }
}

/// A static resource record.
#[derive(Clone, Debug)]
pub struct StaticResource {
    pub id: i32,
    pub name: String,
    pub description: String,
}

/// What a client sends to create or change a static resource.
#[derive(Clone, Debug)]
pub struct StaticResourceInput {
    pub name: String,
    pub description: String,
}

/// A user name with a password.
#[derive(Clone, Debug)]
pub struct UserCredentials {
    pub username: String,
    pub password: String,
}

/// The form that sets the first administrator's password.
#[derive(Clone, Debug)]
pub struct PasswordForm {
    pub password: String,
}

/// The login form.
#[derive(Clone, Debug)]
pub struct LoginForm {
    pub username: String,
    pub password: String,
}

/// The OpenAPI description of the HTTP API.
pub struct ApiDoc;

} // verus!
