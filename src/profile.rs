//! The records of the `Profile` service's methods.

pub mod login_with_password;
pub mod login_with_token;
