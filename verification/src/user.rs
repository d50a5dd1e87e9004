//! Users: the rules for names, e-mail addresses and passwords, and the
//! tokens that let a user reset a password.

pub mod validation;
pub mod reset_token;
pub mod reset_token_repository;
