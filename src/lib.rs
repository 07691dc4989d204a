//! Authentication and ownership-enforcing access control for a multi-tenant
//! contact book: credential hashing, signed identity tokens, registration and
//! login, and owner-checked contact and address operations.
pub mod token;
pub mod credential;
pub mod validation;
pub mod error;
pub mod identity;
pub mod contacts;
