//! A minimal blogging backend: user registration and login with salted
//! password hashing and signed bearer tokens, and author-scoped CRUD over
//! blog posts, with the access rules stated as contracts.

pub mod blogs;
pub mod decimal;
pub mod errors;
pub mod hashing;
pub mod middleware;
pub mod token;
pub mod users;

pub use errors::ApiError;
