//! Account management logic for a multi-client game launcher.
pub mod captcha;
pub mod capture;
pub mod crypto;
pub mod db;
pub mod external;
pub mod identity;
pub mod inspect;
pub mod launch;
pub mod login;
pub mod models;
pub mod prefs;
pub mod text;
