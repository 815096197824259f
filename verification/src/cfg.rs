//! Deployment configuration and the default value of each setting.
//!
//! The surrounding program fills an [`AppConfig`] from its environment; the
//! defaults below are what apply when a setting is absent there.

use vstd::prelude::*;

verus! {

/// Default connection string of the relational account store.
pub fn default_sql_db_url() -> (r: String)
    ensures
        r@ == "postgresql://postgres@localhost/prepublish"@,
{
    "postgresql://postgres@localhost/prepublish".to_string()
}

/// Default connection string of the document store server.
pub fn default_mongo_srv_url() -> (r: String)
    ensures
        r@ == "mongodb://localhost:27017"@,
{
    "mongodb://localhost:27017".to_string()
}

/// Default database name within the document store.
pub fn default_mongo_db_nm() -> (r: String)
    ensures
        r@ == "prepublish"@,
{
    "prepublish".to_string()
}

/// Default listen address of the service.
pub fn default_srv_addr() -> (r: String)
    ensures
        r@ == "127.0.0.1:8000"@,
{
    "127.0.0.1:8000".to_string()
}

/// Default cost parameter of the password hash.
pub fn default_hash_cost() -> (r: u8)
    ensures
        r == 4,
{
    4
}

/// Default mail relay host.
pub fn default_relay() -> (r: String)
    ensures
        r@ == "localhost"@,
{
    "localhost".to_string()
}

/// Default user name towards the mail relay.
pub fn default_smtp_username() -> (r: String)
    ensures
        r@ == "root"@,
{
    "root".to_string()
}

/// The settings the service starts from. The sender mailbox is kept as its
/// textual form; the surrounding program parses it for its mail transport.
#[derive(Debug)]
pub struct AppConfig {
    pub sql_db_url: String,
    pub mongo_srv_url: String,
    pub mongo_db_nm: String,
    pub srv_addr: String,
    pub hash_cost: u8,
    pub sender: String,
    pub relay: String,
    pub smtp_username: String,
    pub smtp_password: String,
}

} // verus!
