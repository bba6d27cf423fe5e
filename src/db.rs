use vstd::prelude::*;

verus! {

pub open spec fn admin_table_sql() -> Seq<char> {
    "CREATE TABLE IF NOT EXISTS adminlog (id SERIAL PRIMARY KEY, user_id INT, username VARCHAR, user_msg VARCHAR, timestamp TIMESTAMP WITH TIME ZONE);"@
}

pub open spec fn chan_table_sql() -> Seq<char> {
    "CREATE TABLE IF NOT EXISTS chanlog (id SERIAL PRIMARY KEY, command VARCHAR, target VARCHAR, user_id INT, user_type VARCHAR, username VARCHAR, sub_count INT, system_msg VARCHAR, user_msg VARCHAR, timestamp TIMESTAMP WITH TIME ZONE);"@
}

/// The statements that create the administrator-action table and the channel-event table,
/// each keyed by a generated id.
pub fn create_tables() -> (r: Vec<&'static str>)
    ensures
        r@.len() == 2,
        r@[0]@ == admin_table_sql(),
        r@[1]@ == chan_table_sql(),
{
    vec![
        "CREATE TABLE IF NOT EXISTS adminlog (id SERIAL PRIMARY KEY, user_id INT, username VARCHAR, user_msg VARCHAR, timestamp TIMESTAMP WITH TIME ZONE);",
        "CREATE TABLE IF NOT EXISTS chanlog (id SERIAL PRIMARY KEY, command VARCHAR, target VARCHAR, user_id INT, user_type VARCHAR, username VARCHAR, sub_count INT, system_msg VARCHAR, user_msg VARCHAR, timestamp TIMESTAMP WITH TIME ZONE);",
    ]
}

/// The statement that records one administrator action.
pub fn insert_admin_log() -> (r: &'static str)
    ensures
        r@ == "INSERT INTO adminlog (user_id, username, user_msg, timestamp) VALUES ($1, $2, $3, $4)"@,
{
    "INSERT INTO adminlog (user_id, username, user_msg, timestamp) VALUES ($1, $2, $3, $4)"
}

/// The statement that records one channel event.
pub fn insert_logs() -> (r: &'static str)
    ensures
        r@ == "INSERT INTO chanlog (command, target, user_id, user_type, username, sub_count, system_msg, user_msg, timestamp) VALUES ($1, $2, $3, $4, $5, $6, $7, $8, $9)"@,
{
    "INSERT INTO chanlog (command, target, user_id, user_type, username, sub_count, system_msg, user_msg, timestamp) VALUES ($1, $2, $3, $4, $5, $6, $7, $8, $9)"
}

} // verus!
