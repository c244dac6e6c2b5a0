//! Configuration for the backing document database, carried by the
//! application shell that owns the connection.

use vstd::prelude::*;

verus! {

/// Names the database that holds the comment collection.
#[derive(Debug)]
pub struct MongoDbConfig {
    pub mongo_db_name: String,
}

impl Clone for MongoDbConfig {
    fn clone(&self) -> (r: Self)
        ensures
            r.mongo_db_name@ == self.mongo_db_name@,
    {
        MongoDbConfig { mongo_db_name: self.mongo_db_name.clone() }
    }
}

} // verus!
