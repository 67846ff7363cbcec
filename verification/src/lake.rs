//! The database handle and the values that queries and transactions pass
//! around.

use crate::schema::Schema;
use vstd::prelude::*;

verus! {

/// A database: a heap of tuples laid out after a schema.
#[derive(Debug)]
pub struct DB {
    schema: Schema,
}

/// A transaction.
pub struct Tx {}

/// A condition that a scan filters by.
pub enum Expr {
    /// The field of this name has this value.
    Eq(String, Vec<u8>),
}

/// Some records: the names of their fields, and for each record the value of
/// each field.
#[derive(Debug)]
pub struct RecordBatch {
    keys: Vec<String>,
    values: Vec<Vec<Vec<u8>>>,
}

impl DB {
    /// The schema of the database.
    pub closed spec fn spec_schema(&self) -> Schema {
        self.schema
    }

    /// A database with the given schema.
    pub fn new(schema: Schema) -> (db: DB)
        ensures
            db.spec_schema() == schema,
    {
        DB { schema }
    }

    /// The schema of the database.
    pub fn schema(&self) -> (schema: &Schema)
        ensures
            *schema == self.spec_schema(),
    {
        &self.schema
    }
}

impl RecordBatch {
    /// The names of the fields.
    pub closed spec fn spec_keys(&self) -> Seq<String> {
        self.keys@
    }

    /// The records: for each the value of each field.
    pub closed spec fn spec_values(&self) -> Seq<Vec<Vec<u8>>> {
        self.values@
    }

    /// Records over the given fields.
    pub fn new(keys: Vec<String>, values: Vec<Vec<Vec<u8>>>) -> (batch: RecordBatch)
        ensures
            batch.spec_keys() == keys@,
            batch.spec_values() == values@,
    {
        RecordBatch { keys, values }
    }

    /// The names of the fields.
    pub fn keys(&self) -> (keys: &Vec<String>)
        ensures
            keys@ == self.spec_keys(),
    {
        &self.keys
    }

    /// The records.
    pub fn values(&self) -> (values: &Vec<Vec<Vec<u8>>>)
        ensures
            values@ == self.spec_values(),
    {
        &self.values
    }
}

} // verus!
