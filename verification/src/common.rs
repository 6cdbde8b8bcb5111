use vstd::prelude::*;
use crate::schema::DataSchema;
use crate::types::EncodeValue;

verus! {

/// One block of result rows with the schema they project.
#[derive(Debug)]
pub struct DataBlock {
    pub schema: DataSchema,
    pub data: Vec<Vec<EncodeValue>>,
}

/// A query's full result: blocks streamed back to the wire layer.
pub type SendableDataBlockStream = Vec<DataBlock>;

} // verus!
