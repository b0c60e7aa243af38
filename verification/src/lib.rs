//! A streaming dataflow engine core: typed rows, change operations, a
//! transactional record store, join indexes, checkpoint metadata and the
//! decision logic that drives sources, processors and sinks.

pub mod builder;
pub mod checkpoint;
pub mod codec;
pub mod connectors;
pub mod dag;
pub mod dag_metadata;
pub mod dag_schemas;
pub mod decimal;
pub mod encoding;
pub mod epoch;
pub mod errors;
pub mod ingestion_types;
pub mod executor;
pub mod join;
pub mod node;
pub mod order;
pub mod postgres_helper;
pub mod prefix_transaction;
pub mod receiver_loop;
pub mod record_store;
pub mod schema_codec;
pub mod storage;
pub mod test_utils;
pub mod types;
