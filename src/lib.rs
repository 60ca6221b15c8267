//! Core logic of a heterogeneous data-replication engine.
//!
//! - `row`, `dt_data`: the change model (column values, row images, positions,
//!   items) and the hash of a row's identifying values;
//! - `meta`, `mysql_meta`: the table-metadata registry, the choice of
//!   identifying columns, and the reading of MySQL column types and keys;
//! - `merger`: the reduction of a table's row events to delete and insert sets
//!   and an unmerged tail, with its safety and minimality laws;
//! - `partition`, `redis`: the partition parallelizer and the Redis Cluster router;
//! - `pipeline`: what the pipeline loop decides for each drained batch and when
//!   it writes a checkpoint;
//! - `pg_cdc`: the PostgreSQL logical replication decoder;
//! - `structure`, `precheck`, `rdb`: structure migration statements, pre-flight
//!   checks, and Redis RDB hash objects;
//! - `config`, `error`, `text`: configuration, errors and string helpers.
pub mod config;
pub mod dt_data;
pub mod error;
pub mod merger;
pub mod meta;
pub mod mysql_meta;
pub mod partition;
pub mod pg_cdc;
pub mod pipeline;
pub mod precheck;
pub mod rdb;
pub mod redis;
pub mod row;
pub mod structure;
pub mod text;
