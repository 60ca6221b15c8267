use crate::row::RowData;
use vstd::prelude::*;

verus! {

/// Where in its source a change was read. Each variant has its own natural
/// order; positions of different variants are not comparable.
#[derive(Clone, Debug, PartialEq)]
pub enum Position {
    Unknown,
    MysqlCdc { binlog_filename: String, binlog_position: u32, gtid_set: String },
    /// A PostgreSQL log sequence number and the commit time in unix milliseconds.
    PgCdc { lsn: u64, timestamp_millis: i64 },
    MongoCdc { resume_token: String, start_timestamp: u32 },
    Redis { repl_id: String, repl_offset: u64 },
    Kafka { topic: String, partition: i32, offset: i64 },
}

pub enum PositionView {
    Unknown,
    MysqlCdc { binlog_filename: Seq<char>, binlog_position: u32, gtid_set: Seq<char> },
    PgCdc { lsn: u64, timestamp_millis: i64 },
    MongoCdc { resume_token: Seq<char>, start_timestamp: u32 },
    Redis { repl_id: Seq<char>, repl_offset: u64 },
    Kafka { topic: Seq<char>, partition: i32, offset: i64 },
}

impl View for Position {
    type V = PositionView;

    open spec fn view(&self) -> PositionView {
        match self {
            Position::Unknown => PositionView::Unknown,
            Position::MysqlCdc { binlog_filename, binlog_position, gtid_set } => PositionView::MysqlCdc {
                binlog_filename: binlog_filename@,
                binlog_position: *binlog_position,
                gtid_set: gtid_set@,
            },
            Position::PgCdc { lsn, timestamp_millis } => PositionView::PgCdc {
                lsn: *lsn,
                timestamp_millis: *timestamp_millis,
            },
            Position::MongoCdc { resume_token, start_timestamp } => PositionView::MongoCdc {
                resume_token: resume_token@,
                start_timestamp: *start_timestamp,
            },
            Position::Redis { repl_id, repl_offset } => PositionView::Redis {
                repl_id: repl_id@,
                repl_offset: *repl_offset,
            },
            Position::Kafka { topic, partition, offset } => PositionView::Kafka {
                topic: topic@,
                partition: *partition,
                offset: *offset,
            },
        }
    }
}

/// The natural order of positions within one variant: a PostgreSQL position by
/// its LSN, a Redis one by its offset within one replication id, a Kafka one by
/// its offset within one partition, a MongoDB one by its timestamp, a MySQL one
/// by its offset within one binlog file.
pub open spec fn position_le(a: PositionView, b: PositionView) -> bool {
    match (a, b) {
        (PositionView::PgCdc { lsn: la, .. }, PositionView::PgCdc { lsn: lb, .. }) => la <= lb,
        (PositionView::Redis { repl_id: ia, repl_offset: oa }, PositionView::Redis { repl_id: ib, repl_offset: ob }) =>
            ia == ib && oa <= ob,
        (PositionView::Kafka { topic: ta, partition: pa, offset: oa }, PositionView::Kafka { topic: tb, partition: pb, offset: ob }) =>
            ta == tb && pa == pb && oa <= ob,
        (PositionView::MongoCdc { start_timestamp: sa, .. }, PositionView::MongoCdc { start_timestamp: sb, .. }) => sa <= sb,
        (PositionView::MysqlCdc { binlog_filename: fa, binlog_position: pa, .. }, PositionView::MysqlCdc { binlog_filename: fb, binlog_position: pb, .. }) =>
            fa == fb && pa <= pb,
        (PositionView::Unknown, PositionView::Unknown) => true,
        _ => false,
    }
}

/// A schema change statement.
#[derive(Clone, Debug, PartialEq)]
pub struct DdlData {
    pub schema: String,
    pub tb: String,
    pub query: String,
}

/// A Redis command as read from the replication stream.
#[derive(Clone, Debug, PartialEq)]
pub struct RedisEntry {
    /// Whether the entry carries a raw RDB payload rather than a command.
    pub is_raw: bool,
    pub cmd_name: String,
    pub args: Vec<Vec<u8>>,
    /// The arguments that are keys, as the command's key specification gives them.
    pub keys: Vec<Vec<u8>>,
}

/// The envelope of one change.
#[derive(Clone, Debug, PartialEq)]
pub enum DtData {
    Ddl { ddl_data: DdlData },
    Dml { row_data: RowData },
    Begin {},
    Commit { xid: String },
    Redis { entry: RedisEntry },
}

/// A change with the position it was read at.
#[derive(Clone, Debug, PartialEq)]
pub struct DtItem {
    pub dt_data: DtData,
    pub position: Position,
}

impl DtData {
    pub fn is_ddl(&self) -> (r: bool)
        ensures
            r == (self is Ddl),
    {
        matches!(self, DtData::Ddl { .. })
    }
}

impl DtItem {
    pub fn is_ddl(&self) -> (r: bool)
        ensures
            r == (self.dt_data is Ddl),
    {
        self.dt_data.is_ddl()
    }
}

} // verus!
