use crate::dt_data::{position_le, DdlData, DtData, DtItem, Position, PositionView, RedisEntry};
use crate::row::RowData;
use vstd::prelude::*;
use vstd::string::StrSliceExecFns;

verus! {

/// The process-wide checkpoint that the extractor acknowledges upstream.
#[derive(Debug)]
pub struct Syncer {
    pub checkpoint_position: Position,
}

/// Which sink path a drained batch takes.
#[derive(Clone, Copy, Debug, PartialEq, Eq, Structural)]
pub enum SinkPath {
    /// Forward the items unchanged (Redis and Kafka sources).
    Raw,
    /// Schema changes, followed by a metadata refresh on every sinker.
    Ddl,
    /// Row changes.
    Dml,
}

/// Raw mode forwards everything; otherwise a batch whose first item is a schema
/// change takes the DDL path and any other the DML path.
pub fn choose_sink_path(raw_mode: bool, data: &Vec<DtItem>) -> (r: SinkPath)
    requires
        data@.len() > 0,
    ensures
        raw_mode ==> r == SinkPath::Raw,
        !raw_mode && data@[0].dt_data is Ddl ==> r == SinkPath::Ddl,
        !raw_mode && !(data@[0].dt_data is Ddl) ==> r == SinkPath::Dml,
{
    if raw_mode {
        SinkPath::Raw
    } else if data[0].is_ddl() {
        SinkPath::Ddl
    } else {
        SinkPath::Dml
    }
}

/// Whether the loop drains the buffer now: once the batch interval has passed
/// since the last drain, or earlier when the buffer is full (some sinks want
/// large batches, so the loop lets items accumulate until then).
pub fn should_drain(secs_since_last_sink: u64, batch_sink_interval_secs: u64, buffer_full: bool) -> (r: bool)
    ensures
        r == (secs_since_last_sink >= batch_sink_interval_secs || buffer_full),
{
    !(secs_since_last_sink < batch_sink_interval_secs && !buffer_full)
}

/// Whether a checkpoint is due: the checkpoint interval has passed.
pub fn checkpoint_due(secs_since_last_checkpoint: u64, checkpoint_interval_secs: u64) -> (r: bool)
    ensures
        r == (secs_since_last_checkpoint >= checkpoint_interval_secs),
{
    secs_since_last_checkpoint >= checkpoint_interval_secs
}

/// A copy of a position.
pub fn copy_position(p: &Position) -> (r: Position)
    ensures
        r@ == p@,
{
    match p {
        Position::Unknown => Position::Unknown,
        Position::MysqlCdc { binlog_filename, binlog_position, gtid_set } => Position::MysqlCdc {
            binlog_filename: binlog_filename.clone(),
            binlog_position: *binlog_position,
            gtid_set: gtid_set.clone(),
        },
        Position::PgCdc { lsn, timestamp_millis } => Position::PgCdc { lsn: *lsn, timestamp_millis: *timestamp_millis },
        Position::MongoCdc { resume_token, start_timestamp } => Position::MongoCdc {
            resume_token: resume_token.clone(),
            start_timestamp: *start_timestamp,
        },
        Position::Redis { repl_id, repl_offset } => Position::Redis { repl_id: repl_id.clone(), repl_offset: *repl_offset },
        Position::Kafka { topic, partition, offset } => Position::Kafka {
            topic: topic.clone(),
            partition: *partition,
            offset: *offset,
        },
    }
}

pub open spec fn opt_position_view(p: Option<Position>) -> Option<PositionView> {
    match p {
        Some(q) => Some(q@),
        None => None,
    }
}

// ---------------------------------------------------------------------------
// What a batch holds
// ---------------------------------------------------------------------------
/// The ASCII lower case of a character.
pub open spec fn ascii_lower(c: char) -> char {
    if 'A' <= c && c <= 'Z' {
        (((c as u8) + 32) as u8) as char
    } else {
        c
    }
}

/// Whether a command name is `ping`, ignoring ASCII case.
pub open spec fn is_ping_name(name: Seq<char>) -> bool {
    name.len() == 4 && ascii_lower(name[0]) == 'p' && ascii_lower(name[1]) == 'i' && ascii_lower(name[2]) == 'n'
        && ascii_lower(name[3]) == 'g'
}

/// A keep-alive `PING` that the raw path does not forward.
pub open spec fn is_keepalive(e: RedisEntry) -> bool {
    !e.is_raw && is_ping_name(e.cmd_name@)
}

/// The item is a point that may be acknowledged upstream: a commit, or in raw
/// mode also a Redis entry.
pub open spec fn is_ack_point(item: DtItem, raw: bool) -> bool {
    item.dt_data is Commit || (raw && item.dt_data is Redis)
}

/// The item moves the received position on the given path.
pub open spec fn is_received(item: DtItem, path: SinkPath) -> bool {
    match path {
        SinkPath::Raw => true,
        SinkPath::Ddl => item.dt_data is Commit || item.dt_data is Ddl,
        SinkPath::Dml => item.dt_data is Commit || item.dt_data is Dml,
    }
}

/// The position of the last item of `s` that satisfies the path's received test.
pub open spec fn last_received_of(s: Seq<DtItem>, path: SinkPath) -> Option<PositionView>
    decreases s.len(),
{
    if s.len() == 0 {
        None
    } else if is_received(s.last(), path) {
        Some(s.last().position@)
    } else {
        last_received_of(s.drop_last(), path)
    }
}

/// The positions of the acknowledgeable points of `s`, in order.
pub open spec fn commit_points(s: Seq<DtItem>, raw: bool) -> Seq<PositionView>
    decreases s.len(),
{
    if s.len() == 0 {
        Seq::empty()
    } else if is_ack_point(s.last(), raw) {
        commit_points(s.drop_last(), raw).push(s.last().position@)
    } else {
        commit_points(s.drop_last(), raw)
    }
}

/// The position of the last acknowledgeable point of `s`.
pub open spec fn last_commit_of(s: Seq<DtItem>, raw: bool) -> Option<PositionView> {
    let c = commit_points(s, raw);
    if c.len() == 0 {
        None
    } else {
        Some(c.last())
    }
}

/// The rows of the row changes of `s`, in order.
pub open spec fn dml_rows_of(s: Seq<DtItem>) -> Seq<RowData>
    decreases s.len(),
{
    if s.len() == 0 {
        Seq::empty()
    } else {
        match s.last().dt_data {
            DtData::Dml { row_data } => dml_rows_of(s.drop_last()).push(row_data),
            _ => dml_rows_of(s.drop_last()),
        }
    }
}

/// The schema changes of `s`, in order.
pub open spec fn ddls_of(s: Seq<DtItem>) -> Seq<DdlData>
    decreases s.len(),
{
    if s.len() == 0 {
        Seq::empty()
    } else {
        match s.last().dt_data {
            DtData::Ddl { ddl_data } => ddls_of(s.drop_last()).push(ddl_data),
            _ => ddls_of(s.drop_last()),
        }
    }
}

/// What the raw path forwards: everything but commits and keep-alive pings.
pub open spec fn raw_data_of(s: Seq<DtItem>) -> Seq<DtData>
    decreases s.len(),
{
    if s.len() == 0 {
        Seq::empty()
    } else {
        let prev = raw_data_of(s.drop_last());
        match s.last().dt_data {
            DtData::Commit { .. } => prev,
            DtData::Redis { entry } => if is_keepalive(entry) {
                prev
            } else {
                prev.push(s.last().dt_data)
            },
            _ => prev.push(s.last().dt_data),
        }
    }
}

fn is_ping(name: &String) -> (r: bool)
    ensures
        r == is_ping_name(name@),
{
    let n = name.as_str().unicode_len();
    if n != 4 {
        return false;
    }
    let mut ok = true;
    let expected = "ping";
    proof {
        reveal_strlit("ping");
    }
    let mut i: usize = 0;
    while i < 4
        invariant
            n == name@.len(),
            n == 4,
            expected@ == seq!['p', 'i', 'n', 'g'],
            0 <= i <= 4,
            ok == (forall|j: int| 0 <= j < i ==> ascii_lower(name@[j]) == expected@[j]),
        decreases 4 - i,
    {
        let c = name.as_str().get_char(i);
        let lc = if 'A' <= c && c <= 'Z' {
            ((c as u8) + 32u8) as char
        } else {
            c
        };
        if lc != expected.get_char(i) {
            ok = false;
        }
        i = i + 1;
    }
    ok
}

/// Splits a batch for the row path: the rows in order, the received position
/// (last commit or row) and the commit position (last commit).
pub fn fetch_dml(data: Vec<DtItem>) -> (r: (Vec<RowData>, Option<Position>, Option<Position>))
    ensures
        r.0@ == dml_rows_of(data@),
        opt_position_view(r.1) == last_received_of(data@, SinkPath::Dml),
        opt_position_view(r.2) == last_commit_of(data@, false),
{
    let ghost orig = data@;
    let n: usize = data.len();
    let mut rev = crate::row::reversed(data);
    let mut rows: Vec<RowData> = Vec::new();
    let mut last_received: Option<Position> = None;
    let mut last_commit: Option<Position> = None;
    let mut i: usize = 0;
    while rev.len() > 0
        invariant
            n == orig.len(),
            i + rev@.len() == n,
            forall|j: int| 0 <= j < rev@.len() ==> #[trigger] rev@[j] == orig[n - 1 - j],
            rows@ == dml_rows_of(orig.take(i as int)),
            opt_position_view(last_received) == last_received_of(orig.take(i as int), SinkPath::Dml),
            opt_position_view(last_commit) == last_commit_of(orig.take(i as int), false),
        decreases rev.len(),
    {
        let item = rev.pop().unwrap();
        assert(item == orig[i as int]);
        assert(orig.take(i + 1).drop_last() =~= orig.take(i as int));
        assert(orig.take(i + 1).last() == item);
        match item.dt_data {
            DtData::Commit { .. } => {
                last_received = Some(copy_position(&item.position));
                last_commit = Some(item.position);
            },
            DtData::Dml { row_data } => {
                last_received = Some(item.position);
                rows.push(row_data);
            },
            _ => {},
        }
        i = i + 1;
    }
    assert(orig.take(n as int) =~= orig);
    (rows, last_received, last_commit)
}

/// Splits a batch for the schema-change path: the statements in order, the
/// received position (last commit or statement) and the commit position.
pub fn fetch_ddl(data: Vec<DtItem>) -> (r: (Vec<DdlData>, Option<Position>, Option<Position>))
    ensures
        r.0@ == ddls_of(data@),
        opt_position_view(r.1) == last_received_of(data@, SinkPath::Ddl),
        opt_position_view(r.2) == last_commit_of(data@, false),
{
    let ghost orig = data@;
    let n: usize = data.len();
    let mut rev = crate::row::reversed(data);
    let mut ddls: Vec<DdlData> = Vec::new();
    let mut last_received: Option<Position> = None;
    let mut last_commit: Option<Position> = None;
    let mut i: usize = 0;
    while rev.len() > 0
        invariant
            n == orig.len(),
            i + rev@.len() == n,
            forall|j: int| 0 <= j < rev@.len() ==> #[trigger] rev@[j] == orig[n - 1 - j],
            ddls@ == ddls_of(orig.take(i as int)),
            opt_position_view(last_received) == last_received_of(orig.take(i as int), SinkPath::Ddl),
            opt_position_view(last_commit) == last_commit_of(orig.take(i as int), false),
        decreases rev.len(),
    {
        let item = rev.pop().unwrap();
        assert(item == orig[i as int]);
        assert(orig.take(i + 1).drop_last() =~= orig.take(i as int));
        assert(orig.take(i + 1).last() == item);
        match item.dt_data {
            DtData::Commit { .. } => {
                last_received = Some(copy_position(&item.position));
                last_commit = Some(item.position);
            },
            DtData::Ddl { ddl_data } => {
                last_received = Some(item.position);
                ddls.push(ddl_data);
            },
            _ => {},
        }
        i = i + 1;
    }
    assert(orig.take(n as int) =~= orig);
    (ddls, last_received, last_commit)
}

/// Splits a batch for the raw path: what to forward (all but commits and
/// keep-alive pings), the received position (last item) and the commit position
/// (last commit or Redis entry).
pub fn fetch_raw(data: Vec<DtItem>) -> (r: (Vec<DtData>, Option<Position>, Option<Position>))
    ensures
        r.0@ == raw_data_of(data@),
        opt_position_view(r.1) == last_received_of(data@, SinkPath::Raw),
        opt_position_view(r.2) == last_commit_of(data@, true),
{
    let ghost orig = data@;
    let n: usize = data.len();
    let mut rev = crate::row::reversed(data);
    let mut raw: Vec<DtData> = Vec::new();
    let mut last_received: Option<Position> = None;
    let mut last_commit: Option<Position> = None;
    let mut i: usize = 0;
    while rev.len() > 0
        invariant
            n == orig.len(),
            i + rev@.len() == n,
            forall|j: int| 0 <= j < rev@.len() ==> #[trigger] rev@[j] == orig[n - 1 - j],
            raw@ == raw_data_of(orig.take(i as int)),
            opt_position_view(last_received) == last_received_of(orig.take(i as int), SinkPath::Raw),
            opt_position_view(last_commit) == last_commit_of(orig.take(i as int), true),
        decreases rev.len(),
    {
        let item = rev.pop().unwrap();
        assert(item == orig[i as int]);
        assert(orig.take(i + 1).drop_last() =~= orig.take(i as int));
        assert(orig.take(i + 1).last() == item);
        let forward = match &item.dt_data {
            DtData::Commit { .. } => false,
            DtData::Redis { entry } => !(!entry.is_raw && is_ping(&entry.cmd_name)),
            _ => true,
        };
        let ack = match &item.dt_data {
            DtData::Commit { .. } => true,
            DtData::Redis { .. } => true,
            _ => false,
        };
        if ack {
            last_commit = Some(copy_position(&item.position));
        }
        last_received = Some(item.position);
        if forward {
            raw.push(item.dt_data);
        }
        i = i + 1;
    }
    assert(orig.take(n as int) =~= orig);
    (raw, last_received, last_commit)
}

/// The positions that the pipeline loop carries from batch to batch.
#[derive(Debug)]
pub struct PipelinePositions {
    pub last_received: Option<Position>,
    pub last_commit: Option<Position>,
}

impl PipelinePositions {
    pub fn new() -> (r: Self)
        ensures
            r.last_received is None,
            r.last_commit is None,
    {
        PipelinePositions { last_received: None, last_commit: None }
    }

    /// Records what a sunk batch reported: the received position replaces the
    /// old one, the commit position only when the batch held a commit.
    pub fn record_batch(&mut self, last_received: Option<Position>, last_commit: Option<Position>)
        ensures
            final(self).last_received == last_received,
            final(self).last_commit == if last_commit is Some {
                last_commit
            } else {
                old(self).last_commit
            },
    {
        self.last_received = last_received;
        if last_commit.is_some() {
            self.last_commit = last_commit;
        }
    }

    /// When a checkpoint is due, writes the commit position, if any, to the
    /// syncer; returns whether it wrote.
    pub fn record_checkpoint(&self, syncer: &mut Syncer, due: bool) -> (r: bool)
        ensures
            r == (due && self.last_commit is Some),
            r ==> final(syncer).checkpoint_position@ == self.last_commit.unwrap()@,
            !r ==> final(syncer).checkpoint_position == old(syncer).checkpoint_position,
    {
        if !due {
            return false;
        }
        match &self.last_commit {
            Some(p) => {
                syncer.checkpoint_position = copy_position(p);
                true
            },
            None => false,
        }
    }
}

// ---------------------------------------------------------------------------
// Position monotonicity
// ---------------------------------------------------------------------------
/// The acknowledgeable points of a stream come in non-decreasing order.
pub open spec fn points_sorted(c: Seq<PositionView>) -> bool {
    forall|a: int, b: int| 0 <= a <= b < c.len() ==> position_le(#[trigger] c[a], #[trigger] c[b])
}

pub proof fn lemma_commit_points_concat(a: Seq<DtItem>, b: Seq<DtItem>, raw: bool)
    ensures
        commit_points(a + b, raw) == commit_points(a, raw) + commit_points(b, raw),
    decreases b.len(),
{
    if b.len() == 0 {
        assert(a + b =~= a);
        assert(commit_points(a, raw) + commit_points(b, raw) =~= commit_points(a, raw));
    } else {
        lemma_commit_points_concat(a, b.drop_last(), raw);
        assert((a + b).drop_last() =~= a + b.drop_last());
        assert((a + b).last() == b.last());
        if is_ack_point(b.last(), raw) {
            assert(commit_points(a, raw) + commit_points(b.drop_last(), raw).push(b.last().position@) =~= (
            commit_points(a, raw) + commit_points(b.drop_last(), raw)).push(b.last().position@));
        }
    }
}

/// Position monotonicity: when the acknowledgeable points of a stream come in
/// non-decreasing order, the commit position after any prefix is no greater
/// than the one after any longer prefix. The pipeline writes to the syncer only
/// the commit position after the batches sunk so far, so the positions it
/// writes in one run never decrease.
pub proof fn lemma_checkpoint_monotone(s: Seq<DtItem>, raw: bool, i: int, j: int)
    requires
        points_sorted(commit_points(s, raw)),
        0 <= i <= j <= s.len(),
        last_commit_of(s.take(i), raw) is Some,
    ensures
        last_commit_of(s.take(j), raw) is Some,
        position_le(last_commit_of(s.take(i), raw).unwrap(), last_commit_of(s.take(j), raw).unwrap()),
{
    lemma_commit_points_concat(s.take(i), s.subrange(i, j), raw);
    assert(s.take(i) + s.subrange(i, j) =~= s.take(j));
    lemma_commit_points_concat(s.take(j), s.subrange(j, s.len() as int), raw);
    assert(s.take(j) + s.subrange(j, s.len() as int) =~= s);
    let ci = commit_points(s.take(i), raw);
    let cj = commit_points(s.take(j), raw);
    let c = commit_points(s, raw);
    assert(cj[ci.len() - 1] == ci.last());
    assert(c[ci.len() - 1] == cj[ci.len() - 1]);
    assert(c[cj.len() - 1] == cj.last());
}

} // verus!
