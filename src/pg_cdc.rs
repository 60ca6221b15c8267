use crate::dt_data::{DtData, DtItem, Position, PositionView};
use crate::pipeline::{commit_points, last_commit_of, lemma_commit_points_concat};
use crate::error::{Error, ExtractorFault};
use crate::meta::{cache_key, clone_strings, RdbTbMeta, TbMetaCache};
use crate::row::{
    RowDataView,
    cols_view, image_get, image_lookup, image_view, ColValue, ColValueView, ColValues, ImageView, RowData,
    RowType,
};
use vstd::prelude::*;

verus! {

/// Seconds from 1970-01-01 to 2000-01-01, the PostgreSQL epoch.
pub const SECS_FROM_1970_TO_2000: i64 = 946_684_800;

/// A PostgreSQL timestamp (microseconds since 2000-01-01 UTC) as unix
/// milliseconds.
pub open spec fn pg_micros_to_unix_millis(micros: i64) -> int {
    trunc_div(micros as int, 1000) + SECS_FROM_1970_TO_2000 * 1000
}

/// Integer division rounding toward zero.
pub open spec fn trunc_div(a: int, b: int) -> int {
    if a >= 0 {
        a / b
    } else {
        -((-a) / b)
    }
}

pub fn pg_to_unix_millis(micros: i64) -> (r: i64)
    ensures
        r as int == pg_micros_to_unix_millis(micros),
{
    micros / 1000 + SECS_FROM_1970_TO_2000 * 1000
}

/// One column slot of a replicated tuple.
#[derive(Clone, Debug, PartialEq)]
pub enum TupleSlot {
    Null,
    /// The column's value in its text form.
    Text(String),
    /// A TOAST value that did not change and whose content is not sent.
    UnchangedToast,
}

/// A column as a relation frame describes it.
#[derive(Clone, Debug, PartialEq)]
pub struct RelationColumn {
    pub name: String,
    pub type_oid: u32,
}

/// A logical replication message, in plain values.
#[derive(Clone, Debug, PartialEq)]
pub enum PgFrame {
    Begin { xid: u32, timestamp_micros: i64 },
    Commit { end_lsn: u64, timestamp_micros: i64 },
    Relation { rel_id: u32, namespace: String, name: String, columns: Vec<RelationColumn> },
    Insert { rel_id: u32, tuple: Vec<TupleSlot> },
    Update {
        rel_id: u32,
        old_tuple: Option<Vec<TupleSlot>>,
        key_tuple: Option<Vec<TupleSlot>>,
        new_tuple: Vec<TupleSlot>,
    },
    Delete { rel_id: u32, old_tuple: Option<Vec<TupleSlot>>, key_tuple: Option<Vec<TupleSlot>> },
    /// Origin, truncate and type messages, which carry nothing for the pipeline.
    Ignored,
    /// A keep-alive from the server; `reply_requested` asks for a status update now.
    KeepAlive { reply_requested: bool },
}

/// How a column's text form is read.
#[derive(Clone, Copy, Debug, PartialEq, Eq, Structural)]
pub enum PgValueKind {
    Bool,
    Numeric,
    Date,
    Time,
    DateTime,
    Timestamp,
    Json,
    Text,
}

/// A column type of the type registry.
#[derive(Clone, Debug, PartialEq)]
pub struct PgColType {
    pub oid: u32,
    pub name: String,
    pub kind: PgValueKind,
}

/// The column value that a text form stands for under a column kind: `t` is
/// true for booleans, and text of the other kinds is kept under its kind.
pub open spec fn text_value(kind: PgValueKind, s: Seq<char>) -> ColValueView {
    match kind {
        PgValueKind::Bool => ColValueView::Bool(s == seq!['t']),
        PgValueKind::Numeric => ColValueView::Text(20, s),
        PgValueKind::Time => ColValueView::Text(21, s),
        PgValueKind::Date => ColValueView::Text(22, s),
        PgValueKind::DateTime => ColValueView::Text(23, s),
        PgValueKind::Timestamp => ColValueView::Text(24, s),
        PgValueKind::Text => ColValueView::Text(25, s),
        PgValueKind::Json => ColValueView::Text(28, s),
    }
}

fn from_text(kind: PgValueKind, s: String) -> (r: ColValue)
    ensures
        r@ == text_value(kind, s@),
{
    match kind {
        PgValueKind::Bool => {
            let t = "t".to_owned();
            proof {
                reveal_strlit("t");
                assert(t@ =~= seq!['t']);
            }
            ColValue::Bool(s == t)
        },
        PgValueKind::Numeric => ColValue::Decimal(s),
        PgValueKind::Time => ColValue::Time(s),
        PgValueKind::Date => ColValue::Date(s),
        PgValueKind::DateTime => ColValue::DateTime(s),
        PgValueKind::Timestamp => ColValue::Timestamp(s),
        PgValueKind::Text => ColValue::String(s),
        PgValueKind::Json => ColValue::Json2(s),
    }
}

/// A table as the replication stream sees it: its metadata with the columns
/// in the order of the relation frame, and the type of each column.
#[derive(Clone, Debug)]
pub struct PgTbMeta {
    pub basic: RdbTbMeta,
    pub col_types: Vec<(String, PgValueKind)>,
}

/// The kind of column `col`: the first entry with that name.
pub open spec fn kind_of(types: Seq<(String, PgValueKind)>, col: Seq<char>) -> Option<PgValueKind>
    decreases types.len(),
{
    if types.len() == 0 {
        None
    } else if types[0].0@ == col {
        Some(types[0].1)
    } else {
        kind_of(types.drop_first(), col)
    }
}

fn lookup_kind(types: &Vec<(String, PgValueKind)>, col: &String) -> (r: Option<PgValueKind>)
    ensures
        r == kind_of(types@, col@),
{
    let mut i: usize = 0;
    assert(types@.subrange(0, types@.len() as int) =~= types@);
    while i < types.len()
        invariant
            0 <= i <= types@.len(),
            kind_of(types@, col@) == kind_of(types@.subrange(i as int, types@.len() as int), col@),
        decreases types.len() - i,
    {
        assert(types@.subrange(i as int, types@.len() as int).drop_first() =~= types@.subrange(i + 1, types@.len() as int));
        if types[i].0 == *col {
            return Some(types[i].1);
        }
        i = i + 1;
    }
    None
}

/// The decoded image of a tuple: the i-th slot is the value of the i-th column;
/// `None` when a slot is an unchanged TOAST value, there are more slots than
/// columns, or a column's type is unknown.
pub open spec fn decode_tuple(meta: PgTbMeta, tuple: Seq<TupleSlot>) -> Option<ImageView> {
    if tuple.len() > meta.basic.cols@.len() {
        None
    } else if exists|i: int| 0 <= i < tuple.len() && (#[trigger] tuple[i]) is UnchangedToast {
        None
    } else if exists|i: int| 0 <= i < tuple.len() && kind_of(meta.col_types@, #[trigger] meta.basic.cols@[i]@) is None {
        None
    } else {
        Some(
            Seq::new(
                tuple.len(),
                |i: int|
                    (
                        meta.basic.cols@[i]@,
                        match tuple[i] {
                            TupleSlot::Text(s) => text_value(kind_of(meta.col_types@, meta.basic.cols@[i]@).unwrap(), s@),
                            _ => ColValueView::Null,
                        },
                    ),
            ),
        )
    }
}

/// The fault that `decode_tuple` meets first.
pub open spec fn tuple_fault(meta: PgTbMeta, tuple: Seq<TupleSlot>) -> ExtractorFault {
    if tuple.len() > meta.basic.cols@.len() {
        ExtractorFault::TooManyColumns
    } else {
        let i = choose|i: int|
            0 <= i < tuple.len() && ((#[trigger] tuple[i]) is UnchangedToast || kind_of(meta.col_types@, meta.basic.cols@[i]@) is None);
        if tuple[i] is UnchangedToast {
            ExtractorFault::UnchangedToast
        } else {
            ExtractorFault::UnknownType
        }
    }
}

/// Decodes a tuple into the image of its columns, in column order.
pub fn parse_row_data(tb_meta: &PgTbMeta, tuple_data: Vec<TupleSlot>) -> (r: Result<ColValues, Error>)
    ensures
        match decode_tuple(*tb_meta, tuple_data@) {
            Some(img) => r is Ok && image_view(r.unwrap()@) == img,
            None => r is Err && r->Err_0 is ExtractorError,
        },
{
    let ghost tup = tuple_data@;
    let ghost tin = tuple_data;
    if tuple_data.len() > tb_meta.basic.cols.len() {
        return Err(Error::ExtractorError { reason: ExtractorFault::TooManyColumns });
    }
    let n: usize = tuple_data.len();
    let mut rev: Vec<TupleSlot> = Vec::new();
    let mut src = tuple_data;
    while src.len() > 0
        invariant
            tin == tuple_data,
            tup == tin@,
            n == tup.len(),
            src@ == tup.take(src@.len() as int),
            src@.len() + rev@.len() == n,
            forall|j: int| 0 <= j < rev@.len() ==> #[trigger] rev@[j] == tup[n - 1 - j],
        decreases src.len(),
    {
        let slot = src.pop().unwrap();
        rev.push(slot);
        assert(src@ =~= tup.take(src@.len() as int));
    }
    let mut out: ColValues = Vec::new();
    let mut i: usize = 0;
    while i < n
        invariant
            tin == tuple_data,
            tup == tin@,
            n == tup.len(),
            n <= tb_meta.basic.cols@.len(),
            i + rev@.len() == n,
            forall|j: int| 0 <= j < rev@.len() ==> #[trigger] rev@[j] == tup[n - 1 - j],
            out@.len() == i,
            forall|j: int| 0 <= j < i ==> !((#[trigger] tup[j]) is UnchangedToast),
            forall|j: int| 0 <= j < i ==> kind_of(tb_meta.col_types@, (#[trigger] tb_meta.basic.cols@[j])@) is Some,
            forall|j: int|
                0 <= j < i ==> #[trigger] image_view(out@)[j] == (
                    tb_meta.basic.cols@[j]@,
                    match tup[j] {
                        TupleSlot::Text(s) => text_value(kind_of(tb_meta.col_types@, tb_meta.basic.cols@[j]@).unwrap(), s@),
                        _ => ColValueView::Null,
                    },
                ),
        decreases n - i,
    {
        let slot = rev.pop().unwrap();
        assert(slot == tup[i as int]);
        let col = &tb_meta.basic.cols[i];
        let kind = match lookup_kind(&tb_meta.col_types, col) {
            None => {
                proof {
                    if exists|j: int| 0 <= j < tup.len() && (#[trigger] tup[j]) is UnchangedToast {
                    } else {
                        assert(kind_of(tb_meta.col_types@, tb_meta.basic.cols@[i as int]@) is None);
                    }
                }
                return Err(Error::ExtractorError { reason: ExtractorFault::UnknownType });
            },
            Some(k) => k,
        };
        let value = match slot {
            TupleSlot::Null => ColValue::Null,
            TupleSlot::Text(s) => from_text(kind, s),
            TupleSlot::UnchangedToast => {
                assert(tup[i as int] is UnchangedToast);
                return Err(Error::ExtractorError { reason: ExtractorFault::UnchangedToast });
            },
        };
        let ghost old_out = out@;
        let ghost vv = value@;
        out.push((col.clone(), value));
        assert(image_view(out@) =~= image_view(old_out).push((tb_meta.basic.cols@[i as int]@, vv)));
        assert(vv == match tup[i as int] {
            TupleSlot::Text(s) => text_value(kind_of(tb_meta.col_types@, tb_meta.basic.cols@[i as int]@).unwrap(), s@),
            _ => ColValueView::Null,
        });
        i = i + 1;
    }
    proof {
        let img = decode_tuple(*tb_meta, tup);
        assert(!(exists|j: int| 0 <= j < tup.len() && (#[trigger] tup[j]) is UnchangedToast));
        assert(!(exists|j: int| 0 <= j < tup.len() && kind_of(tb_meta.col_types@, #[trigger] tb_meta.basic.cols@[j]@) is None));
        assert(image_view(out@) =~= img.unwrap());
    }
    Ok(out)
}

/// A copy of a column value.
pub fn copy_col_value(v: &ColValue) -> (r: ColValue)
    ensures
        r@ == v@,
{
    match v {
        ColValue::Null => ColValue::Null,
        ColValue::Bool(x) => ColValue::Bool(*x),
        ColValue::Tiny(x) => ColValue::Tiny(*x),
        ColValue::UnsignedTiny(x) => ColValue::UnsignedTiny(*x),
        ColValue::Short(x) => ColValue::Short(*x),
        ColValue::UnsignedShort(x) => ColValue::UnsignedShort(*x),
        ColValue::Long(x) => ColValue::Long(*x),
        ColValue::UnsignedLong(x) => ColValue::UnsignedLong(*x),
        ColValue::LongLong(x) => ColValue::LongLong(*x),
        ColValue::UnsignedLongLong(x) => ColValue::UnsignedLongLong(*x),
        ColValue::FloatBits(x) => ColValue::FloatBits(*x),
        ColValue::DoubleBits(x) => ColValue::DoubleBits(*x),
        ColValue::Year(x) => ColValue::Year(*x),
        ColValue::Bit(x) => ColValue::Bit(*x),
        ColValue::SetBits(x) => ColValue::SetBits(*x),
        ColValue::Enum(x) => ColValue::Enum(*x),
        ColValue::Decimal(s) => ColValue::Decimal(s.clone()),
        ColValue::Time(s) => ColValue::Time(s.clone()),
        ColValue::Date(s) => ColValue::Date(s.clone()),
        ColValue::DateTime(s) => ColValue::DateTime(s.clone()),
        ColValue::Timestamp(s) => ColValue::Timestamp(s.clone()),
        ColValue::String(s) => ColValue::String(s.clone()),
        ColValue::Set2(s) => ColValue::Set2(s.clone()),
        ColValue::Enum2(s) => ColValue::Enum2(s.clone()),
        ColValue::Json2(s) => ColValue::Json2(s.clone()),
        ColValue::MongoDoc(s) => ColValue::MongoDoc(s.clone()),
        ColValue::Blob(b) => ColValue::Blob(copy_bytes(b)),
        ColValue::Json(b) => ColValue::Json(copy_bytes(b)),
    }
}

fn copy_bytes(b: &Vec<u8>) -> (r: Vec<u8>)
    ensures
        r@ == b@,
{
    let mut out: Vec<u8> = Vec::new();
    let mut i: usize = 0;
    while i < b.len()
        invariant
            0 <= i <= b@.len(),
            out@ == b@.take(i as int),
        decreases b.len() - i,
    {
        out.push(b[i]);
        assert(out@ =~= b@.take(i + 1));
        i = i + 1;
    }
    assert(b@.take(i as int) =~= b@);
    out
}

/// The projection of an image onto `cols`: the columns of `cols` that the image
/// holds, in the order of `cols`.
pub open spec fn project(img: ImageView, cols: Seq<Seq<char>>) -> ImageView
    decreases cols.len(),
{
    if cols.len() == 0 {
        Seq::empty()
    } else {
        let prev = project(img, cols.drop_last());
        match image_get(img, cols.last()) {
            Some(v) => prev.push((cols.last(), v)),
            None => prev,
        }
    }
}

fn project_image(img: &ColValues, cols: &Vec<String>) -> (r: ColValues)
    ensures
        image_view(r@) == project(image_view(img@), cols_view(cols@)),
{
    let mut out: ColValues = Vec::new();
    let mut i: usize = 0;
    while i < cols.len()
        invariant
            0 <= i <= cols@.len(),
            image_view(out@) == project(image_view(img@), cols_view(cols@).take(i as int)),
        decreases cols.len() - i,
    {
        assert(cols_view(cols@).take(i + 1).drop_last() =~= cols_view(cols@).take(i as int));
        assert(cols_view(cols@).take(i + 1).last() == cols@[i as int]@);
        match image_lookup(img, &cols[i]) {
            Some(v) => {
                let c = copy_col_value(v);
                out.push((cols[i].clone(), c));
                assert(image_view(out@) =~= project(image_view(img@), cols_view(cols@).take(i as int)).push((cols@[i as int]@, v@)));
            },
            None => {},
        }
        i = i + 1;
    }
    assert(cols_view(cols@).take(i as int) =~= cols_view(cols@));
    out
}

/// A name-based filter on row events: tables to leave out, and, when not empty,
/// the only row types to keep.
#[derive(Clone, Debug)]
pub struct EventFilter {
    pub ignore_tbs: Vec<(String, String)>,
    pub do_events: Vec<RowType>,
}

impl EventFilter {
    /// Whether an event of `schema.tb` with type `row_type` is dropped.
    pub open spec fn drops(&self, schema: Seq<char>, tb: Seq<char>, row_type: RowType) -> bool {
        (exists|i: int| 0 <= i < self.ignore_tbs@.len() && (#[trigger] self.ignore_tbs@[i]).0@ == schema && self.ignore_tbs@[i].1@ == tb)
            || (self.do_events@.len() > 0 && !self.do_events@.contains(row_type))
    }

    pub fn filter_event(&self, schema: &String, tb: &String, row_type: RowType) -> (r: bool)
        ensures
            r == self.drops(schema@, tb@, row_type),
    {
        let mut i: usize = 0;
        while i < self.ignore_tbs.len()
            invariant
                0 <= i <= self.ignore_tbs@.len(),
                forall|j: int| 0 <= j < i ==> !((#[trigger] self.ignore_tbs@[j]).0@ == schema@ && self.ignore_tbs@[j].1@ == tb@),
            decreases self.ignore_tbs.len() - i,
        {
            if self.ignore_tbs[i].0 == *schema && self.ignore_tbs[i].1 == *tb {
                return true;
            }
            i = i + 1;
        }
        if self.do_events.len() == 0 {
            return false;
        }
        let mut k: usize = 0;
        while k < self.do_events.len()
            invariant
                0 <= k <= self.do_events@.len(),
                forall|j: int| 0 <= j < self.ignore_tbs@.len() ==> !((#[trigger] self.ignore_tbs@[j]).0@ == schema@ && self.ignore_tbs@[j].1@ == tb@),
                forall|j: int| 0 <= j < k ==> self.do_events@[j] != row_type,
            decreases self.do_events.len() - k,
        {
            if self.do_events[k] == row_type {
                assert(self.do_events@.contains(row_type));
                return false;
            }
            k = k + 1;
        }
        true
    }
}

/// What the frame loop does after a frame.
#[derive(Debug)]
pub enum PgAction {
    /// Push the item to the buffer.
    Push(DtItem),
    /// Send a standby status update now.
    Heartbeat,
    /// Nothing to do.
    Nothing,
}

/// The state of the logical replication decoder.
pub struct PgCdcDecoder {
    /// The end LSN of the last committed transaction (initially the start LSN
    /// that the server chose).
    pub last_tx_end_lsn: u64,
    pub xid: u32,
    pub position: Position,
    /// The tables that relation frames have described, by relation id.
    pub relations: Vec<(u32, PgTbMeta)>,
    /// The column types by type oid.
    pub type_registry: Vec<PgColType>,
    pub filter: EventFilter,
}

/// The position of a change inside a transaction.
pub open spec fn pg_position(lsn: u64, micros: i64) -> PositionView {
    PositionView::PgCdc { lsn, timestamp_millis: pg_micros_to_unix_millis(micros) as i64 }
}

/// The first relation entry with id `rel_id`.
pub open spec fn relation_of(rels: Seq<(u32, PgTbMeta)>, rel_id: u32) -> Option<PgTbMeta>
    decreases rels.len(),
{
    if rels.len() == 0 {
        None
    } else if rels[0].0 == rel_id {
        Some(rels[0].1)
    } else {
        relation_of(rels.drop_first(), rel_id)
    }
}

/// The standby status update acknowledges the more recent of the start LSN and
/// the committed LSN in the syncer.
pub open spec fn ack_lsn_of(checkpoint: PositionView, start_lsn: u64) -> u64 {
    match checkpoint {
        PositionView::PgCdc { lsn, .. } => if lsn > start_lsn {
            lsn
        } else {
            start_lsn
        },
        _ => start_lsn,
    }
}

/// Whether a standby status update is due: more than the heartbeat interval
/// has passed since the last one.
pub fn heartbeat_due(secs_since_last: u64, heartbeat_interval_secs: u64) -> (r: bool)
    ensures
        r == (secs_since_last > heartbeat_interval_secs),
{
    secs_since_last > heartbeat_interval_secs
}

/// The LSN that a standby status update acknowledges (write, flush and apply).
pub fn heartbeat_lsn(checkpoint: &Position, start_lsn: u64) -> (r: u64)
    ensures
        r == ack_lsn_of(checkpoint@, start_lsn),
{
    match checkpoint {
        Position::PgCdc { lsn, .. } => if *lsn > start_lsn {
            *lsn
        } else {
            start_lsn
        },
        _ => start_lsn,
    }
}

/// The LSN of a PostgreSQL position (0 for any other).
pub open spec fn lsn_of(p: PositionView) -> u64 {
    match p {
        PositionView::PgCdc { lsn, .. } => lsn,
        _ => 0,
    }
}

/// The commit points come with strictly increasing LSNs, all above the start
/// LSN, as the server sends transactions in commit order after the start.
pub open spec fn commits_after_start(c: Seq<PositionView>, start_lsn: u64) -> bool {
    &&& forall|a: int| 0 <= a < c.len() ==> (#[trigger] c[a]) is PgCdc && lsn_of(c[a]) > start_lsn
    &&& forall|a: int, b: int| 0 <= a < b < c.len() ==> lsn_of(#[trigger] c[a]) < lsn_of(#[trigger] c[b])
}

/// The syncer's checkpoint after the first `i` items have been sunk.
pub open spec fn checkpoint_after(s: Seq<DtItem>, i: int) -> PositionView {
    match last_commit_of(s.take(i), false) {
        Some(p) => p,
        None => PositionView::Unknown,
    }
}

/// Idempotent checkpoint: once the first `i` items of the stream have been sunk
/// and their last commit written to the syncer, every commit of the items not
/// yet sunk lies strictly above the LSN that the heartbeat acknowledges. A
/// restart from that LSN therefore receives all of them again.
pub proof fn lemma_unacked_redelivered(s: Seq<DtItem>, i: int, start_lsn: u64)
    requires
        0 <= i <= s.len(),
        commits_after_start(commit_points(s, false), start_lsn),
    ensures
        forall|k: int|
            0 <= k < commit_points(s.subrange(i, s.len() as int), false).len() ==> lsn_of(
                #[trigger] commit_points(s.subrange(i, s.len() as int), false)[k],
            ) > ack_lsn_of(checkpoint_after(s, i), start_lsn),
{
    let rest = s.subrange(i, s.len() as int);
    lemma_commit_points_concat(s.take(i), rest, false);
    assert(s.take(i) + rest =~= s);
    let ci = commit_points(s.take(i), false);
    let c = commit_points(s, false);
    assert forall|k: int| 0 <= k < commit_points(rest, false).len() implies lsn_of(
        #[trigger] commit_points(rest, false)[k],
    ) > ack_lsn_of(checkpoint_after(s, i), start_lsn) by {
        assert(c[ci.len() + k] == commit_points(rest, false)[k]);
        if ci.len() > 0 {
            assert(c[ci.len() - 1] == ci.last());
            assert(lsn_of(c[ci.len() - 1]) < lsn_of(c[ci.len() + k]));
        }
    }
}

/// The kind that the type registry gives for `oid`: the first entry with it.
pub open spec fn kind_for_oid(reg: Seq<PgColType>, oid: u32) -> Option<PgValueKind>
    decreases reg.len(),
{
    if reg.len() == 0 {
        None
    } else if reg[0].oid == oid {
        Some(reg[0].kind)
    } else {
        kind_for_oid(reg.drop_first(), oid)
    }
}

/// Every column of a relation frame has a type that the registry knows.
pub open spec fn types_known(reg: Seq<PgColType>, columns: Seq<RelationColumn>) -> bool {
    forall|i: int| 0 <= i < columns.len() ==> kind_for_oid(reg, (#[trigger] columns[i]).type_oid) is Some
}

/// What a relation frame does: it succeeds exactly when the table is cached
/// and every column type is known, and then keeps under the relation id the
/// cached table with the frame's columns, in frame order, and their kinds.
pub open spec fn relation_outcome(
    before: PgCdcDecoder,
    after: PgCdcDecoder,
    cache: TbMetaCache,
    rel_id: u32,
    namespace: Seq<char>,
    name: Seq<char>,
    columns: Seq<RelationColumn>,
    ok: bool,
) -> bool {
    &&& (ok <==> (cache.cached(cache_key(namespace, name)) && types_known(before.type_registry@, columns)))
    &&& ok ==> ({
        let m = relation_of(after.relations@, rel_id);
        let base = cache.cached_meta(cache_key(namespace, name));
        &&& m is Some
        &&& m.unwrap().basic.cols@.len() == columns.len()
        &&& m.unwrap().col_types@.len() == columns.len()
        &&& forall|i: int|
            0 <= i < columns.len() ==> {
                &&& (#[trigger] m.unwrap().basic.cols@[i])@ == columns[i].name@
                &&& m.unwrap().col_types@[i].0@ == columns[i].name@
                &&& kind_for_oid(before.type_registry@, columns[i].type_oid) == Some(m.unwrap().col_types@[i].1)
            }
        &&& m.unwrap().basic.id_cols@ == base.id_cols@
        &&& m.unwrap().basic.schema@ == base.schema@
        &&& m.unwrap().basic.tb@ == base.tb@
    })
}

/// What decoding a row of table `m` yields: unless the filter drops it, a push
/// of that row at the decoder's position; otherwise nothing.
pub open spec fn row_outcome(
    dec: PgCdcDecoder,
    m: PgTbMeta,
    row_type: RowType,
    before: Option<ImageView>,
    after: Option<ImageView>,
    r: Result<PgAction, Error>,
) -> bool {
    r is Ok && match r.unwrap() {
        PgAction::Push(item) => {
            &&& !dec.filter.drops(m.basic.schema@, m.basic.tb@, row_type)
            &&& item.position@ == dec.position@
            &&& match item.dt_data {
                DtData::Dml { row_data } => row_data@ == (RowDataView {
                    schema: m.basic.schema@,
                    tb: m.basic.tb@,
                    row_type,
                    before,
                    after,
                }),
                _ => false,
            }
        },
        PgAction::Nothing => dec.filter.drops(m.basic.schema@, m.basic.tb@, row_type),
        PgAction::Heartbeat => false,
    }
}

/// An insert frame: the after image is the decoded tuple.
pub open spec fn insert_outcome(dec: PgCdcDecoder, rel_id: u32, tuple: Seq<TupleSlot>, r: Result<PgAction, Error>) -> bool {
    match relation_of(dec.relations@, rel_id) {
        None => r is Err,
        Some(m) => match decode_tuple(m, tuple) {
            None => r is Err,
            Some(img) => row_outcome(dec, m, RowType::Insert, None, Some(img), r),
        },
    }
}

/// An update frame: the after image is the new tuple; the before image is the
/// old tuple if sent, else the key tuple, else the after image projected onto
/// the identifying columns.
pub open spec fn update_outcome(
    dec: PgCdcDecoder,
    rel_id: u32,
    old_tuple: Option<Vec<TupleSlot>>,
    key_tuple: Option<Vec<TupleSlot>>,
    new_tuple: Seq<TupleSlot>,
    r: Result<PgAction, Error>,
) -> bool {
    match relation_of(dec.relations@, rel_id) {
        None => r is Err,
        Some(m) => {
            let before = match old_tuple {
                Some(t) => decode_tuple(m, t@),
                None => match key_tuple {
                    Some(t) => decode_tuple(m, t@),
                    None => match decode_tuple(m, new_tuple) {
                        Some(a) => Some(project(a, cols_view(m.basic.id_cols@))),
                        None => None,
                    },
                },
            };
            match (decode_tuple(m, new_tuple), before) {
                (Some(a), Some(b)) => row_outcome(dec, m, RowType::Update, Some(b), Some(a), r),
                _ => r is Err,
            }
        },
    }
}

/// A delete frame: the before image is the old tuple if sent, else the key
/// tuple, else empty.
pub open spec fn delete_outcome(
    dec: PgCdcDecoder,
    rel_id: u32,
    old_tuple: Option<Vec<TupleSlot>>,
    key_tuple: Option<Vec<TupleSlot>>,
    r: Result<PgAction, Error>,
) -> bool {
    match relation_of(dec.relations@, rel_id) {
        None => r is Err,
        Some(m) => {
            let before = match old_tuple {
                Some(t) => decode_tuple(m, t@),
                None => match key_tuple {
                    Some(t) => decode_tuple(m, t@),
                    None => Some(Seq::empty()),
                },
            };
            match before {
                Some(b) => row_outcome(dec, m, RowType::Delete, Some(b), None, r),
                None => r is Err,
            }
        },
    }
}

impl PgCdcDecoder {
    pub fn new(start_lsn: u64, type_registry: Vec<PgColType>, filter: EventFilter) -> (r: Self)
        ensures
            r.last_tx_end_lsn == start_lsn,
            r.position@ == pg_position(start_lsn, 0),
            r.relations@.len() == 0,
            r.type_registry@ == type_registry@,
            r.filter.ignore_tbs@ == filter.ignore_tbs@,
            r.filter.do_events@ == filter.do_events@,
    {
        PgCdcDecoder {
            last_tx_end_lsn: start_lsn,
            xid: 0,
            position: Position::PgCdc { lsn: start_lsn, timestamp_millis: pg_to_unix_millis(0) },
            relations: Vec::new(),
            type_registry,
            filter,
        }
    }

    fn find_relation(&self, rel_id: u32) -> (r: Option<usize>)
        ensures
            match r {
                Some(i) => i < self.relations@.len() && relation_of(self.relations@, rel_id) == Some(self.relations@[i as int].1),
                None => relation_of(self.relations@, rel_id) is None,
            },
    {
        let mut i: usize = 0;
        assert(self.relations@.subrange(0, self.relations@.len() as int) =~= self.relations@);
        while i < self.relations.len()
            invariant
                0 <= i <= self.relations@.len(),
                relation_of(self.relations@, rel_id) == relation_of(
                    self.relations@.subrange(i as int, self.relations@.len() as int),
                    rel_id,
                ),
            decreases self.relations.len() - i,
        {
            assert(self.relations@.subrange(i as int, self.relations@.len() as int).drop_first() =~= self.relations@.subrange(
                i + 1,
                self.relations@.len() as int,
            ));
            if self.relations[i].0 == rel_id {
                return Some(i);
            }
            i = i + 1;
        }
        None
    }

    fn type_kind(&self, oid: u32) -> (r: Option<PgValueKind>)
        ensures
            r == kind_for_oid(self.type_registry@, oid),
    {
        let mut i: usize = 0;
        assert(self.type_registry@.subrange(0, self.type_registry@.len() as int) =~= self.type_registry@);
        while i < self.type_registry.len()
            invariant
                0 <= i <= self.type_registry@.len(),
                kind_for_oid(self.type_registry@, oid) == kind_for_oid(
                    self.type_registry@.subrange(i as int, self.type_registry@.len() as int),
                    oid,
                ),
            decreases self.type_registry.len() - i,
        {
            assert(self.type_registry@.subrange(i as int, self.type_registry@.len() as int).drop_first()
                =~= self.type_registry@.subrange(i + 1, self.type_registry@.len() as int));
            if self.type_registry[i].oid == oid {
                return Some(self.type_registry[i].kind);
            }
            i = i + 1;
        }
        None
    }

    /// A relation frame: takes the table's metadata from the registry, replaces
    /// its column list and column types by those of the frame, and keeps it
    /// under the relation id.
    pub fn decode_relation(
        &mut self,
        meta_cache: &TbMetaCache,
        rel_id: u32,
        namespace: &String,
        name: &String,
        columns: &Vec<RelationColumn>,
    ) -> (r: Result<(), Error>)
        requires
            meta_cache.wf(),
        ensures
            relation_outcome(*old(self), *final(self), *meta_cache, rel_id, namespace@, name@, columns@, r is Ok),
            final(self).last_tx_end_lsn == old(self).last_tx_end_lsn,
            final(self).position == old(self).position,
            final(self).type_registry == old(self).type_registry,
            final(self).filter == old(self).filter,
    {
        let base = match meta_cache.get(namespace, name) {
            None => {
                return Err(Error::MetadataError { schema: namespace.clone(), tb: name.clone() });
            },
            Some(m) => m,
        };
        let mut cols: Vec<String> = Vec::new();
        let mut col_types: Vec<(String, PgValueKind)> = Vec::new();
        let mut i: usize = 0;
        while i < columns.len()
            invariant
                *self == *old(self),
                meta_cache.cached(cache_key(namespace@, name@)),
                *base == meta_cache.cached_meta(cache_key(namespace@, name@)),
                0 <= i <= columns@.len(),
                cols@.len() == i,
                col_types@.len() == i,
                forall|j: int| 0 <= j < i ==> (#[trigger] cols@[j])@ == columns@[j].name@,
                forall|j: int|
                    0 <= j < i ==> (#[trigger] col_types@[j]).0@ == columns@[j].name@ && kind_for_oid(
                        self.type_registry@,
                        columns@[j].type_oid,
                    ) == Some(col_types@[j].1),
            decreases columns.len() - i,
        {
            let kind = match self.type_kind(columns[i].type_oid) {
                None => {
                    assert(!types_known(self.type_registry@, columns@));
                    return Err(Error::ExtractorError { reason: ExtractorFault::UnknownType });
                },
                Some(k) => k,
            };
            cols.push(columns[i].name.clone());
            col_types.push((columns[i].name.clone(), kind));
            i = i + 1;
        }
        let basic = RdbTbMeta {
            schema: base.schema.clone(),
            tb: base.tb.clone(),
            cols,
            key_map: base.key_map.clone(),
            order_col: base.order_col.clone(),
            partition_col: base.partition_col.clone(),
            id_cols: clone_strings(&base.id_cols),
            foreign_keys: base.foreign_keys.clone(),
            ref_by_foreign_keys: base.ref_by_foreign_keys.clone(),
        };
        let meta = PgTbMeta { basic, col_types };
        let ghost mv = meta;
        match self.find_relation(rel_id) {
            Some(idx) => {
                self.relations.remove(idx);
            },
            None => {},
        }
        self.relations.insert(0, (rel_id, meta));
        assert(self.relations@[0] == (rel_id, mv));
        assert(relation_of(self.relations@, rel_id) == Some(mv));
        assert(types_known(old(self).type_registry@, columns@)) by {
            assert forall|j: int| 0 <= j < columns@.len() implies kind_for_oid(old(self).type_registry@, (#[trigger] columns@[j]).type_oid) is Some by {
                assert(mv.col_types@[j].0@ == columns@[j].name@);
            }
        }
        Ok(())
    }

    fn relation_meta(&self, rel_id: u32) -> (r: Result<&PgTbMeta, Error>)
        ensures
            match relation_of(self.relations@, rel_id) {
                Some(m) => r is Ok && *r.unwrap() == m,
                None => r is Err,
            },
    {
        match self.find_relation(rel_id) {
            Some(i) => Ok(&self.relations[i].1),
            None => Err(Error::ExtractorError { reason: ExtractorFault::UnknownRelation }),
        }
    }

    fn wrap_row(&self, row_data: RowData) -> (r: PgAction)
        ensures
            self.filter.drops(row_data.schema@, row_data.tb@, row_data.row_type) ==> r is Nothing,
            !self.filter.drops(row_data.schema@, row_data.tb@, row_data.row_type) ==> (r matches PgAction::Push(item) && item.dt_data
                == (DtData::Dml { row_data }) && item.position@ == self.position@),
    {
        if self.filter.filter_event(&row_data.schema, &row_data.tb, row_data.row_type) {
            return PgAction::Nothing;
        }
        PgAction::Push(DtItem { dt_data: DtData::Dml { row_data }, position: crate::pipeline::copy_position(&self.position) })
    }

    /// An insert: the after image is the decoded tuple.
    pub fn decode_insert(&self, rel_id: u32, tuple: Vec<TupleSlot>) -> (r: Result<PgAction, Error>)
        ensures
            insert_outcome(*self, rel_id, tuple@, r),
    {
        let tb_meta = self.relation_meta(rel_id)?;
        let after = parse_row_data(tb_meta, tuple)?;
        let row_data = RowData {
            schema: tb_meta.basic.schema.clone(),
            tb: tb_meta.basic.tb.clone(),
            row_type: RowType::Insert,
            before: None,
            after: Some(after),
        };
        Ok(self.wrap_row(row_data))
    }

    /// An update: the before image is the old tuple if sent, else the key
    /// tuple, else the after image projected onto the identifying columns.
    pub fn decode_update(
        &self,
        rel_id: u32,
        old_tuple: Option<Vec<TupleSlot>>,
        key_tuple: Option<Vec<TupleSlot>>,
        new_tuple: Vec<TupleSlot>,
    ) -> (r: Result<PgAction, Error>)
        ensures
            update_outcome(*self, rel_id, old_tuple, key_tuple, new_tuple@, r),
    {
        let tb_meta = self.relation_meta(rel_id)?;
        let after = parse_row_data(tb_meta, new_tuple)?;
        let before = match old_tuple {
            Some(t) => parse_row_data(tb_meta, t)?,
            None => match key_tuple {
                Some(t) => parse_row_data(tb_meta, t)?,
                None => project_image(&after, &tb_meta.basic.id_cols),
            },
        };
        let row_data = RowData {
            schema: tb_meta.basic.schema.clone(),
            tb: tb_meta.basic.tb.clone(),
            row_type: RowType::Update,
            before: Some(before),
            after: Some(after),
        };
        Ok(self.wrap_row(row_data))
    }

    /// A delete: the before image is the old tuple if sent, else the key tuple,
    /// else empty.
    pub fn decode_delete(&self, rel_id: u32, old_tuple: Option<Vec<TupleSlot>>, key_tuple: Option<Vec<TupleSlot>>) -> (r: Result<
        PgAction,
        Error,
    >)
        ensures
            delete_outcome(*self, rel_id, old_tuple, key_tuple, r),
    {
        let tb_meta = self.relation_meta(rel_id)?;
        let before = match old_tuple {
            Some(t) => parse_row_data(tb_meta, t)?,
            None => match key_tuple {
                Some(t) => parse_row_data(tb_meta, t)?,
                None => {
                    let e: ColValues = Vec::new();
                    assert(image_view(e@) =~= Seq::empty());
                    e
                },
            },
        };
        let row_data = RowData {
            schema: tb_meta.basic.schema.clone(),
            tb: tb_meta.basic.tb.clone(),
            row_type: RowType::Delete,
            before: Some(before),
            after: None,
        };
        Ok(self.wrap_row(row_data))
    }

    /// A begin frame: records the transaction id and the position of its
    /// changes (the end LSN of the last transaction, at the begin time).
    pub fn on_begin(&mut self, xid: u32, timestamp_micros: i64)
        ensures
            final(self).xid == xid,
            final(self).position@ == pg_position(old(self).last_tx_end_lsn, timestamp_micros),
            final(self).last_tx_end_lsn == old(self).last_tx_end_lsn,
            final(self).relations == old(self).relations,
            final(self).type_registry == old(self).type_registry,
            final(self).filter == old(self).filter,
    {
        self.xid = xid;
        self.position = Position::PgCdc { lsn: self.last_tx_end_lsn, timestamp_millis: pg_to_unix_millis(timestamp_micros) };
    }

    /// A commit frame: moves the last transaction end to the commit's end LSN
    /// and yields a commit item at that position.
    pub fn on_commit(&mut self, end_lsn: u64, timestamp_micros: i64) -> (r: DtItem)
        ensures
            final(self).last_tx_end_lsn == end_lsn,
            final(self).position@ == pg_position(end_lsn, timestamp_micros),
            r.position@ == pg_position(end_lsn, timestamp_micros),
            r.dt_data matches DtData::Commit { xid } && xid@ == decimal_of(old(self).xid as nat),
            final(self).xid == old(self).xid,
            final(self).relations == old(self).relations,
            final(self).type_registry == old(self).type_registry,
            final(self).filter == old(self).filter,
    {
        self.last_tx_end_lsn = end_lsn;
        self.position = Position::PgCdc { lsn: end_lsn, timestamp_millis: pg_to_unix_millis(timestamp_micros) };
        let xid = xid_text(self.xid);
        DtItem { dt_data: DtData::Commit { xid }, position: crate::pipeline::copy_position(&self.position) }
    }

    /// Handles one frame of the replication stream.
    pub fn on_frame(&mut self, meta_cache: &TbMetaCache, frame: PgFrame) -> (r: Result<PgAction, Error>)
        requires
            meta_cache.wf(),
        ensures
            frame is Ignored ==> r matches Ok(PgAction::Nothing),
            frame matches PgFrame::KeepAlive { reply_requested } ==> (reply_requested ==> r matches Ok(PgAction::Heartbeat)) && (!reply_requested ==> r matches Ok(PgAction::Nothing)),
            frame is Begin ==> r matches Ok(PgAction::Nothing),
            frame matches PgFrame::Commit { end_lsn, timestamp_micros } ==> (r matches Ok(PgAction::Push(item)) && (item.dt_data matches DtData::Commit { xid } && xid@ == decimal_of(old(self).xid as nat))
                && item.position@ == pg_position(end_lsn, timestamp_micros) && final(self).last_tx_end_lsn == end_lsn),
            frame matches PgFrame::Relation { rel_id, namespace, name, columns } ==> relation_outcome(*old(self), *final(self), *meta_cache, rel_id, namespace@, name@, columns@, r is Ok) && (r is Ok ==> r.unwrap() is Nothing),
            frame matches PgFrame::Insert { rel_id, tuple } ==> insert_outcome(*old(self), rel_id, tuple@, r),
            frame matches PgFrame::Update { rel_id, old_tuple, key_tuple, new_tuple } ==> update_outcome(*old(self), rel_id, old_tuple, key_tuple, new_tuple@, r),
            frame matches PgFrame::Delete { rel_id, old_tuple, key_tuple } ==> delete_outcome(*old(self), rel_id, old_tuple, key_tuple, r),
            !(frame is Commit) ==> final(self).last_tx_end_lsn == old(self).last_tx_end_lsn,
            frame matches PgFrame::Begin { xid, timestamp_micros } ==> final(self).position@ == pg_position(old(self).last_tx_end_lsn, timestamp_micros) && final(self).xid == xid,
            (frame is Insert || frame is Update || frame is Delete) ==> *final(self) == *old(self),
    {
        match frame {
            PgFrame::Begin { xid, timestamp_micros } => {
                self.on_begin(xid, timestamp_micros);
                Ok(PgAction::Nothing)
            },
            PgFrame::Commit { end_lsn, timestamp_micros } => {
                let item = self.on_commit(end_lsn, timestamp_micros);
                Ok(PgAction::Push(item))
            },
            PgFrame::Relation { rel_id, namespace, name, columns } => {
                self.decode_relation(meta_cache, rel_id, &namespace, &name, &columns)?;
                Ok(PgAction::Nothing)
            },
            PgFrame::Insert { rel_id, tuple } => self.decode_insert(rel_id, tuple),
            PgFrame::Update { rel_id, old_tuple, key_tuple, new_tuple } => self.decode_update(rel_id, old_tuple, key_tuple, new_tuple),
            PgFrame::Delete { rel_id, old_tuple, key_tuple } => self.decode_delete(rel_id, old_tuple, key_tuple),
            PgFrame::Ignored => Ok(PgAction::Nothing),
            PgFrame::KeepAlive { reply_requested } => if reply_requested {
                Ok(PgAction::Heartbeat)
            } else {
                Ok(PgAction::Nothing)
            },
        }
    }
}

/// The decimal digits of `x`, most significant first.
pub open spec fn decimal_of(x: nat) -> Seq<char>
    decreases x,
{
    if x < 10 {
        seq![((x + 48) as u8) as char]
    } else {
        decimal_of(x / 10).push((((x % 10) + 48) as u8) as char)
    }
}

fn digit_str(c: char) -> (r: &'static str)
    requires
        '0' <= c <= '9',
    ensures
        r@ == seq![c],
{
    proof {
        reveal_strlit("0");
        reveal_strlit("1");
        reveal_strlit("2");
        reveal_strlit("3");
        reveal_strlit("4");
        reveal_strlit("5");
        reveal_strlit("6");
        reveal_strlit("7");
        reveal_strlit("8");
        reveal_strlit("9");
    }
    let r = if c == '0' {
        "0"
    } else if c == '1' {
        "1"
    } else if c == '2' {
        "2"
    } else if c == '3' {
        "3"
    } else if c == '4' {
        "4"
    } else if c == '5' {
        "5"
    } else if c == '6' {
        "6"
    } else if c == '7' {
        "7"
    } else if c == '8' {
        "8"
    } else {
        "9"
    };
    assert(r@ =~= seq![c]);
    r
}

/// The transaction id in decimal.
fn xid_text(x: u32) -> (r: String)
    ensures
        r@ == decimal_of(x as nat),
{
    let mut digits: Vec<char> = Vec::new();
    let mut v: u32 = x;
    while v >= 10
        invariant
            decimal_of(x as nat) == decimal_of(v as nat) + digits@.reverse(),
            forall|j: int| 0 <= j < digits@.len() ==> '0' <= #[trigger] digits@[j] <= '9',
        decreases v,
    {
        let c = (((v % 10) as u8) + 48u8) as char;
        assert(decimal_of(v as nat) == decimal_of((v / 10) as nat).push(c));
        let ghost prev = digits@;
        digits.push(c);
        assert(digits@.reverse() =~= seq![c] + prev.reverse());
        assert(decimal_of((v / 10) as nat).push(c) + prev.reverse() =~= decimal_of((v / 10) as nat) + digits@.reverse());
        v = v / 10;
    }
    let c = ((v as u8) + 48u8) as char;
    assert(decimal_of(v as nat) == seq![c]);
    let ghost prev = digits@;
    digits.push(c);
    assert(digits@.reverse() =~= seq![c] + prev.reverse());
    let mut s = String::new();
    let mut i: usize = digits.len();
    let ghost full = digits@.reverse();
    assert(decimal_of(x as nat) == full);
    while i > 0
        invariant
            0 <= i <= digits@.len(),
            full == digits@.reverse(),
            s@ == full.take((digits@.len() - i) as int),
            forall|j: int| 0 <= j < digits@.len() ==> '0' <= #[trigger] digits@[j] <= '9',
        decreases i,
    {
        i = i - 1;
        s.append(digit_str(digits[i]));
        assert(full.take((digits@.len() - i) as int) =~= full.take((digits@.len() - i - 1) as int).push(digits@[i as int]));
    }
    assert(full.take(digits@.len() as int) =~= full);
    s
}

} // verus!
