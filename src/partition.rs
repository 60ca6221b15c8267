use crate::dt_data::{DtData, DtItem};
use crate::error::Error;
use crate::merger::{row_key, rows_view, table_cols, RdbMerger};
use crate::meta::{cache_key, TbMetaCache};
use crate::row::{key_hash, RowData, RowDataView};
use vstd::prelude::*;

verus! {

/// The key hash of a row under the registry's identifying columns of its table.
pub open spec fn row_hash(cache: TbMetaCache, r: RowDataView) -> u128 {
    key_hash(row_key(r, table_cols(cache, r.schema, r.tb)))
}

/// The shard a row goes to among `n`: its key hash modulo `n`. A row that
/// cannot be identified hashes to 0 and goes to the first shard.
pub open spec fn shard_of(cache: TbMetaCache, r: RowDataView, n: nat) -> int {
    if n <= 1 {
        0
    } else {
        (row_hash(cache, r) % (n as u128)) as int
    }
}

/// The rows of `rows` that go to shard `k`, in order.
pub open spec fn shard_rows(cache: TbMetaCache, rows: Seq<RowDataView>, n: nat, k: int) -> Seq<RowDataView>
    decreases rows.len(),
{
    if rows.len() == 0 {
        Seq::empty()
    } else if shard_of(cache, rows.last(), n) == k {
        shard_rows(cache, rows.drop_last(), n, k).push(rows.last())
    } else {
        shard_rows(cache, rows.drop_last(), n, k)
    }
}

/// Causal pinning: two rows of one table with the same identifying values go to
/// the same shard.
pub proof fn lemma_causal_pinning(cache: TbMetaCache, a: RowDataView, b: RowDataView, n: nat)
    requires
        a.schema == b.schema,
        a.tb == b.tb,
        row_key(a, table_cols(cache, a.schema, a.tb)) == row_key(b, table_cols(cache, b.schema, b.tb)),
    ensures
        shard_of(cache, a, n) == shard_of(cache, b, n),
{
}

/// Splits row batches into shards by key hash.
pub struct RdbPartitioner {
    pub meta_manager: TbMetaCache,
}

impl RdbPartitioner {
    /// The key hash of a row, or an error when its table has no metadata.
    pub fn get_hash_code(&self, row_data: &RowData) -> (r: Result<u128, Error>)
        requires
            self.meta_manager.wf(),
            row_data@.well_formed(),
        ensures
            r is Err <==> !self.meta_manager.cached(cache_key(row_data@.schema, row_data@.tb)),
            r is Ok ==> r.unwrap() == row_hash(self.meta_manager, row_data@),
    {
        match self.meta_manager.get(&row_data.schema, &row_data.tb) {
            None => Err(Error::MetadataError { schema: row_data.schema.clone(), tb: row_data.tb.clone() }),
            Some(meta) => Ok(RdbMerger::get_hash_code(&meta.id_cols, row_data)),
        }
    }

    /// Whether a row can be sent to a shard of its own: its table has a unique
    /// key and none of the key's values is null.
    pub fn can_be_partitioned(&self, row_data: &RowData) -> (r: Result<bool, Error>)
        requires
            self.meta_manager.wf(),
            row_data@.well_formed(),
        ensures
            r is Err <==> !self.meta_manager.cached(cache_key(row_data@.schema, row_data@.tb)),
            r is Ok ==> r.unwrap() == (row_hash(self.meta_manager, row_data@) != 0),
    {
        match self.get_hash_code(row_data) {
            Err(e) => Err(e),
            Ok(h) => Ok(h != 0),
        }
    }

    /// Splits `data` into `parallel_size` shards (one when it is at most 1), each
    /// row to the shard of its key hash, keeping the order within each shard.
    pub fn partition(&self, data: Vec<RowData>, parallel_size: usize) -> (r: Result<Vec<Vec<RowData>>, Error>)
        requires
            self.meta_manager.wf(),
            forall|i: int| 0 <= i < data@.len() ==> (#[trigger] data@[i])@.well_formed(),
        ensures
            parallel_size > 1 ==> (r is Err <==> exists|i: int|
                0 <= i < data@.len() && !self.meta_manager.cached(cache_key(#[trigger] data@[i]@.schema, data@[i]@.tb))),
            parallel_size <= 1 ==> r is Ok,
            r is Ok ==> {
                let shards = r.unwrap();
                &&& shards@.len() == if parallel_size > 1 { parallel_size as int } else { 1 }
                &&& forall|k: int|
                    0 <= k < shards@.len() ==> rows_view((#[trigger] shards@[k])@) == shard_rows(
                        self.meta_manager,
                        rows_view(data@),
                        parallel_size as nat,
                        k,
                    )
            },
    {
        let ghost sv = rows_view(data@);
        let ghost n = parallel_size as nat;
        if parallel_size <= 1 {
            let mut shards: Vec<Vec<RowData>> = Vec::new();
            proof {
                lemma_single_shard(self.meta_manager, sv, n);
            }
            shards.push(data);
            return Ok(shards);
        }
        let mut shards: Vec<Vec<RowData>> = Vec::new();
        let mut k: usize = 0;
        while k < parallel_size
            invariant
                0 <= k <= parallel_size,
                shards@.len() == k,
                forall|x: int| 0 <= x < k ==> (#[trigger] shards@[x])@.len() == 0,
            decreases parallel_size - k,
        {
            shards.push(Vec::new());
            k = k + 1;
        }
        let ghost orig = data@;
        let ghost data_in = data;
        let total: usize = data.len();
        let mut rev = crate::row::reversed(data);
        let mut i: usize = 0;
        assert(sv.take(0) =~= Seq::<RowDataView>::empty());
        while rev.len() > 0
            invariant
                self.meta_manager.wf(),
                parallel_size > 1,
                n == parallel_size as nat,
                sv == rows_view(orig),
                orig == data_in@,
                data_in == data,
                total == orig.len(),
                i + rev@.len() == total,
                forall|j: int| 0 <= j < rev@.len() ==> #[trigger] rev@[j] == orig[total - 1 - j],
                forall|j: int| 0 <= j < orig.len() ==> (#[trigger] orig[j])@.well_formed(),
                forall|j: int| 0 <= j < i ==> self.meta_manager.cached(cache_key(#[trigger] orig[j]@.schema, orig[j]@.tb)),
                shards@.len() == parallel_size,
                forall|x: int|
                    0 <= x < parallel_size ==> rows_view((#[trigger] shards@[x])@) == shard_rows(
                        self.meta_manager,
                        sv.take(i as int),
                        n,
                        x,
                    ),
            decreases rev.len(),
        {
            let row_data = rev.pop().unwrap();
            let ghost rv = row_data@;
            assert(row_data == orig[i as int]);
            assert(sv[i as int] == rv);
            assert(sv.take(i + 1).drop_last() =~= sv.take(i as int));
            assert(sv.take(i + 1).last() == rv);
            let h = match self.get_hash_code(&row_data) {
                Err(e) => {
                    assert(exists|j: int| 0 <= j < orig.len() && !self.meta_manager.cached(cache_key(#[trigger] orig[j]@.schema, orig[j]@.tb)));
                    return Err(e);
                },
                Ok(h) => h,
            };
            let idx = (h % (parallel_size as u128)) as usize;
            assert(idx as int == shard_of(self.meta_manager, rv, n));
            let ghost old_shards = shards@;
            let mut shard = shards.remove(idx);
            shard.push(row_data);
            shards.insert(idx, shard);
            assert forall|x: int| 0 <= x < parallel_size implies rows_view((#[trigger] shards@[x])@) == shard_rows(
                self.meta_manager,
                sv.take(i + 1),
                n,
                x,
            ) by {
                if x == idx {
                    assert(rows_view(shards@[x]@) =~= rows_view(old_shards[x]@).push(rv));
                } else {
                    assert(shards@[x] == old_shards[x]);
                }
            }
            i = i + 1;
        }
        assert(sv.take(total as int) =~= sv);
        Ok(shards)
    }
}

proof fn lemma_single_shard(cache: TbMetaCache, rows: Seq<RowDataView>, n: nat)
    requires
        n <= 1,
    ensures
        shard_rows(cache, rows, n, 0) == rows,
    decreases rows.len(),
{
    if rows.len() > 0 {
        lemma_single_shard(cache, rows.drop_last(), n);
        assert(rows.drop_last().push(rows.last()) =~= rows);
    }
}

/// What the partition parallelizer does with the next item of the buffer.
#[derive(Clone, Copy, Debug, PartialEq, Eq, Structural)]
pub enum DrainStep {
    /// Take the item and go on draining.
    Take,
    /// Take the item and end the batch: it cannot be partitioned, so nothing
    /// after it may be sunk in parallel with it.
    TakeAndStop,
    /// Leave the item out of the batch.
    Skip,
}

/// Drains the buffer into batches that can be split into shards safely.
pub struct PartitionParallelizer {
    pub partitioner: RdbPartitioner,
    pub parallel_size: usize,
}

impl PartitionParallelizer {
    pub fn get_name(&self) -> (r: String)
        ensures
            r@ == "PartitionParallelizer"@,
    {
        "PartitionParallelizer".to_owned()
    }

    /// Rows and commits are taken; with more than one shard, a row that cannot
    /// be partitioned ends the batch; other items are left out.
    pub fn drain_step(&self, item: &DtItem) -> (r: Result<DrainStep, Error>)
        requires
            self.partitioner.meta_manager.wf(),
            item.dt_data matches DtData::Dml { row_data } ==> row_data@.well_formed(),
        ensures
            match item.dt_data {
                DtData::Dml { row_data } => if self.parallel_size > 1 {
                    &&& (r is Err <==> !self.partitioner.meta_manager.cached(cache_key(row_data@.schema, row_data@.tb)))
                    &&& r is Ok ==> r.unwrap() == if row_hash(self.partitioner.meta_manager, row_data@) != 0 {
                        DrainStep::Take
                    } else {
                        DrainStep::TakeAndStop
                    }
                } else {
                    r == Ok::<DrainStep, Error>(DrainStep::Take)
                },
                DtData::Commit { .. } => r == Ok::<DrainStep, Error>(DrainStep::Take),
                _ => r == Ok::<DrainStep, Error>(DrainStep::Skip),
            },
    {
        match &item.dt_data {
            DtData::Dml { row_data } => {
                if self.parallel_size > 1 {
                    match self.partitioner.can_be_partitioned(row_data) {
                        Err(e) => Err(e),
                        Ok(true) => Ok(DrainStep::Take),
                        Ok(false) => Ok(DrainStep::TakeAndStop),
                    }
                } else {
                    Ok(DrainStep::Take)
                }
            },
            DtData::Commit { .. } => Ok(DrainStep::Take),
            _ => Ok(DrainStep::Skip),
        }
    }
}

} // verus!
