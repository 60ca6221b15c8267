use crate::row::{
    cols_view, hash_key, reversed, images_agree_on, key_hash, key_of, ColValueView, ImageView, RowData, RowDataView,
    RowType,
};
use crate::error::Error;
use crate::meta::{cache_key, TbMetaCache};
use vstd::prelude::*;

verus! {

/// Rows stored under their key hash.
pub type SlotsView = Seq<(u128, RowDataView)>;

pub open spec fn slots_view(s: Seq<(u128, RowData)>) -> SlotsView {
    s.map_values(|p: (u128, RowData)| (p.0, p.1@))
}

/// No hash occurs twice.
pub open spec fn slots_unique(s: SlotsView) -> bool {
    forall|i: int, j: int| 0 <= i < j < s.len() ==> s[i].0 != s[j].0
}

/// The position of hash `h` in `s`, searching from `i` on, or -1.
pub open spec fn slot_index_from(s: SlotsView, h: u128, i: int) -> int
    decreases s.len() - i,
{
    if i < 0 || i >= s.len() {
        -1
    } else if s[i].0 == h {
        i
    } else {
        slot_index_from(s, h, i + 1)
    }
}

pub open spec fn slot_index(s: SlotsView, h: u128) -> int {
    slot_index_from(s, h, 0)
}

/// The row stored under `h`, if any.
pub open spec fn slot_get(s: SlotsView, h: u128) -> Option<RowDataView> {
    let i = slot_index(s, h);
    if i >= 0 {
        Some(s[i].1)
    } else {
        None
    }
}

/// `s` with `r` stored under `h`, replacing what was there.
pub open spec fn slot_put(s: SlotsView, h: u128, r: RowDataView) -> SlotsView {
    let i = slot_index(s, h);
    if i >= 0 {
        s.update(i, (h, r))
    } else {
        s.push((h, r))
    }
}

/// `s` without what was stored under `h`.
pub open spec fn slot_remove(s: SlotsView, h: u128) -> SlotsView {
    let i = slot_index(s, h);
    if i >= 0 {
        s.remove(i)
    } else {
        s
    }
}

/// The key tuple that identifies a row.
pub open spec fn row_key(r: RowDataView, cols: Seq<Seq<char>>) -> Seq<Option<ColValueView>> {
    key_of(r.key_image(), cols)
}

/// Whether the row stored under `h` has a key other than `k`.
pub open spec fn collides(s: SlotsView, h: u128, k: Seq<Option<ColValueView>>, cols: Seq<Seq<char>>) -> bool {
    match slot_get(s, h) {
        Some(e) => row_key(e, cols) != k,
        None => false,
    }
}

/// The reduced form of one table's rows.
pub struct MergedView {
    pub deletes: SlotsView,
    pub inserts: SlotsView,
    pub unmerged: Seq<RowDataView>,
}

pub open spec fn delete_of(r: RowDataView) -> RowDataView {
    RowDataView { row_type: RowType::Delete, after: None, ..r }
}

pub open spec fn insert_of(r: RowDataView) -> RowDataView {
    RowDataView { row_type: RowType::Insert, before: None, ..r }
}

pub open spec fn push_unmerged(st: MergedView, r: RowDataView) -> MergedView {
    MergedView { unmerged: st.unmerged.push(r), ..st }
}

/// One step of the reduction: how the reduced form changes when `r` arrives.
/// Once a row of the table is unmerged, or when `r` cannot be identified, `r`
/// joins the unmerged tail. A delete replaces the delete stored under its key
/// and cancels the insert there. An update that keeps its key is stored as the
/// delete of its before image and the insert of its after image; when its key
/// was inserted in this batch it only replaces that insert. An insert replaces
/// the insert under its key. An update that changes its key, or any row whose
/// hash is taken by a different key, goes to the unmerged tail.
pub open spec fn merge_step(st: MergedView, r: RowDataView, cols: Seq<Seq<char>>) -> MergedView {
    let k = row_key(r, cols);
    let h = key_hash(k);
    if st.unmerged.len() > 0 || h == 0 {
        push_unmerged(st, r)
    } else {
        match r.row_type {
            RowType::Delete => {
                if collides(st.inserts, h, k, cols) || collides(st.deletes, h, k, cols) {
                    push_unmerged(st, r)
                } else {
                    MergedView {
                        deletes: slot_put(st.deletes, h, r),
                        inserts: slot_remove(st.inserts, h),
                        unmerged: st.unmerged,
                    }
                }
            },
            RowType::Update => {
                let ka = key_of(r.after.unwrap_or(Seq::empty()), cols);
                let ih = key_hash(ka);
                if ka != k {
                    push_unmerged(st, r)
                } else if collides(st.inserts, ih, ka, cols) || collides(st.deletes, h, k, cols) {
                    push_unmerged(st, r)
                } else if slot_get(st.inserts, ih) is Some {
                    // the row was inserted in this batch: the update folds into that insert
                    MergedView { deletes: st.deletes, inserts: slot_put(st.inserts, ih, insert_of(r)), unmerged: st.unmerged }
                } else {
                    MergedView {
                        deletes: slot_put(st.deletes, h, delete_of(r)),
                        inserts: slot_put(st.inserts, ih, insert_of(r)),
                        unmerged: st.unmerged,
                    }
                }
            },
            RowType::Insert => {
                if collides(st.inserts, h, k, cols) {
                    push_unmerged(st, r)
                } else {
                    MergedView {
                        deletes: st.deletes,
                        inserts: slot_put(st.inserts, h, r),
                        unmerged: st.unmerged,
                    }
                }
            },
        }
    }
}

pub open spec fn empty_merged() -> MergedView {
    MergedView { deletes: Seq::empty(), inserts: Seq::empty(), unmerged: Seq::empty() }
}

/// The reduced form of a whole stream of one table's rows, taken in arrival order.
pub open spec fn merge_all(rows: Seq<RowDataView>, cols: Seq<Seq<char>>) -> MergedView
    decreases rows.len(),
{
    if rows.len() == 0 {
        empty_merged()
    } else {
        merge_step(merge_all(rows.drop_last(), cols), rows.last(), cols)
    }
}

/// The per-table result of merging: rows to delete, rows to insert, and the
/// tail that must be applied one by one in arrival order.
pub struct RdbTbMergedData {
    pub delete_rows: Vec<(u128, RowData)>,
    pub insert_rows: Vec<(u128, RowData)>,
    pub unmerged_rows: Vec<RowData>,
}

impl View for RdbTbMergedData {
    type V = MergedView;

    open spec fn view(&self) -> MergedView {
        MergedView {
            deletes: slots_view(self.delete_rows@),
            inserts: slots_view(self.insert_rows@),
            unmerged: self.unmerged_rows@.map_values(|r: RowData| r@),
        }
    }
}

/// The invariant of a reduced form: hashes are unique, and each stored row is a
/// delete (resp. insert) of the right shape whose key hashes to its slot.
pub open spec fn merged_wf(st: MergedView, cols: Seq<Seq<char>>) -> bool {
    &&& slots_unique(st.deletes)
    &&& slots_unique(st.inserts)
    &&& forall|i: int|
        0 <= i < st.deletes.len() ==> {
            let e = #[trigger] st.deletes[i];
            &&& e.1.row_type == RowType::Delete
            &&& e.1.well_formed()
            &&& e.0 != 0
            &&& e.0 == key_hash(row_key(e.1, cols))
        }
    &&& forall|i: int|
        0 <= i < st.inserts.len() ==> {
            let e = #[trigger] st.inserts[i];
            &&& e.1.row_type == RowType::Insert
            &&& e.1.well_formed()
            &&& e.0 != 0
            &&& e.0 == key_hash(row_key(e.1, cols))
        }
}

proof fn lemma_slot_index_from_found(s: SlotsView, h: u128, i: int, j: int)
    requires
        slots_unique(s),
        0 <= i <= j < s.len(),
        s[j].0 == h,
    ensures
        slot_index_from(s, h, i) == j,
    decreases j - i,
{
    if i < j {
        assert(s[i].0 != h);
        lemma_slot_index_from_found(s, h, i + 1, j);
    }
}

proof fn lemma_slot_index_from_absent(s: SlotsView, h: u128, i: int)
    requires
        0 <= i,
        forall|j: int| i <= j < s.len() ==> s[j].0 != h,
    ensures
        slot_index_from(s, h, i) == -1,
    decreases s.len() - i,
{
    if i < s.len() {
        lemma_slot_index_from_absent(s, h, i + 1);
    }
}

/// Under unique hashes, the slot of `h` is the one position that holds it.
proof fn lemma_slot_index(s: SlotsView, h: u128)
    requires
        slots_unique(s),
    ensures
        slot_index(s, h) == -1 <==> (forall|j: int| 0 <= j < s.len() ==> s[j].0 != h),
        slot_index(s, h) != -1 ==> 0 <= slot_index(s, h) < s.len() && s[slot_index(s, h)].0 == h,
        forall|j: int| 0 <= j < s.len() && s[j].0 == h ==> slot_index(s, h) == j,
{
    if exists|j: int| 0 <= j < s.len() && s[j].0 == h {
        let j = choose|j: int| 0 <= j < s.len() && s[j].0 == h;
        lemma_slot_index_from_found(s, h, 0, j);
        assert forall|j2: int| 0 <= j2 < s.len() && s[j2].0 == h implies slot_index(s, h) == j2 by {
            lemma_slot_index_from_found(s, h, 0, j2);
        }
    } else {
        lemma_slot_index_from_absent(s, h, 0);
    }
}

/// What a put or a removal does to each slot.
proof fn lemma_slot_ops(s: SlotsView, h: u128, r: RowDataView)
    requires
        slots_unique(s),
    ensures
        slots_unique(slot_put(s, h, r)),
        slots_unique(slot_remove(s, h)),
        forall|h2: u128|
            #[trigger] slot_get(slot_put(s, h, r), h2) == (if h2 == h {
                Some(r)
            } else {
                slot_get(s, h2)
            }),
        forall|h2: u128|
            #[trigger] slot_get(slot_remove(s, h), h2) == (if h2 == h {
                None
            } else {
                slot_get(s, h2)
            }),
        forall|j: int|
            0 <= j < slot_put(s, h, r).len() ==> #[trigger] slot_put(s, h, r)[j] == (h, r) || s.contains(slot_put(s, h, r)[j]),
        forall|j: int|
            0 <= j < slot_remove(s, h).len() ==> s.contains(#[trigger] slot_remove(s, h)[j]),
        slot_put(s, h, r).len() <= s.len() + 1,
        slot_remove(s, h).len() <= s.len(),
{
    lemma_slot_index(s, h);
    let p = slot_put(s, h, r);
    let m = slot_remove(s, h);
    let i = slot_index(s, h);
    assert(slots_unique(p));
    assert(slots_unique(m));
    lemma_slot_index(p, h);
    lemma_slot_index(m, h);
    assert forall|h2: u128| #[trigger] slot_get(p, h2) == (if h2 == h {
        Some(r)
    } else {
        slot_get(s, h2)
    }) by {
        lemma_slot_index(s, h2);
        lemma_slot_index(p, h2);
        if h2 == h {
            if i >= 0 {
                assert(p[i].0 == h);
            } else {
                assert(p[s.len() as int].0 == h);
            }
        } else {
            if slot_index(s, h2) >= 0 {
                assert(p[slot_index(s, h2)].0 == h2);
            }
            if slot_index(p, h2) >= 0 {
                assert(s[slot_index(p, h2)].0 == h2);
            }
        }
    }
    assert forall|h2: u128| #[trigger] slot_get(m, h2) == (if h2 == h {
        None
    } else {
        slot_get(s, h2)
    }) by {
        lemma_slot_index(s, h2);
        lemma_slot_index(m, h2);
        if h2 != h {
            let j = slot_index(s, h2);
            if j >= 0 && i >= 0 {
                if j < i {
                    assert(m[j].0 == h2);
                } else {
                    assert(j > i);
                    assert(m[j - 1] == s[j]);
                    assert(m[j - 1].0 == h2);
                }
            }
            let jm = slot_index(m, h2);
            if jm >= 0 {
                if i >= 0 && jm >= i {
                    assert(s[jm + 1].0 == h2);
                } else {
                    assert(s[jm].0 == h2);
                }
            }
        }
    }
    assert forall|j: int| 0 <= j < p.len() implies #[trigger] p[j] == (h, r) || s.contains(p[j]) by {
        if j < s.len() && j != i {
            assert(p[j] == s[j]);
        }
    }
    assert forall|j: int| 0 <= j < m.len() implies s.contains(#[trigger] m[j]) by {
        if i < 0 {
            assert(m[j] == s[j]);
        } else if j < i {
            assert(m[j] == s[j]);
        } else {
            assert(m[j] == s[j + 1]);
        }
    }
}

/// Facts about a well-formed reduced form that follow from a slot's contents.
proof fn lemma_slot_get_wf(s: SlotsView, h: u128)
    requires
        slots_unique(s),
    ensures
        slot_get(s, h) is Some ==> s.contains((h, slot_get(s, h).unwrap())),
        forall|j: int| 0 <= j < s.len() && s[j].0 == h ==> slot_get(s, h) == Some(s[j].1),
{
    lemma_slot_index(s, h);
    if slot_get(s, h) is Some {
        assert(s[slot_index(s, h)] == (h, slot_get(s, h).unwrap()));
    }
}

proof fn lemma_merge_step_wf(st: MergedView, r: RowDataView, cols: Seq<Seq<char>>)
    requires
        merged_wf(st, cols),
        r.well_formed(),
    ensures
        merged_wf(merge_step(st, r, cols), cols),
{
    let k = row_key(r, cols);
    let h = key_hash(k);
    lemma_slot_ops(st.deletes, h, r);
    lemma_slot_ops(st.inserts, h, r);
    lemma_slot_ops(st.deletes, h, delete_of(r));
    lemma_slot_ops(st.inserts, h, insert_of(r));
    let ka = key_of(r.after.unwrap_or(Seq::empty()), cols);
    if r.row_type == RowType::Update {
        assert(row_key(delete_of(r), cols) == k);
        assert(row_key(insert_of(r), cols) == ka);
    }
    let n = merge_step(st, r, cols);
    assert forall|i: int| 0 <= i < n.deletes.len() implies {
        let e = #[trigger] n.deletes[i];
        &&& e.1.row_type == RowType::Delete
        &&& e.1.well_formed()
        &&& e.0 != 0
        &&& e.0 == key_hash(row_key(e.1, cols))
    } by {
        if n.deletes != st.deletes && n.deletes[i] != (h, r) && n.deletes[i] != (h, delete_of(r)) {
            let j = choose|j: int| 0 <= j < st.deletes.len() && st.deletes[j] == n.deletes[i];
            assert(st.deletes[j] == n.deletes[i]);
        }
    }
    assert forall|i: int| 0 <= i < n.inserts.len() implies {
        let e = #[trigger] n.inserts[i];
        &&& e.1.row_type == RowType::Insert
        &&& e.1.well_formed()
        &&& e.0 != 0
        &&& e.0 == key_hash(row_key(e.1, cols))
    } by {
        if n.inserts != st.inserts && n.inserts[i] != (h, r) && n.inserts[i] != (h, insert_of(r)) {
            let j = choose|j: int| 0 <= j < st.inserts.len() && st.inserts[j] == n.inserts[i];
            assert(st.inserts[j] == n.inserts[i]);
        }
    }
}

/// A table's contents as the sink sees them: each key tuple with its row image.
pub type TableState = Map<Seq<Option<ColValueView>>, ImageView>;

pub open spec fn before_image(r: RowDataView) -> ImageView {
    r.before.unwrap_or(Seq::empty())
}

pub open spec fn after_image(r: RowDataView) -> ImageView {
    r.after.unwrap_or(Seq::empty())
}

/// What applying one row event does to a table: an insert writes the row under
/// its key, a delete removes the key, an update removes the old key and writes
/// the new image under the new key.
pub open spec fn apply_row(db: TableState, r: RowDataView, cols: Seq<Seq<char>>) -> TableState {
    match r.row_type {
        RowType::Insert => db.insert(key_of(after_image(r), cols), after_image(r)),
        RowType::Delete => db.remove(key_of(before_image(r), cols)),
        RowType::Update => db.remove(key_of(before_image(r), cols)).insert(
            key_of(after_image(r), cols),
            after_image(r),
        ),
    }
}

/// Applying a sequence of row events one after the other.
pub open spec fn apply_rows(db: TableState, rows: Seq<RowDataView>, cols: Seq<Seq<char>>) -> TableState
    decreases rows.len(),
{
    if rows.len() == 0 {
        db
    } else {
        apply_row(apply_rows(db, rows.drop_last(), cols), rows.last(), cols)
    }
}

/// Whether the delete set holds a delete of key `k`.
pub open spec fn deletes_key(st: MergedView, k: Seq<Option<ColValueView>>, cols: Seq<Seq<char>>) -> bool {
    match slot_get(st.deletes, key_hash(k)) {
        Some(e) => row_key(e, cols) == k,
        None => false,
    }
}

/// The image that the insert set writes under key `k`, if any.
pub open spec fn inserted_image(st: MergedView, k: Seq<Option<ColValueView>>, cols: Seq<Seq<char>>) -> Option<ImageView> {
    match slot_get(st.inserts, key_hash(k)) {
        Some(e) => if row_key(e, cols) == k {
            Some(after_image(e))
        } else {
            None
        },
        None => None,
    }
}

/// Applying the delete set and then the insert set. Both are sets: a key occurs
/// at most once in each, so the order within either does not matter.
pub open spec fn apply_merged(db: TableState, st: MergedView, cols: Seq<Seq<char>>) -> TableState {
    Map::new(
        |k: Seq<Option<ColValueView>>|
            inserted_image(st, k, cols) is Some || (db.contains_key(k) && !deletes_key(st, k, cols)),
        |k: Seq<Option<ColValueView>>|
            match inserted_image(st, k, cols) {
                Some(img) => img,
                None => db[k],
            },
    )
}

proof fn lemma_step_merged_state(db: TableState, st: MergedView, r: RowDataView, cols: Seq<Seq<char>>)
    requires
        merged_wf(st, cols),
        r.well_formed(),
        st.unmerged.len() == 0,
        merge_step(st, r, cols).unmerged.len() == 0,
    ensures
        apply_merged(db, merge_step(st, r, cols), cols) == apply_row(apply_merged(db, st, cols), r, cols),
{
    let k = row_key(r, cols);
    let h = key_hash(k);
    let n = merge_step(st, r, cols);
    lemma_slot_ops(st.deletes, h, r);
    lemma_slot_ops(st.inserts, h, r);
    lemma_slot_ops(st.deletes, h, delete_of(r));
    lemma_slot_ops(st.inserts, h, insert_of(r));
    let lhs = apply_merged(db, n, cols);
    let rhs = apply_row(apply_merged(db, st, cols), r, cols);
    assert forall|k2: Seq<Option<ColValueView>>| #[trigger] lhs.contains_key(k2) == rhs.contains_key(k2) && (lhs.contains_key(k2) ==> lhs[k2] == rhs[k2]) by {
        let h2 = key_hash(k2);
        assert(slot_get(n.deletes, h2) == slot_get(n.deletes, h2));
        assert(slot_get(n.inserts, h2) == slot_get(n.inserts, h2));
        lemma_slot_index(st.deletes, h2);
        lemma_slot_index(st.inserts, h2);
        if h2 == h && k2 != k {
            if slot_get(st.deletes, h) is Some {
                lemma_slot_get_wf(st.deletes, h);
            }
            if slot_get(st.inserts, h) is Some {
                lemma_slot_get_wf(st.inserts, h);
            }
        }
    }
    assert(lhs =~= rhs);
}

proof fn lemma_merge_all_wf(rows: Seq<RowDataView>, cols: Seq<Seq<char>>)
    requires
        forall|i: int| 0 <= i < rows.len() ==> (#[trigger] rows[i]).well_formed(),
    ensures
        merged_wf(merge_all(rows, cols), cols),
    decreases rows.len(),
{
    if rows.len() > 0 {
        lemma_merge_all_wf(rows.drop_last(), cols);
        lemma_merge_step_wf(merge_all(rows.drop_last(), cols), rows.last(), cols);
    }
}

/// Merger safety: for any stream of one table's row events, applying the delete
/// set, then the insert set (each in any order), then the unmerged rows in their
/// recorded order, leaves any table in the same state as applying the stream
/// directly.
pub proof fn lemma_merge_safety(rows: Seq<RowDataView>, cols: Seq<Seq<char>>, db: TableState)
    requires
        forall|i: int| 0 <= i < rows.len() ==> (#[trigger] rows[i]).well_formed(),
    ensures
        apply_rows(db, rows, cols) == apply_rows(
            apply_merged(db, merge_all(rows, cols), cols),
            merge_all(rows, cols).unmerged,
            cols,
        ),
    decreases rows.len(),
{
    if rows.len() > 0 {
        let prev = rows.drop_last();
        let r = rows.last();
        lemma_merge_safety(prev, cols, db);
        lemma_merge_all_wf(prev, cols);
        let st = merge_all(prev, cols);
        let n = merge_step(st, r, cols);
        let m0 = apply_merged(db, st, cols);
        assert(apply_rows(db, rows, cols) == apply_row(apply_rows(db, prev, cols), r, cols));
        if n.deletes == st.deletes && n.inserts == st.inserts && n.unmerged == st.unmerged.push(r) {
            assert(n.unmerged.drop_last() =~= st.unmerged);
            assert(apply_merged(db, n, cols) == m0);
            assert(apply_rows(m0, n.unmerged, cols) == apply_row(apply_rows(m0, st.unmerged, cols), r, cols));
        } else {
            assert(n.unmerged == st.unmerged);
            assert(st.unmerged.len() == 0);
            lemma_step_merged_state(db, st, r, cols);
            assert(apply_rows(m0, st.unmerged, cols) == m0);
            assert(apply_rows(apply_merged(db, n, cols), n.unmerged, cols) == apply_merged(db, n, cols));
        }
    }
}

fn find_slot(v: &Vec<(u128, RowData)>, h: u128) -> (r: Option<usize>)
    ensures
        match r {
            Some(i) => i as int == slot_index(slots_view(v@), h) && i < v.len(),
            None => slot_index(slots_view(v@), h) == -1,
        },
{
    let ghost s = slots_view(v@);
    let mut i: usize = 0;
    while i < v.len()
        invariant
            0 <= i <= v.len(),
            s == slots_view(v@),
            slot_index_from(s, h, 0) == slot_index_from(s, h, i as int),
        decreases v.len() - i,
    {
        if v[i].0 == h {
            return Some(i);
        }
        i = i + 1;
    }
    None
}

fn put_slot(v: &mut Vec<(u128, RowData)>, h: u128, r: RowData)
    ensures
        slots_view(final(v)@) == slot_put(slots_view(old(v)@), h, r@),
{
    let ghost rv = r@;
    match find_slot(v, h) {
        Some(i) => {
            v.set(i, (h, r));
            assert(slots_view(v@) =~= slots_view(old(v)@).update(i as int, (h, rv)));
        },
        None => {
            v.push((h, r));
            assert(slots_view(v@) =~= slots_view(old(v)@).push((h, rv)));
        },
    }
}

fn remove_slot(v: &mut Vec<(u128, RowData)>, h: u128)
    ensures
        slots_view(final(v)@) == slot_remove(slots_view(old(v)@), h),
{
    match find_slot(v, h) {
        Some(i) => {
            v.remove(i);
            assert(slots_view(v@) =~= slots_view(old(v)@).remove(i as int));
        },
        None => {},
    }
}

fn drain_slots(v: &mut Vec<(u128, RowData)>) -> (r: Vec<RowData>)
    ensures
        r@.map_values(|x: RowData| x@) == slots_view(old(v)@).map_values(
            |e: (u128, RowDataView)| e.1,
        ),
        final(v)@.len() == 0,
{
    let ghost orig = slots_view(v@).map_values(|e: (u128, RowDataView)| e.1);
    let mut rev: Vec<RowData> = Vec::new();
    while v.len() > 0
        invariant
            orig.len() == v.len() + rev.len(),
            forall|j: int| 0 <= j < v.len() ==> orig[j] == (#[trigger] v@[j]).1@,
            forall|j: int| 0 <= j < rev.len() ==> orig[orig.len() - 1 - j] == (#[trigger] rev@[j])@,
        decreases v.len(),
    {
        let (_, row) = v.pop().unwrap();
        rev.push(row);
    }
    let mut out: Vec<RowData> = Vec::new();
    while rev.len() > 0
        invariant
            orig.len() == rev.len() + out.len(),
            forall|j: int| 0 <= j < rev.len() ==> orig[orig.len() - 1 - j] == (#[trigger] rev@[j])@,
            forall|j: int| 0 <= j < out.len() ==> orig[j] == (#[trigger] out@[j])@,
        decreases rev.len(),
    {
        let row = rev.pop().unwrap();
        out.push(row);
    }
    assert(out@.map_values(|x: RowData| x@) =~= orig);
    out
}

impl RdbTbMergedData {
    pub fn new() -> (r: Self)
        ensures
            r@ == empty_merged(),
    {
        let r = RdbTbMergedData {
            delete_rows: Vec::new(),
            insert_rows: Vec::new(),
            unmerged_rows: Vec::new(),
        };
        assert(r@.deletes =~= Seq::empty());
        assert(r@.inserts =~= Seq::empty());
        assert(r@.unmerged =~= Seq::empty());
        r
    }

    /// Takes the delete set out, in the order the rows were first stored.
    pub fn get_delete_rows(&mut self) -> (r: Vec<RowData>)
        ensures
            r@.map_values(|x: RowData| x@) == old(self)@.deletes.map_values(|e: (u128, RowDataView)| e.1),
            final(self).delete_rows@.len() == 0,
            final(self).insert_rows == old(self).insert_rows,
            final(self).unmerged_rows == old(self).unmerged_rows,
    {
        drain_slots(&mut self.delete_rows)
    }

    /// Takes the insert set out, in the order the rows were first stored.
    pub fn get_insert_rows(&mut self) -> (r: Vec<RowData>)
        ensures
            r@.map_values(|x: RowData| x@) == old(self)@.inserts.map_values(|e: (u128, RowDataView)| e.1),
            final(self).insert_rows@.len() == 0,
            final(self).delete_rows == old(self).delete_rows,
            final(self).unmerged_rows == old(self).unmerged_rows,
    {
        drain_slots(&mut self.insert_rows)
    }

    /// Takes the unmerged rows out, in arrival order.
    pub fn get_unmerged_rows(&mut self) -> (r: Vec<RowData>)
        ensures
            r@.map_values(|x: RowData| x@) == old(self)@.unmerged,
            final(self).unmerged_rows@.len() == 0,
            final(self).delete_rows == old(self).delete_rows,
            final(self).insert_rows == old(self).insert_rows,
    {
        let mut out: Vec<RowData> = Vec::new();
        std::mem::swap(&mut out, &mut self.unmerged_rows);
        out
    }

    /// Feeds one row of this table, whose identifying columns are `id_cols`, to
    /// the reduction.
    pub fn merge_row(&mut self, id_cols: &Vec<String>, row_data: RowData)
        requires
            merged_wf(old(self)@, cols_view(id_cols@)),
            row_data@.well_formed(),
        ensures
            final(self)@ == merge_step(old(self)@, row_data@, cols_view(id_cols@)),
            merged_wf(final(self)@, cols_view(id_cols@)),
    {
        let ghost cols = cols_view(id_cols@);
        let ghost rv = row_data@;
        proof {
            lemma_merge_step_wf(self@, rv, cols);
        }
        // once a row of this table could not be merged, all following rows are
        // applied one by one
        if self.unmerged_rows.len() > 0 {
            self.unmerged_rows.push(row_data);
            assert(self@.unmerged =~= old(self)@.unmerged.push(rv));
            return;
        }
        // no unique key, or a key column is null
        let hash_code = RdbMerger::get_hash_code(id_cols, &row_data);
        if hash_code == 0 {
            self.unmerged_rows.push(row_data);
            assert(self@.unmerged =~= old(self)@.unmerged.push(rv));
            return;
        }
        match row_data.row_type {
            RowType::Delete => {
                if RdbMerger::check_collision(&self.insert_rows, id_cols, &row_data, hash_code)
                    || RdbMerger::check_collision(&self.delete_rows, id_cols, &row_data, hash_code) {
                    self.unmerged_rows.push(row_data);
                    assert(self@.unmerged =~= old(self)@.unmerged.push(rv));
                    return;
                }
                remove_slot(&mut self.insert_rows, hash_code);
                put_slot(&mut self.delete_rows, hash_code, row_data);
            },
            RowType::Update => {
                if RdbMerger::check_uk_changed(id_cols, &row_data) {
                    self.unmerged_rows.push(row_data);
                    assert(self@.unmerged =~= old(self)@.unmerged.push(rv));
                    return;
                }
                let (delete, insert) = RdbMerger::split_update_row_data(row_data);
                let insert_hash_code = RdbMerger::get_hash_code(id_cols, &insert);
                if RdbMerger::check_collision(&self.insert_rows, id_cols, &insert, insert_hash_code)
                    || RdbMerger::check_collision(&self.delete_rows, id_cols, &delete, hash_code) {
                    let row_data = RowData {
                        row_type: RowType::Update,
                        schema: delete.schema,
                        tb: delete.tb,
                        before: delete.before,
                        after: insert.after,
                    };
                    self.unmerged_rows.push(row_data);
                    assert(self@.unmerged =~= old(self)@.unmerged.push(rv));
                    return;
                }
                if find_slot(&self.insert_rows, insert_hash_code).is_some() {
                    put_slot(&mut self.insert_rows, insert_hash_code, insert);
                } else {
                    put_slot(&mut self.delete_rows, hash_code, delete);
                    put_slot(&mut self.insert_rows, insert_hash_code, insert);
                }
            },
            RowType::Insert => {
                if RdbMerger::check_collision(&self.insert_rows, id_cols, &row_data, hash_code) {
                    self.unmerged_rows.push(row_data);
                    assert(self@.unmerged =~= old(self)@.unmerged.push(rv));
                    return;
                }
                put_slot(&mut self.insert_rows, hash_code, row_data);
            },
        }
    }
}

/// Reduces streams of row events, table by table.
pub struct RdbMerger {
    pub meta_manager: TbMetaCache,
}

impl RdbMerger {
    /// Whether an update changes any of the identifying columns.
    pub fn check_uk_changed(id_cols: &Vec<String>, row_data: &RowData) -> (r: bool)
        requires
            row_data@.well_formed(),
            row_data.row_type == RowType::Update,
        ensures
            r == (key_of(before_image(row_data@), cols_view(id_cols@)) != key_of(
                after_image(row_data@),
                cols_view(id_cols@),
            )),
    {
        let before = row_data.before.as_ref().unwrap();
        let after = row_data.after.as_ref().unwrap();
        !images_agree_on(id_cols, before, after)
    }

    /// Whether `buffer` holds, under `hash_code`, a row whose key differs from
    /// that of `row_data`.
    pub fn check_collision(
        buffer: &Vec<(u128, RowData)>,
        id_cols: &Vec<String>,
        row_data: &RowData,
        hash_code: u128,
    ) -> (r: bool)
        requires
            row_data@.well_formed(),
            forall|i: int| 0 <= i < buffer.len() ==> (#[trigger] slots_view(buffer@)[i]).1.well_formed(),
        ensures
            r == collides(slots_view(buffer@), hash_code, row_key(row_data@, cols_view(id_cols@)), cols_view(id_cols@)),
    {
        match find_slot(buffer, hash_code) {
            Some(i) => {
                assert(slots_view(buffer@)[i as int].1.well_formed());
                let exist = &buffer[i].1;
                !images_agree_on(id_cols, row_data.key_image(), exist.key_image())
            },
            None => false,
        }
    }

    /// Splits an update into the delete of its before image and the insert of
    /// its after image.
    pub fn split_update_row_data(row_data: RowData) -> (r: (RowData, RowData))
        ensures
            r.0@ == delete_of(row_data@),
            r.1@ == insert_of(row_data@),
    {
        let delete_row = RowData {
            row_type: RowType::Delete,
            schema: row_data.schema.clone(),
            tb: row_data.tb.clone(),
            before: row_data.before,
            after: None,
        };
        let insert_row = RowData {
            row_type: RowType::Insert,
            schema: row_data.schema,
            tb: row_data.tb,
            before: None,
            after: row_data.after,
        };
        (delete_row, insert_row)
    }

    /// The hash of a row's key (0 when the row cannot be identified).
    pub fn get_hash_code(id_cols: &Vec<String>, row_data: &RowData) -> (r: u128)
        requires
            row_data@.well_formed(),
        ensures
            r == key_hash(row_key(row_data@, cols_view(id_cols@))),
    {
        hash_key(id_cols, row_data.key_image())
    }
}

/// The rows of table `schema.tb` in a stream, in arrival order.
pub open spec fn table_rows(rows: Seq<RowDataView>, schema: Seq<char>, tb: Seq<char>) -> Seq<RowDataView>
    decreases rows.len(),
{
    if rows.len() == 0 {
        Seq::empty()
    } else if rows.last().schema == schema && rows.last().tb == tb {
        table_rows(rows.drop_last(), schema, tb).push(rows.last())
    } else {
        table_rows(rows.drop_last(), schema, tb)
    }
}

/// The identifying columns that the registry holds for `schema.tb`.
pub open spec fn table_cols(cache: TbMetaCache, schema: Seq<char>, tb: Seq<char>) -> Seq<Seq<char>> {
    cache.cached_meta(cache_key(schema, tb)).id_cols_view()
}

pub open spec fn rows_view(rows: Seq<RowData>) -> Seq<RowDataView> {
    rows.map_values(|r: RowData| r@)
}

/// Whether some row of `data` belongs to table `schema.tb`.
pub open spec fn names_table(data: Seq<RowData>, schema: Seq<char>, tb: Seq<char>) -> bool {
    exists|i: int| 0 <= i < data.len() && data[i].schema@ == schema && data[i].tb@ == tb
}

/// Whether some entry of `out` is for table `schema.tb`.
pub open spec fn has_table(out: Seq<TbMergedData>, schema: Seq<char>, tb: Seq<char>) -> bool {
    exists|j: int| 0 <= j < out.len() && out[j].schema@ == schema && out[j].tb@ == tb
}

/// The merged rows of one table.
pub struct TbMergedData {
    pub schema: String,
    pub tb: String,
    pub delete_rows: Vec<RowData>,
    pub insert_rows: Vec<RowData>,
    pub unmerged_rows: Vec<RowData>,
}

impl TbMergedData {
    /// This holds exactly the reduced form of `rows`' events for its table.
    pub open spec fn reduces(&self, rows: Seq<RowDataView>, cols: Seq<Seq<char>>) -> bool {
        let st = merge_all(table_rows(rows, self.schema@, self.tb@), cols);
        &&& rows_view(self.delete_rows@) == st.deletes.map_values(|e: (u128, RowDataView)| e.1)
        &&& rows_view(self.insert_rows@) == st.inserts.map_values(|e: (u128, RowDataView)| e.1)
        &&& rows_view(self.unmerged_rows@) == st.unmerged
    }
}

/// A group of rows of one table while merging.
struct TbGroup {
    schema: String,
    tb: String,
    id_cols: Vec<String>,
    merged: RdbTbMergedData,
}

spec fn same_table(g: TbGroup, schema: Seq<char>, tb: Seq<char>) -> bool {
    g.schema@ == schema && g.tb@ == tb
}

/// The invariant of the groups: one per table, each with the registry's
/// identifying columns and a well-formed reduced form.
spec fn groups_wf(groups: Seq<TbGroup>, cache: TbMetaCache) -> bool {
    &&& forall|a: int, b: int| 0 <= a < b < groups.len() ==> !same_table(groups[a], groups[b].schema@, groups[b].tb@)
    &&& forall|g: int|
        0 <= g < groups.len() ==> {
            let gr = #[trigger] groups[g];
            &&& cache.cached(cache_key(gr.schema@, gr.tb@))
            &&& cols_view(gr.id_cols@) == table_cols(cache, gr.schema@, gr.tb@)
            &&& merged_wf(gr.merged@, cols_view(gr.id_cols@))
        }
}

fn find_group(groups: &Vec<TbGroup>, schema: &String, tb: &String) -> (r: Option<usize>)
    ensures
        match r {
            Some(g) => g < groups@.len() && same_table(groups@[g as int], schema@, tb@),
            None => forall|x: int| 0 <= x < groups@.len() ==> !same_table(#[trigger] groups@[x], schema@, tb@),
        },
{
    let mut g: usize = 0;
    while g < groups.len()
        invariant
            0 <= g <= groups@.len(),
            forall|x: int| 0 <= x < g ==> !same_table(#[trigger] groups@[x], schema@, tb@),
        decreases groups.len() - g,
    {
        if groups[g].schema == *schema && groups[g].tb == *tb {
            return Some(g);
        }
        g = g + 1;
    }
    None
}

impl RdbMerger {
    /// Feeds one row to the group of its table, opening the group when the
    /// table has none yet.
    fn add_row(&self, groups: &mut Vec<TbGroup>, row_data: RowData) -> (r: Result<(), Error>)
        requires
            self.meta_manager.wf(),
            row_data@.well_formed(),
            groups_wf(old(groups)@, self.meta_manager),
        ensures
            r is Err <==> !self.meta_manager.cached(cache_key(row_data@.schema, row_data@.tb)),
            r is Ok ==> {
                let og = old(groups)@;
                let ng = final(groups)@;
                &&& groups_wf(ng, self.meta_manager)
                &&& og.len() <= ng.len() <= og.len() + 1
                &&& forall|x: int| 0 <= x < og.len() ==> {
                    &&& (#[trigger] ng[x]).schema@ == og[x].schema@
                    &&& ng[x].tb@ == og[x].tb@
                    &&& ng[x].id_cols@ == og[x].id_cols@
                    &&& ng[x].merged@ == if same_table(og[x], row_data@.schema, row_data@.tb) {
                        merge_step(og[x].merged@, row_data@, cols_view(og[x].id_cols@))
                    } else {
                        og[x].merged@
                    }
                }
                &&& ng.len() == og.len() + 1 ==> {
                    &&& same_table(ng[og.len() as int], row_data@.schema, row_data@.tb)
                    &&& ng[og.len() as int].merged@ == merge_step(empty_merged(), row_data@, cols_view(ng[og.len() as int].id_cols@))
                    &&& forall|x: int| 0 <= x < og.len() ==> !same_table(#[trigger] og[x], row_data@.schema, row_data@.tb)
                }
                &&& ng.len() == og.len() ==> exists|x: int| 0 <= x < og.len() && same_table(#[trigger] og[x], row_data@.schema, row_data@.tb)
            },
    {
        let ghost og = groups@;
        let ghost rv = row_data@;
        match find_group(groups, &row_data.schema, &row_data.tb) {
            Some(gi) => {
                let mut group = groups.remove(gi);
                proof {
                    lemma_merge_step_wf(group.merged@, rv, cols_view(group.id_cols@));
                }
                group.merged.merge_row(&group.id_cols, row_data);
                groups.insert(gi, group);
                assert forall|x: int| 0 <= x < og.len() && x != gi implies groups@[x] == og[x] by {}
                Ok(())
            },
            None => {
                let id_cols = match self.meta_manager.get(&row_data.schema, &row_data.tb) {
                    None => {
                        return Err(Error::MetadataError { schema: row_data.schema, tb: row_data.tb });
                    },
                    Some(meta) => crate::meta::clone_strings(&meta.id_cols),
                };
                let schema = row_data.schema.clone();
                let tb = row_data.tb.clone();
                let mut merged = RdbTbMergedData::new();
                proof {
                    assert(merged_wf(merged@, cols_view(id_cols@)));
                }
                merged.merge_row(&id_cols, row_data);
                groups.push(TbGroup { schema, tb, id_cols, merged });
                assert forall|x: int| 0 <= x < og.len() implies groups@[x] == og[x] by {}
                Ok(())
            },
        }
    }

    /// Groups the rows by table and reduces each table's rows in arrival order.
    /// Fails when the registry holds no metadata for the table of some row.
    pub fn merge(&self, data: Vec<RowData>) -> (r: Result<Vec<TbMergedData>, Error>)
        requires
            self.meta_manager.wf(),
            forall|i: int| 0 <= i < data@.len() ==> (#[trigger] data@[i])@.well_formed(),
        ensures
            r is Err <==> exists|i: int|
                0 <= i < data@.len() && !self.meta_manager.cached(cache_key(#[trigger] data@[i].schema@, data@[i].tb@)),
            r is Ok ==> {
                let out = r.unwrap();
                &&& forall|a: int, b: int|
                    0 <= a < b < out@.len() ==> !(out@[a].schema@ == out@[b].schema@ && out@[a].tb@ == out@[b].tb@)
                &&& forall|i: int| 0 <= i < data@.len() ==> has_table(out@, (#[trigger] data@[i]).schema@, data@[i].tb@)
                &&& forall|j: int| 0 <= j < out@.len() ==> names_table(data@, (#[trigger] out@[j]).schema@, out@[j].tb@)
                &&& forall|j: int|
                    0 <= j < out@.len() ==> (#[trigger] out@[j]).reduces(
                        rows_view(data@),
                        table_cols(self.meta_manager, out@[j].schema@, out@[j].tb@),
                    )
            },
    {
        let ghost sv = rows_view(data@);
        let ghost n = data@.len();
        let ghost orig = data@;
        let ghost data_in = data;
        let total: usize = data.len();
        let mut rev = reversed(data);
        let mut groups: Vec<TbGroup> = Vec::new();
        let mut i: usize = 0;
        while rev.len() > 0
            invariant
                self.meta_manager.wf(),
                sv == rows_view(orig),
                orig == data_in@,
                data_in == data,
                n == orig.len(),
                n == total,
                i + rev@.len() == n,
                forall|j: int| 0 <= j < rev@.len() ==> #[trigger] rev@[j] == orig[n - 1 - j],
                forall|j: int| 0 <= j < orig.len() ==> (#[trigger] orig[j])@.well_formed(),
                forall|j: int| 0 <= j < i ==> self.meta_manager.cached(cache_key(#[trigger] orig[j].schema@, orig[j].tb@)),
                groups_wf(groups@, self.meta_manager),
                forall|g: int| 0 <= g < groups@.len() ==> names_table(orig, (#[trigger] groups@[g]).schema@, groups@[g].tb@),
                forall|j: int|
                    0 <= j < i ==> exists|g: int| 0 <= g < groups@.len() && same_table(groups@[g], (#[trigger] orig[j]).schema@, orig[j].tb@),
                forall|g: int|
                    0 <= g < groups@.len() ==> (#[trigger] groups@[g]).merged@ == merge_all(
                        table_rows(sv.take(i as int), groups@[g].schema@, groups@[g].tb@),
                        cols_view(groups@[g].id_cols@),
                    ),
            decreases rev.len(),
        {
            let row_data = rev.pop().unwrap();
            let ghost rv = row_data@;
            let ghost og = groups@;
            assert(row_data == orig[i as int]);
            assert(sv[i as int] == rv);
            assert(sv.take(i + 1).drop_last() =~= sv.take(i as int));
            assert(sv.take(i + 1).last() == rv);
            match self.add_row(&mut groups, row_data) {
                Err(e) => {
                    assert(!self.meta_manager.cached(cache_key(orig[i as int].schema@, orig[i as int].tb@)));
                    assert(orig == data_in@);
                    assert(exists|k: int| 0 <= k < data_in@.len() && !self.meta_manager.cached(cache_key(#[trigger] data_in@[k].schema@, data_in@[k].tb@)));
                    return Err(e);
                },
                Ok(()) => {},
            }
            assert forall|g: int| 0 <= g < groups@.len() implies (#[trigger] groups@[g]).merged@ == merge_all(
                table_rows(sv.take(i + 1), groups@[g].schema@, groups@[g].tb@),
                cols_view(groups@[g].id_cols@),
            ) by {
                let t = groups@[g];
                let prev = table_rows(sv.take(i as int), t.schema@, t.tb@);
                assert(prev.push(rv).drop_last() =~= prev);
                if g < og.len() {
                    assert(t.schema@ == og[g].schema@ && t.tb@ == og[g].tb@ && t.id_cols@ == og[g].id_cols@);
                    if same_table(og[g], rv.schema, rv.tb) {
                        assert(table_rows(sv.take(i + 1), t.schema@, t.tb@) == prev.push(rv));
                        assert(og[g].merged@ == merge_all(prev, cols_view(t.id_cols@)));
                        assert(merge_all(prev.push(rv), cols_view(t.id_cols@)) == merge_step(merge_all(prev, cols_view(t.id_cols@)), rv, cols_view(t.id_cols@)));
                    } else {
                        assert(table_rows(sv.take(i + 1), t.schema@, t.tb@) == prev);
                    }
                }
                if g == og.len() {
                    assert forall|j: int| 0 <= j < i implies !((#[trigger] sv.take(i as int)[j]).schema == rv.schema && sv.take(i as int)[j].tb == rv.tb) by {
                        assert(sv.take(i as int)[j] == orig[j]@);
                        if orig[j].schema@ == rv.schema && orig[j].tb@ == rv.tb {
                            let g2 = choose|g2: int| 0 <= g2 < og.len() && same_table(og[g2], orig[j].schema@, orig[j].tb@);
                            assert(same_table(og[g2], rv.schema, rv.tb));
                        }
                    }
                    lemma_table_rows_absent(sv.take(i as int), rv.schema, rv.tb);
                    assert(table_rows(sv.take(i as int), rv.schema, rv.tb) =~= Seq::<RowDataView>::empty());
                    assert(seq![rv].drop_last() =~= Seq::<RowDataView>::empty());
                    assert(table_rows(sv.take(i + 1), rv.schema, rv.tb) == seq![rv]);
                    assert(merge_all(Seq::<RowDataView>::empty(), cols_view(t.id_cols@)) == empty_merged());
                    assert(merge_all(seq![rv], cols_view(t.id_cols@)) == merge_step(empty_merged(), rv, cols_view(t.id_cols@)));
                }
            }
            assert forall|g: int| 0 <= g < groups@.len() implies names_table(orig, (#[trigger] groups@[g]).schema@, groups@[g].tb@) by {
                if g < og.len() {
                    assert(groups@[g].schema@ == og[g].schema@ && groups@[g].tb@ == og[g].tb@);
                } else {
                    assert(orig[i as int].schema@ == groups@[g].schema@ && orig[i as int].tb@ == groups@[g].tb@);
                }
            }
            assert forall|j: int| 0 <= j < i + 1 implies exists|g: int|
                0 <= g < groups@.len() && same_table(groups@[g], (#[trigger] orig[j]).schema@, orig[j].tb@) by {
                if j < i {
                    let g2 = choose|g2: int| 0 <= g2 < og.len() && same_table(og[g2], orig[j].schema@, orig[j].tb@);
                    assert(same_table(groups@[g2], orig[j].schema@, orig[j].tb@));
                } else if groups@.len() == og.len() {
                    let g2 = choose|g2: int| 0 <= g2 < og.len() && same_table(og[g2], rv.schema, rv.tb);
                    assert(same_table(groups@[g2], orig[j].schema@, orig[j].tb@));
                } else {
                    assert(same_table(groups@[og.len() as int], orig[j].schema@, orig[j].tb@));
                }
            }
            i = i + 1;
        }
        assert(sv.take(n as int) =~= sv);
        let ghost final_groups = groups@;
        let mut out: Vec<TbMergedData> = Vec::new();
        while groups.len() > 0
            invariant
                data_in == data,
                groups@ == final_groups.take(groups@.len() as int),
                out@.len() + groups@.len() == final_groups.len(),
                forall|j: int| 0 <= j < out@.len() ==> {
                    let o = #[trigger] out@[j];
                    let gr = final_groups[final_groups.len() - 1 - j];
                    &&& o.schema@ == gr.schema@
                    &&& o.tb@ == gr.tb@
                    &&& rows_view(o.delete_rows@) == gr.merged@.deletes.map_values(|e: (u128, RowDataView)| e.1)
                    &&& rows_view(o.insert_rows@) == gr.merged@.inserts.map_values(|e: (u128, RowDataView)| e.1)
                    &&& rows_view(o.unmerged_rows@) == gr.merged@.unmerged
                },
            decreases groups.len(),
        {
            let mut group = groups.pop().unwrap();
            assert(groups@ =~= final_groups.take(groups@.len() as int));
            let delete_rows = group.merged.get_delete_rows();
            let insert_rows = group.merged.get_insert_rows();
            let unmerged_rows = group.merged.get_unmerged_rows();
            out.push(TbMergedData { schema: group.schema, tb: group.tb, delete_rows, insert_rows, unmerged_rows });
        }
        proof {
            let m = final_groups.len();
            assert forall|a: int, b: int| 0 <= a < b < out@.len() implies !(out@[a].schema@ == out@[b].schema@ && out@[a].tb@ == out@[b].tb@) by {
                assert(final_groups[m - 1 - b].schema@ == out@[b].schema@);
                assert(final_groups[m - 1 - a].schema@ == out@[a].schema@);
                assert(!same_table(final_groups[m - 1 - b], final_groups[m - 1 - a].schema@, final_groups[m - 1 - a].tb@));
            }
            assert forall|x: int| 0 <= x < orig.len() implies exists|j: int|
                0 <= j < out@.len() && out@[j].schema@ == (#[trigger] orig[x]).schema@ && out@[j].tb@ == orig[x].tb@ by {
                let g2 = choose|g2: int| 0 <= g2 < final_groups.len() && same_table(final_groups[g2], orig[x].schema@, orig[x].tb@);
                assert(out@[m - 1 - g2].schema@ == orig[x].schema@);
            }
            assert forall|j: int| 0 <= j < out@.len() implies (#[trigger] out@[j]).reduces(
                rows_view(orig),
                table_cols(self.meta_manager, out@[j].schema@, out@[j].tb@),
            ) by {
                let gr = final_groups[m - 1 - j];
                assert(gr.schema@ == out@[j].schema@);
                assert(cols_view(gr.id_cols@) == table_cols(self.meta_manager, gr.schema@, gr.tb@));
            }
            assert(orig == data@);
            assert forall|j: int| 0 <= j < out@.len() implies names_table(data@, (#[trigger] out@[j]).schema@, out@[j].tb@) by {
                assert(final_groups[m - 1 - j].schema@ == out@[j].schema@);
                assert(names_table(orig, final_groups[m - 1 - j].schema@, final_groups[m - 1 - j].tb@));
            }
            assert forall|x: int| 0 <= x < data@.len() implies has_table(out@, (#[trigger] data@[x]).schema@, data@[x].tb@) by {
                assert(orig[x] == data@[x]);
                let g2 = choose|g2: int| 0 <= g2 < final_groups.len() && same_table(final_groups[g2], orig[x].schema@, orig[x].tb@);
                assert(out@[m - 1 - g2].schema@ == orig[x].schema@);
            }
            assert forall|j: int| 0 <= j < out@.len() implies (#[trigger] out@[j]).reduces(
                rows_view(data@),
                table_cols(self.meta_manager, out@[j].schema@, out@[j].tb@),
            ) by {
                assert(rows_view(orig) == rows_view(data@));
            }
        }
        Ok(out)
    }
}

proof fn lemma_table_rows_absent(rows: Seq<RowDataView>, schema: Seq<char>, tb: Seq<char>)
    requires
        forall|j: int| 0 <= j < rows.len() ==> !((#[trigger] rows[j]).schema == schema && rows[j].tb == tb),
    ensures
        table_rows(rows, schema, tb).len() == 0,
    decreases rows.len(),
{
    if rows.len() > 0 {
        lemma_table_rows_absent(rows.drop_last(), schema, tb);
    }
}

/// Whether some row of `rs` has key `k` in the image that a delete removes.
pub open spec fn deletes_has_key(rs: Seq<RowDataView>, k: Seq<Option<ColValueView>>, cols: Seq<Seq<char>>) -> bool {
    exists|i: int| 0 <= i < rs.len() && key_of(before_image(#[trigger] rs[i]), cols) == k
}

/// Whether some row of `rs` has key `k` in the image that an insert writes.
pub open spec fn inserts_has_key(rs: Seq<RowDataView>, k: Seq<Option<ColValueView>>, cols: Seq<Seq<char>>) -> bool {
    exists|i: int| 0 <= i < rs.len() && key_of(after_image(#[trigger] rs[i]), cols) == k
}

proof fn lemma_apply_deletes(db: TableState, ds: Seq<RowDataView>, cols: Seq<Seq<char>>)
    requires
        forall|i: int| 0 <= i < ds.len() ==> (#[trigger] ds[i]).row_type == RowType::Delete,
    ensures
        apply_rows(db, ds, cols) == Map::new(
            |k: Seq<Option<ColValueView>>| db.contains_key(k) && !deletes_has_key(ds, k, cols),
            |k: Seq<Option<ColValueView>>| db[k],
        ),
    decreases ds.len(),
{
    if ds.len() == 0 {
        assert(apply_rows(db, ds, cols) =~= Map::new(
            |k: Seq<Option<ColValueView>>| db.contains_key(k) && !deletes_has_key(ds, k, cols),
            |k: Seq<Option<ColValueView>>| db[k],
        ));
    } else {
        let prev = ds.drop_last();
        lemma_apply_deletes(db, prev, cols);
        assert(ds.last().row_type == ds[ds.len() - 1].row_type);
        let m = Map::new(
            |k: Seq<Option<ColValueView>>| db.contains_key(k) && !deletes_has_key(ds, k, cols),
            |k: Seq<Option<ColValueView>>| db[k],
        );
        assert forall|k: Seq<Option<ColValueView>>| deletes_has_key(ds, k, cols) == (deletes_has_key(prev, k, cols) || key_of(before_image(ds.last()), cols) == k) by {
            if deletes_has_key(ds, k, cols) {
                let i = choose|i: int| 0 <= i < ds.len() && key_of(before_image(#[trigger] ds[i]), cols) == k;
                if i < prev.len() {
                    assert(prev[i] == ds[i]);
                }
            }
            if deletes_has_key(prev, k, cols) {
                let i = choose|i: int| 0 <= i < prev.len() && key_of(before_image(#[trigger] prev[i]), cols) == k;
                assert(prev[i] == ds[i]);
            }
        }
        assert(apply_rows(db, ds, cols) =~= m);
    }
}

/// The image that the last row of `rs` with key `k` writes.
pub open spec fn last_insert_image(rs: Seq<RowDataView>, k: Seq<Option<ColValueView>>, cols: Seq<Seq<char>>) -> ImageView
    decreases rs.len(),
{
    if rs.len() == 0 {
        Seq::empty()
    } else if key_of(after_image(rs.last()), cols) == k {
        after_image(rs.last())
    } else {
        last_insert_image(rs.drop_last(), k, cols)
    }
}

proof fn lemma_apply_inserts(base: TableState, is: Seq<RowDataView>, cols: Seq<Seq<char>>)
    requires
        forall|i: int| 0 <= i < is.len() ==> (#[trigger] is[i]).row_type == RowType::Insert,
    ensures
        apply_rows(base, is, cols) == Map::new(
            |k: Seq<Option<ColValueView>>| base.contains_key(k) || inserts_has_key(is, k, cols),
            |k: Seq<Option<ColValueView>>| if inserts_has_key(is, k, cols) { last_insert_image(is, k, cols) } else { base[k] },
        ),
    decreases is.len(),
{
    let m = Map::new(
        |k: Seq<Option<ColValueView>>| base.contains_key(k) || inserts_has_key(is, k, cols),
        |k: Seq<Option<ColValueView>>| if inserts_has_key(is, k, cols) { last_insert_image(is, k, cols) } else { base[k] },
    );
    if is.len() == 0 {
        assert(apply_rows(base, is, cols) =~= m);
    } else {
        let prev = is.drop_last();
        lemma_apply_inserts(base, prev, cols);
        assert(is.last().row_type == is[is.len() - 1].row_type);
        assert forall|k: Seq<Option<ColValueView>>| inserts_has_key(is, k, cols) == (inserts_has_key(prev, k, cols) || key_of(after_image(is.last()), cols) == k) by {
            if inserts_has_key(is, k, cols) {
                let i = choose|i: int| 0 <= i < is.len() && key_of(after_image(#[trigger] is[i]), cols) == k;
                if i < prev.len() {
                    assert(prev[i] == is[i]);
                }
            }
            if inserts_has_key(prev, k, cols) {
                let i = choose|i: int| 0 <= i < prev.len() && key_of(after_image(#[trigger] prev[i]), cols) == k;
                assert(prev[i] == is[i]);
            }
        }
        assert(apply_rows(base, is, cols) =~= m);
    }
}

proof fn lemma_last_insert_image(is: Seq<RowDataView>, k: Seq<Option<ColValueView>>, cols: Seq<Seq<char>>, j: int)
    requires
        0 <= j < is.len(),
        key_of(after_image(is[j]), cols) == k,
        forall|a: int, b: int|
            0 <= a < is.len() && 0 <= b < is.len() && key_of(after_image(#[trigger] is[a]), cols) == key_of(after_image(#[trigger] is[b]), cols)
                ==> after_image(is[a]) == after_image(is[b]),
    ensures
        last_insert_image(is, k, cols) == after_image(is[j]),
    decreases is.len(),
{
    let prev = is.drop_last();
    if key_of(after_image(is.last()), cols) != k {
        assert(j < prev.len());
        assert forall|a: int, b: int|
            0 <= a < prev.len() && 0 <= b < prev.len() && key_of(after_image(#[trigger] prev[a]), cols) == key_of(after_image(#[trigger] prev[b]), cols)
                implies after_image(prev[a]) == after_image(prev[b]) by {
            assert(prev[a] == is[a] && prev[b] == is[b]);
        }
        assert(prev[j] == is[j]);
        lemma_last_insert_image(prev, k, cols, j);
    } else {
        assert(is.last() == is[is.len() - 1]);
    }
}

/// Merger safety, in any order within each set: for any stream of one table's
/// row events, applying the rows of the delete set one by one in any order
/// (`ds` holds exactly those rows), then those of the insert set in any order
/// (`is`), then the unmerged rows in their recorded order, leaves any table in
/// the same state as applying the stream directly.
pub proof fn lemma_merge_safety_any_order(
    rows: Seq<RowDataView>,
    cols: Seq<Seq<char>>,
    db: TableState,
    ds: Seq<RowDataView>,
    is: Seq<RowDataView>,
)
    requires
        forall|i: int| 0 <= i < rows.len() ==> (#[trigger] rows[i]).well_formed(),
        ds.to_set() == merge_all(rows, cols).deletes.map_values(|e: (u128, RowDataView)| e.1).to_set(),
        is.to_set() == merge_all(rows, cols).inserts.map_values(|e: (u128, RowDataView)| e.1).to_set(),
    ensures
        apply_rows(db, rows, cols) == apply_rows(apply_rows(apply_rows(db, ds, cols), is, cols), merge_all(rows, cols).unmerged, cols),
{
    let st = merge_all(rows, cols);
    lemma_merge_safety(rows, cols, db);
    lemma_merge_all_wf(rows, cols);
    let dv = st.deletes.map_values(|e: (u128, RowDataView)| e.1);
    let iv = st.inserts.map_values(|e: (u128, RowDataView)| e.1);
    // every row of ds is a stored delete, and every stored delete is in ds
    assert forall|i: int| 0 <= i < ds.len() implies exists|x: int| 0 <= x < st.deletes.len() && #[trigger] ds[i] == st.deletes[x].1 by {
        assert(ds.to_set().contains(ds[i]));
        assert(dv.to_set().contains(ds[i]));
        let x = choose|x: int| 0 <= x < dv.len() && dv[x] == ds[i];
        assert(dv[x] == st.deletes[x].1);
    }
    assert forall|i: int| 0 <= i < is.len() implies exists|x: int| 0 <= x < st.inserts.len() && #[trigger] is[i] == st.inserts[x].1 by {
        assert(is.to_set().contains(is[i]));
        assert(iv.to_set().contains(is[i]));
        let x = choose|x: int| 0 <= x < iv.len() && iv[x] == is[i];
        assert(iv[x] == st.inserts[x].1);
    }
    assert forall|i: int| 0 <= i < ds.len() implies (#[trigger] ds[i]).row_type == RowType::Delete by {
        let x = choose|x: int| 0 <= x < st.deletes.len() && ds[i] == st.deletes[x].1;
        assert(st.deletes[x].1.row_type == RowType::Delete);
    }
    assert forall|i: int| 0 <= i < is.len() implies (#[trigger] is[i]).row_type == RowType::Insert by {
        let x = choose|x: int| 0 <= x < st.inserts.len() && is[i] == st.inserts[x].1;
        assert(st.inserts[x].1.row_type == RowType::Insert);
    }
    // keys of the stored rows are unique within each set
    assert forall|a: int, b: int|
        0 <= a < is.len() && 0 <= b < is.len() && key_of(after_image(#[trigger] is[a]), cols) == key_of(after_image(#[trigger] is[b]), cols)
            implies after_image(is[a]) == after_image(is[b]) by {
        let xa = choose|x: int| 0 <= x < st.inserts.len() && is[a] == st.inserts[x].1;
        let xb = choose|x: int| 0 <= x < st.inserts.len() && is[b] == st.inserts[x].1;
        assert(st.inserts[xa].0 == key_hash(row_key(st.inserts[xa].1, cols)));
        assert(st.inserts[xb].0 == key_hash(row_key(st.inserts[xb].1, cols)));
        if xa != xb {
            if xa < xb {
                assert(st.inserts[xa].0 != st.inserts[xb].0);
            } else {
                assert(st.inserts[xb].0 != st.inserts[xa].0);
            }
        }
    }
    lemma_apply_deletes(db, ds, cols);
    let after_d = apply_rows(db, ds, cols);
    lemma_apply_inserts(after_d, is, cols);
    let m = apply_merged(db, st, cols);
    let lhs = apply_rows(after_d, is, cols);
    assert forall|k: Seq<Option<ColValueView>>| #[trigger] lhs.contains_key(k) == m.contains_key(k) && (lhs.contains_key(k) ==> lhs[k] == m[k]) by {
        let h = key_hash(k);
        lemma_slot_index(st.deletes, h);
        lemma_slot_index(st.inserts, h);
        lemma_slot_get_wf(st.deletes, h);
        lemma_slot_get_wf(st.inserts, h);
        // deletes
        if deletes_has_key(ds, k, cols) {
            let i = choose|i: int| 0 <= i < ds.len() && key_of(before_image(#[trigger] ds[i]), cols) == k;
            let x = choose|x: int| 0 <= x < st.deletes.len() && ds[i] == st.deletes[x].1;
            assert(st.deletes[x].0 == key_hash(row_key(st.deletes[x].1, cols)));
            assert(slot_get(st.deletes, h) == Some(st.deletes[x].1));
        }
        if deletes_key(st, k, cols) {
            let e = slot_get(st.deletes, h).unwrap();
            let x = slot_index(st.deletes, h);
            assert(st.deletes[x].1 == e);
            assert(dv[x] == e);
            assert(dv.to_set().contains(e));
            assert(ds.to_set().contains(e));
            let i = choose|i: int| 0 <= i < ds.len() && ds[i] == e;
            assert(key_of(before_image(ds[i]), cols) == k);
        }
        // inserts
        if inserts_has_key(is, k, cols) {
            let i = choose|i: int| 0 <= i < is.len() && key_of(after_image(#[trigger] is[i]), cols) == k;
            let x = choose|x: int| 0 <= x < st.inserts.len() && is[i] == st.inserts[x].1;
            assert(st.inserts[x].0 == key_hash(row_key(st.inserts[x].1, cols)));
            assert(slot_get(st.inserts, h) == Some(st.inserts[x].1));
            lemma_last_insert_image(is, k, cols, i);
        }
        if inserted_image(st, k, cols) is Some {
            let e = slot_get(st.inserts, h).unwrap();
            let x = slot_index(st.inserts, h);
            assert(st.inserts[x].1 == e);
            assert(iv[x] == e);
            assert(iv.to_set().contains(e));
            assert(is.to_set().contains(e));
            let i = choose|i: int| 0 <= i < is.len() && is[i] == e;
            assert(key_of(after_image(is[i]), cols) == k);
        }
    }
    assert(lhs =~= m);
}

/// Every row of the stream can be identified: its key hash is not 0.
pub open spec fn all_hashable(rows: Seq<RowDataView>, cols: Seq<Seq<char>>) -> bool {
    forall|i: int| 0 <= i < rows.len() ==> key_hash(row_key(#[trigger] rows[i], cols)) != 0
}

/// No update of the stream changes its key.
pub open spec fn no_key_changes(rows: Seq<RowDataView>, cols: Seq<Seq<char>>) -> bool {
    forall|i: int|
        0 <= i < rows.len() && (#[trigger] rows[i]).row_type == RowType::Update ==> key_of(
            before_image(rows[i]),
            cols,
        ) == key_of(after_image(rows[i]), cols)
}

/// No two rows of the stream with different keys share a key hash.
pub open spec fn no_hash_collisions(rows: Seq<RowDataView>, cols: Seq<Seq<char>>) -> bool {
    forall|i: int, j: int|
        0 <= i < rows.len() && 0 <= j < rows.len() && key_hash(row_key(#[trigger] rows[i], cols)) == key_hash(
            row_key(#[trigger] rows[j], cols),
        ) ==> row_key(rows[i], cols) == row_key(rows[j], cols)
}

pub open spec fn no_updates(rows: Seq<RowDataView>) -> bool {
    forall|i: int| 0 <= i < rows.len() ==> (#[trigger] rows[i]).row_type != RowType::Update
}

/// Every stored row has the key of some row of the stream.
spec fn keys_from(s: SlotsView, rows: Seq<RowDataView>, cols: Seq<Seq<char>>) -> bool {
    forall|x: int|
        0 <= x < s.len() ==> exists|j: int| 0 <= j < rows.len() && row_key((#[trigger] s[x]).1, cols) == row_key(rows[j], cols)
}

proof fn lemma_no_collide(s: SlotsView, rows: Seq<RowDataView>, r: RowDataView, cols: Seq<Seq<char>>)
    requires
        slots_unique(s),
        forall|x: int| 0 <= x < s.len() ==> (#[trigger] s[x]).0 == key_hash(row_key(s[x].1, cols)),
        keys_from(s, rows, cols),
        rows.contains(r),
        no_hash_collisions(rows, cols),
    ensures
        !collides(s, key_hash(row_key(r, cols)), row_key(r, cols), cols),
{
    let h = key_hash(row_key(r, cols));
    lemma_slot_get_wf(s, h);
    if slot_get(s, h) is Some {
        let e = slot_get(s, h).unwrap();
        let x = choose|x: int| 0 <= x < s.len() && s[x] == (h, e);
        assert(s[x] == (h, e));
        let j = choose|j: int| 0 <= j < rows.len() && row_key(s[x].1, cols) == row_key(rows[j], cols);
        let ir = choose|ir: int| 0 <= ir < rows.len() && rows[ir] == r;
        assert(key_hash(row_key(rows[j], cols)) == key_hash(row_key(rows[ir], cols)));
    }
}

proof fn lemma_minimality_inv(rows: Seq<RowDataView>, cols: Seq<Seq<char>>)
    requires
        forall|i: int| 0 <= i < rows.len() ==> (#[trigger] rows[i]).well_formed(),
        all_hashable(rows, cols),
        no_key_changes(rows, cols),
        no_hash_collisions(rows, cols),
    ensures
        merge_all(rows, cols).unmerged.len() == 0,
        keys_from(merge_all(rows, cols).deletes, rows, cols),
        keys_from(merge_all(rows, cols).inserts, rows, cols),
        merge_all(rows, cols).deletes.len() <= rows.len(),
        merge_all(rows, cols).inserts.len() <= rows.len(),
        no_updates(rows) ==> merge_all(rows, cols).deletes.len() + merge_all(rows, cols).inserts.len() <= rows.len(),
    decreases rows.len(),
{
    if rows.len() == 0 {
        return;
    }
    let prev = rows.drop_last();
    let r = rows.last();
    let last = rows.len() - 1;
    assert forall|i: int| 0 <= i < prev.len() implies (#[trigger] prev[i]) == rows[i] by {}
    assert(no_hash_collisions(prev, cols)) by {
        assert forall|i: int, j: int|
            0 <= i < prev.len() && 0 <= j < prev.len() && key_hash(row_key(#[trigger] prev[i], cols)) == key_hash(
                row_key(#[trigger] prev[j], cols),
            ) implies row_key(prev[i], cols) == row_key(prev[j], cols) by {
            assert(prev[i] == rows[i] && prev[j] == rows[j]);
        }
    }
    assert(no_updates(rows) ==> no_updates(prev));
    lemma_minimality_inv(prev, cols);
    lemma_merge_all_wf(prev, cols);
    let st = merge_all(prev, cols);
    let k = row_key(r, cols);
    let h = key_hash(k);
    assert(rows[last] == r);
    assert(rows.contains(r));
    assert(keys_from(st.deletes, rows, cols)) by {
        assert forall|x: int| 0 <= x < st.deletes.len() implies exists|j: int| 0 <= j < rows.len() && row_key((#[trigger] st.deletes[x]).1, cols) == row_key(rows[j], cols) by {
            let j = choose|j: int| 0 <= j < prev.len() && row_key(st.deletes[x].1, cols) == row_key(prev[j], cols);
            assert(rows[j] == prev[j]);
        }
    }
    assert(keys_from(st.inserts, rows, cols)) by {
        assert forall|x: int| 0 <= x < st.inserts.len() implies exists|j: int| 0 <= j < rows.len() && row_key((#[trigger] st.inserts[x]).1, cols) == row_key(rows[j], cols) by {
            let j = choose|j: int| 0 <= j < prev.len() && row_key(st.inserts[x].1, cols) == row_key(prev[j], cols);
            assert(rows[j] == prev[j]);
        }
    }
    lemma_no_collide(st.deletes, rows, r, cols);
    lemma_no_collide(st.inserts, rows, r, cols);
    let ka = key_of(after_image(r), cols);
    if r.row_type == RowType::Update {
        assert(key_of(before_image(rows[last]), cols) == key_of(after_image(rows[last]), cols));
        assert(ka == k);
    }
    lemma_slot_ops(st.deletes, h, r);
    lemma_slot_ops(st.inserts, h, r);
    lemma_slot_ops(st.deletes, h, delete_of(r));
    lemma_slot_ops(st.inserts, h, insert_of(r));
    let n = merge_step(st, r, cols);
    if r.row_type == RowType::Update {
        assert(row_key(delete_of(r), cols) == k);
        assert(row_key(insert_of(r), cols) == k);
    }
    assert forall|x: int| 0 <= x < n.deletes.len() implies exists|j: int| 0 <= j < rows.len() && row_key((#[trigger] n.deletes[x]).1, cols) == row_key(rows[j], cols) by {
        if n.deletes[x] == (h, r) || n.deletes[x] == (h, delete_of(r)) {
            assert(row_key(n.deletes[x].1, cols) == row_key(rows[last], cols));
        } else if n.deletes != st.deletes {
            let y = choose|y: int| 0 <= y < st.deletes.len() && st.deletes[y] == n.deletes[x];
            assert(st.deletes[y] == n.deletes[x]);
        } else {
            assert(st.deletes[x] == n.deletes[x]);
        }
    }
    assert forall|x: int| 0 <= x < n.inserts.len() implies exists|j: int| 0 <= j < rows.len() && row_key((#[trigger] n.inserts[x]).1, cols) == row_key(rows[j], cols) by {
        if n.inserts[x] == (h, r) || n.inserts[x] == (h, insert_of(r)) {
            assert(row_key(n.inserts[x].1, cols) == row_key(rows[last], cols));
        } else if n.inserts != st.inserts {
            let y = choose|y: int| 0 <= y < st.inserts.len() && st.inserts[y] == n.inserts[x];
            assert(st.inserts[y] == n.inserts[x]);
        } else {
            assert(st.inserts[x] == n.inserts[x]);
        }
    }
    if no_updates(rows) {
        assert(rows[last].row_type != RowType::Update);
    }
}

/// Merger minimality: when every row of one table's stream can be identified,
/// no update changes its key and no two different keys share a hash, nothing is
/// left unmerged, each of the delete and insert sets holds at most as many rows
/// as the stream, and when the stream holds no update the two sets together do.
/// (A single update is stored as one delete and one insert, so with updates only
/// the bound on each set holds.)
pub proof fn lemma_merge_minimality(rows: Seq<RowDataView>, cols: Seq<Seq<char>>)
    requires
        forall|i: int| 0 <= i < rows.len() ==> (#[trigger] rows[i]).well_formed(),
        all_hashable(rows, cols),
        no_key_changes(rows, cols),
        no_hash_collisions(rows, cols),
    ensures
        merge_all(rows, cols).unmerged.len() == 0,
        merge_all(rows, cols).deletes.len() <= rows.len(),
        merge_all(rows, cols).inserts.len() <= rows.len(),
        no_updates(rows) ==> merge_all(rows, cols).deletes.len() + merge_all(rows, cols).inserts.len() <= rows.len(),
{
    lemma_minimality_inv(rows, cols);
}

} // verus!
