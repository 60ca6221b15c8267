use crate::dt_data::DdlData;
use crate::row::cols_view;
use vstd::prelude::*;
use vstd::string::StrSliceExecFns;

verus! {

/// A foreign-key relation between a column of one table and a column of another.
#[derive(Clone, Debug, PartialEq)]
pub struct ForeignKey {
    pub schema: String,
    pub tb: String,
    pub col: String,
    pub ref_schema: String,
    pub ref_tb: String,
    pub ref_col: String,
}

/// Cached metadata of one relational table.
#[derive(Clone, Debug)]
pub struct RdbTbMeta {
    pub schema: String,
    pub tb: String,
    pub cols: Vec<String>,
    /// Unique keys only: lower-cased index name with its ordered columns.
    pub key_map: Vec<(String, Vec<String>)>,
    pub order_col: Option<String>,
    pub partition_col: String,
    pub id_cols: Vec<String>,
    pub foreign_keys: Vec<ForeignKey>,
    pub ref_by_foreign_keys: Vec<ForeignKey>,
}

pub open spec fn primary_name() -> Seq<char> {
    seq!['p', 'r', 'i', 'm', 'a', 'r', 'y']
}

/// Lexicographic order of character sequences, compared from position `i` on.
pub open spec fn lex_lt_from(a: Seq<char>, b: Seq<char>, i: int) -> bool
    decreases a.len() - i,
{
    if i < 0 || i >= a.len() {
        i >= 0 && i < b.len()
    } else if i >= b.len() {
        false
    } else if a[i] != b[i] {
        (a[i] as u32) < (b[i] as u32)
    } else {
        lex_lt_from(a, b, i + 1)
    }
}

pub open spec fn lex_lt(a: Seq<char>, b: Seq<char>) -> bool {
    lex_lt_from(a, b, 0)
}

/// Whether unique key `a` is preferred over `b` as the identifying key: the key
/// named `primary` first, then fewer columns, then the smaller name.
pub open spec fn key_preferred(a: (Seq<char>, nat), b: (Seq<char>, nat)) -> bool {
    if a.0 == primary_name() {
        b.0 != primary_name()
    } else if b.0 == primary_name() {
        false
    } else {
        a.1 < b.1 || (a.1 == b.1 && lex_lt(a.0, b.0))
    }
}

pub open spec fn key_entry(k: (String, Vec<String>)) -> (Seq<char>, nat) {
    (k.0@, k.1@.len())
}

/// `c` is an index of `key_map` that no other key is preferred over.
pub open spec fn is_chosen_key(key_map: Seq<(String, Vec<String>)>, c: int) -> bool {
    &&& 0 <= c < key_map.len()
    &&& forall|j: int| 0 <= j < key_map.len() ==> !key_preferred(key_entry(#[trigger] key_map[j]), key_entry(key_map[c]))
}

proof fn lemma_lex_lt_trans(a: Seq<char>, b: Seq<char>, c: Seq<char>, i: int)
    requires
        0 <= i,
        lex_lt_from(a, b, i),
        lex_lt_from(b, c, i),
    ensures
        lex_lt_from(a, c, i),
    decreases a.len() - i,
{
    if i < a.len() && i < b.len() && i < c.len() && a[i] == b[i] && b[i] == c[i] {
        lemma_lex_lt_trans(a, b, c, i + 1);
    }
}

proof fn lemma_lex_lt_irrefl(a: Seq<char>, i: int)
    requires
        0 <= i,
    ensures
        !lex_lt_from(a, a, i),
    decreases a.len() - i,
{
    if i < a.len() {
        lemma_lex_lt_irrefl(a, i + 1);
    }
}

proof fn lemma_key_preferred_trans(a: (Seq<char>, nat), b: (Seq<char>, nat), c: (Seq<char>, nat))
    requires
        key_preferred(a, b),
        key_preferred(b, c),
    ensures
        key_preferred(a, c),
{
    if a.0 != primary_name() && b.0 != primary_name() && c.0 != primary_name() && a.1 == b.1 && b.1 == c.1 {
        lemma_lex_lt_trans(a.0, b.0, c.0, 0);
    }
}

fn is_primary(name: &String) -> (r: bool)
    ensures
        r == (name@ == primary_name()),
{
    let p = "primary".to_owned();
    proof {
        reveal_strlit("primary");
        assert(p@ =~= primary_name());
    }
    *name == p
}

fn lex_lt_exec(a: &String, b: &String) -> (r: bool)
    ensures
        r == lex_lt(a@, b@),
{
    let la = a.as_str().unicode_len();
    let lb = b.as_str().unicode_len();
    let mut i: usize = 0;
    while i < la && i < lb
        invariant
            la == a@.len(),
            lb == b@.len(),
            0 <= i,
            i <= la,
            i <= lb,
            lex_lt_from(a@, b@, 0) == lex_lt_from(a@, b@, i as int),
        decreases la - i,
    {
        let ca = a.as_str().get_char(i);
        let cb = b.as_str().get_char(i);
        if ca != cb {
            return (ca as u32) < (cb as u32);
        }
        i = i + 1;
    }
    i < lb
}

fn key_preferred_exec(a: &(String, Vec<String>), b: &(String, Vec<String>)) -> (r: bool)
    ensures
        r == key_preferred(key_entry(*a), key_entry(*b)),
{
    let ap = is_primary(&a.0);
    let bp = is_primary(&b.0);
    if ap {
        !bp
    } else if bp {
        false
    } else {
        a.1.len() < b.1.len() || (a.1.len() == b.1.len() && lex_lt_exec(&a.0, &b.0))
    }
}

pub(crate) fn clone_strings(v: &Vec<String>) -> (r: Vec<String>)
    ensures
        r@ == v@,
{
    let mut out: Vec<String> = Vec::new();
    let mut i: usize = 0;
    while i < v.len()
        invariant
            0 <= i <= v.len(),
            out@ == v@.take(i as int),
        decreases v.len() - i,
    {
        out.push(v[i].clone());
        assert(out@ =~= v@.take(i + 1));
        i = i + 1;
    }
    assert(v@.take(i as int) =~= v@);
    out
}

/// The identifying columns of a table: the columns of its preferred unique key
/// (see `key_preferred`), or none when it has no unique key.
pub fn choose_id_cols(key_map: &Vec<(String, Vec<String>)>) -> (r: Vec<String>)
    ensures
        key_map@.len() == 0 ==> r@.len() == 0,
        key_map@.len() > 0 ==> exists|c: int| is_chosen_key(key_map@, c) && r@ == key_map@[c].1@,
{
    if key_map.len() == 0 {
        return Vec::new();
    }
    let mut best: usize = 0;
    let mut i: usize = 1;
    proof {
        lemma_lex_lt_irrefl(key_map@[0].0@, 0);
    }
    while i < key_map.len()
        invariant
            1 <= i <= key_map.len(),
            best < i,
            forall|j: int| 0 <= j < i ==> !key_preferred(key_entry(#[trigger] key_map@[j]), key_entry(key_map@[best as int])),
        decreases key_map.len() - i,
    {
        if key_preferred_exec(&key_map[i], &key_map[best]) {
            proof {
                assert forall|j: int| 0 <= j < i + 1 implies !key_preferred(key_entry(#[trigger] key_map@[j]), key_entry(key_map@[i as int])) by {
                    if j < i && key_preferred(key_entry(key_map@[j]), key_entry(key_map@[i as int])) {
                        lemma_key_preferred_trans(key_entry(key_map@[j]), key_entry(key_map@[i as int]), key_entry(key_map@[best as int]));
                    }
                    if j == i {
                        lemma_lex_lt_irrefl(key_map@[j].0@, 0);
                        assert(!key_preferred(key_entry(key_map@[j]), key_entry(key_map@[j])));
                    }
                }
            }
            best = i;
        }
        i = i + 1;
    }
    let r = clone_strings(&key_map[best].1);
    assert(is_chosen_key(key_map@, best as int));
    r
}

/// The only column of the first key in `key_map[i..]` that has exactly one
/// column (and, when `primary_only`, is named `primary`).
pub open spec fn first_single_from(key_map: Seq<(String, Vec<String>)>, primary_only: bool, i: int) -> Option<Seq<char>>
    decreases key_map.len() - i,
{
    if i < 0 || i >= key_map.len() {
        None
    } else if key_map[i].1@.len() == 1 && (!primary_only || key_map[i].0@ == primary_name()) {
        Some(key_map[i].1@[0]@)
    } else {
        first_single_from(key_map, primary_only, i + 1)
    }
}

/// The order column: the primary key's column when it has exactly one, else
/// the column of the first single-column unique key, else none.
pub open spec fn order_col_of(key_map: Seq<(String, Vec<String>)>) -> Option<Seq<char>> {
    match first_single_from(key_map, true, 0) {
        Some(c) => Some(c),
        None => first_single_from(key_map, false, 0),
    }
}

pub open spec fn opt_str_view(s: Option<String>) -> Option<Seq<char>> {
    match s {
        Some(x) => Some(x@),
        None => None,
    }
}

fn first_single(key_map: &Vec<(String, Vec<String>)>, primary_only: bool) -> (r: Option<String>)
    ensures
        opt_str_view(r) == first_single_from(key_map@, primary_only, 0),
{
    let mut i: usize = 0;
    while i < key_map.len()
        invariant
            0 <= i <= key_map@.len(),
            first_single_from(key_map@, primary_only, 0) == first_single_from(key_map@, primary_only, i as int),
        decreases key_map.len() - i,
    {
        if key_map[i].1.len() == 1 && (!primary_only || is_primary(&key_map[i].0)) {
            return Some(key_map[i].1[0].clone());
        }
        i = i + 1;
    }
    None
}

fn choose_order_col(key_map: &Vec<(String, Vec<String>)>) -> (r: Option<String>)
    ensures
        opt_str_view(r) == order_col_of(key_map@),
{
    match first_single(key_map, true) {
        Some(c) => Some(c),
        None => first_single(key_map, false),
    }
}

impl RdbTbMeta {
    /// Builds a table's metadata from its columns, unique keys and foreign keys,
    /// deriving the identifying columns, the order column and the partition
    /// column.
    pub fn new(
        schema: String,
        tb: String,
        cols: Vec<String>,
        key_map: Vec<(String, Vec<String>)>,
        foreign_keys: Vec<ForeignKey>,
        ref_by_foreign_keys: Vec<ForeignKey>,
    ) -> (r: Self)
        ensures
            r.schema@ == schema@,
            r.tb@ == tb@,
            r.cols@ == cols@,
            r.key_map@ == key_map@,
            r.foreign_keys@ == foreign_keys@,
            r.ref_by_foreign_keys@ == ref_by_foreign_keys@,
            key_map@.len() == 0 ==> r.id_cols@.len() == 0,
            key_map@.len() > 0 ==> exists|c: int| is_chosen_key(key_map@, c) && r.id_cols@ == key_map@[c].1@,
            opt_str_view(r.order_col) == order_col_of(key_map@),
            r.id_cols@.len() > 0 ==> r.partition_col@ == r.id_cols@[0]@,
            r.id_cols@.len() == 0 ==> r.partition_col@.len() == 0,
    {
        let id_cols = choose_id_cols(&key_map);
        let order_col = choose_order_col(&key_map);
        let partition_col = if id_cols.len() > 0 {
            id_cols[0].clone()
        } else {
            String::new()
        };
        RdbTbMeta {
            schema,
            tb,
            cols,
            key_map,
            order_col,
            partition_col,
            id_cols,
            foreign_keys,
            ref_by_foreign_keys,
        }
    }

    pub open spec fn id_cols_view(&self) -> Seq<Seq<char>> {
        cols_view(self.id_cols@)
    }
}

/// What `str::to_lowercase` returns for a character sequence.
pub uninterp spec fn lower_of(s: Seq<char>) -> Seq<char>;

/// Relies on `str::to_lowercase`: the result depends on the characters alone.
#[verifier::external_body]
pub(crate) fn to_lower(s: &str) -> (r: String)
    ensures
        r@ == lower_of(s@),
{
    s.to_lowercase()
}

/// The cache key of a table: its lower-cased `schema.table` name.
pub open spec fn cache_key(schema: Seq<char>, tb: Seq<char>) -> Seq<char> {
    lower_of(schema + seq!['.'] + tb)
}

fn full_name(schema: &String, tb: &String) -> (r: String)
    ensures
        r@ == schema@ + seq!['.'] + tb@,
{
    let mut s = schema.clone();
    s.append(".");
    proof {
        reveal_strlit(".");
    }
    s.append(tb.as_str());
    s
}

/// The table-metadata registry: metadata by lower-cased table name.
pub struct TbMetaCache {
    pub entries: Vec<(String, RdbTbMeta)>,
}

impl TbMetaCache {
    /// Whether the cache holds metadata under `key`.
    pub open spec fn cached(&self, key: Seq<char>) -> bool {
        exists|i: int| 0 <= i < self.entries@.len() && (#[trigger] self.entries@[i]).0@ == key
    }

    /// No key occurs twice.
    pub open spec fn wf(&self) -> bool {
        forall|i: int, j: int|
            0 <= i < j < self.entries@.len() ==> self.entries@[i].0@ != self.entries@[j].0@
    }

    /// The metadata cached under `key` (meaningful when `cached(key)`).
    pub open spec fn cached_meta(&self, key: Seq<char>) -> RdbTbMeta {
        self.entries@[choose|i: int| 0 <= i < self.entries@.len() && (#[trigger] self.entries@[i]).0@ == key].1
    }

    pub fn new() -> (r: Self)
        ensures
            r.wf(),
            forall|k: Seq<char>| !r.cached(k),
    {
        TbMetaCache { entries: Vec::new() }
    }

    fn find(&self, key: &String) -> (r: Option<usize>)
        ensures
            match r {
                Some(i) => i < self.entries@.len() && self.entries@[i as int].0@ == key@,
                None => !self.cached(key@),
            },
    {
        let mut i: usize = 0;
        while i < self.entries.len()
            invariant
                0 <= i <= self.entries@.len(),
                forall|j: int| 0 <= j < i ==> (#[trigger] self.entries@[j]).0@ != key@,
            decreases self.entries.len() - i,
        {
            if self.entries[i].0 == *key {
                return Some(i);
            }
            i = i + 1;
        }
        None
    }

    /// The cached metadata of `schema.tb`, if any.
    pub fn get(&self, schema: &String, tb: &String) -> (r: Option<&RdbTbMeta>)
        requires
            self.wf(),
        ensures
            r is Some <==> self.cached(cache_key(schema@, tb@)),
            r is Some ==> *r.unwrap() == self.cached_meta(cache_key(schema@, tb@)),
    {
        let key = to_lower(full_name(schema, tb).as_str());
        match self.find(&key) {
            Some(i) => {
                let ghost c = choose|j: int| 0 <= j < self.entries@.len() && (#[trigger] self.entries@[j]).0@ == key@;
                assert(self.entries@[i as int].0@ == key@);
                assert(c == i);
                Some(&self.entries[i].1)
            },
            None => None,
        }
    }

    /// Stores the metadata of its table, replacing what was cached for it.
    pub fn put(&mut self, meta: RdbTbMeta)
        requires
            old(self).wf(),
        ensures
            final(self).wf(),
            final(self).cached(cache_key(meta.schema@, meta.tb@)),
            forall|k: Seq<char>| old(self).cached(k) ==> final(self).cached(k),
            forall|k: Seq<char>| final(self).cached(k) ==> old(self).cached(k) || k == cache_key(meta.schema@, meta.tb@),
            final(self).cached_meta(cache_key(meta.schema@, meta.tb@)) == meta,
            forall|k: Seq<char>|
                old(self).cached(k) && k != cache_key(meta.schema@, meta.tb@) ==> final(self).cached_meta(k) == old(self).cached_meta(k),
    {
        let ghost mv = meta;
        let key = to_lower(full_name(&meta.schema, &meta.tb).as_str());
        let ghost kv = key@;
        match self.find(&key) {
            Some(i) => {
                self.entries.set(i, (key, meta));
                assert(self.entries@[i as int].0@ == kv);
                assert(self.wf());
                proof {
                    lemma_cached_meta(*self, i as int);
                }
                assert forall|k: Seq<char>| old(self).cached(k) && k != kv implies self.cached_meta(k) == old(self).cached_meta(k) by {
                    let j = choose|j: int| 0 <= j < old(self).entries@.len() && (#[trigger] old(self).entries@[j]).0@ == k;
                    assert(self.entries@[j] == old(self).entries@[j]);
                    lemma_cached_meta(*self, j);
                    lemma_cached_meta(*old(self), j);
                }
                assert forall|k: Seq<char>| old(self).cached(k) implies self.cached(k) by {
                    let j = choose|j: int| 0 <= j < old(self).entries@.len() && (#[trigger] old(self).entries@[j]).0@ == k;
                    assert(self.entries@[j].0@ == k);
                }
                assert forall|k: Seq<char>| self.cached(k) implies old(self).cached(k) || k == kv by {
                    let j = choose|j: int| 0 <= j < self.entries@.len() && (#[trigger] self.entries@[j]).0@ == k;
                    if j != i {
                        assert(old(self).entries@[j].0@ == k);
                    }
                }
            },
            None => {
                self.entries.push((key, meta));
                assert(self.entries@[self.entries@.len() - 1].0@ == kv);
                assert(self.wf());
                proof {
                    lemma_cached_meta(*self, self.entries@.len() - 1);
                }
                assert forall|k: Seq<char>| old(self).cached(k) && k != kv implies self.cached_meta(k) == old(self).cached_meta(k) by {
                    let j = choose|j: int| 0 <= j < old(self).entries@.len() && (#[trigger] old(self).entries@[j]).0@ == k;
                    assert(self.entries@[j] == old(self).entries@[j]);
                    lemma_cached_meta(*self, j);
                    lemma_cached_meta(*old(self), j);
                }
                assert forall|k: Seq<char>| old(self).cached(k) implies self.cached(k) by {
                    let j = choose|j: int| 0 <= j < old(self).entries@.len() && (#[trigger] old(self).entries@[j]).0@ == k;
                    assert(self.entries@[j].0@ == k);
                }
                assert forall|k: Seq<char>| self.cached(k) implies old(self).cached(k) || k == kv by {
                    let j = choose|j: int| 0 <= j < self.entries@.len() && (#[trigger] self.entries@[j]).0@ == k;
                    if j < old(self).entries@.len() {
                        assert(old(self).entries@[j].0@ == k);
                    }
                }
            },
        }
    }

    /// Drops the cached metadata of `schema.tb`; with an empty schema or table
    /// name, drops everything.
    pub fn invalidate_cache(&mut self, schema: &String, tb: &String)
        requires
            old(self).wf(),
        ensures
            final(self).wf(),
            invalidated(*old(self), *final(self), schema@, tb@),
    {
        if schema.as_str().unicode_len() > 0 && tb.as_str().unicode_len() > 0 {
            let key = to_lower(full_name(schema, tb).as_str());
            let ghost kv = key@;
            match self.find(&key) {
                Some(i) => {
                    self.entries.remove(i);
                    assert(self.wf());
                    assert forall|k: Seq<char>| self.cached(k) implies self.cached_meta(k) == old(self).cached_meta(k) by {
                        let j = choose|j: int| 0 <= j < self.entries@.len() && (#[trigger] self.entries@[j]).0@ == k;
                        lemma_cached_meta(*self, j);
                        if j < i {
                            assert(self.entries@[j] == old(self).entries@[j]);
                            lemma_cached_meta(*old(self), j);
                        } else {
                            assert(self.entries@[j] == old(self).entries@[j + 1]);
                            lemma_cached_meta(*old(self), j + 1);
                        }
                    }
                    assert forall|k: Seq<char>| self.cached(k) implies old(self).cached(k) && k != kv by {
                        let j = choose|j: int| 0 <= j < self.entries@.len() && (#[trigger] self.entries@[j]).0@ == k;
                        if j < i {
                            assert(old(self).entries@[j].0@ == k);
                        } else {
                            assert(old(self).entries@[j + 1].0@ == k);
                        }
                    }
                    assert forall|k: Seq<char>| old(self).cached(k) && k != kv implies self.cached(k) by {
                        let j = choose|j: int| 0 <= j < old(self).entries@.len() && (#[trigger] old(self).entries@[j]).0@ == k;
                        if j < i {
                            assert(self.entries@[j].0@ == k);
                        } else {
                            assert(self.entries@[j - 1].0@ == k);
                        }
                    }
                },
                None => {},
            }
        } else {
            self.entries.clear();
        }
    }
}

impl TbMetaCache {
    /// Invalidates the table that a schema change names (everything when it
    /// names none).
    pub fn invalidate_cache_by_ddl_data(&mut self, ddl_data: &DdlData)
        requires
            old(self).wf(),
        ensures
            final(self).wf(),
            invalidated(*old(self), *final(self), ddl_data.schema@, ddl_data.tb@),
    {
        self.invalidate_cache(&ddl_data.schema, &ddl_data.tb);
    }
}

/// A foreign key with every name lower-cased.
pub open spec fn fk_lowered(k: ForeignKey) -> ForeignKeyView {
    ForeignKeyView {
        schema: lower_of(k.schema@),
        tb: lower_of(k.tb@),
        col: lower_of(k.col@),
        ref_schema: lower_of(k.ref_schema@),
        ref_tb: lower_of(k.ref_tb@),
        ref_col: lower_of(k.ref_col@),
    }
}

pub struct ForeignKeyView {
    pub schema: Seq<char>,
    pub tb: Seq<char>,
    pub col: Seq<char>,
    pub ref_schema: Seq<char>,
    pub ref_tb: Seq<char>,
    pub ref_col: Seq<char>,
}

impl View for ForeignKey {
    type V = ForeignKeyView;

    open spec fn view(&self) -> ForeignKeyView {
        ForeignKeyView {
            schema: self.schema@,
            tb: self.tb@,
            col: self.col@,
            ref_schema: self.ref_schema@,
            ref_tb: self.ref_tb@,
            ref_col: self.ref_col@,
        }
    }
}

/// The lower-cased keys of `keys` that go out of table `schema.tb` (when
/// `outbound`) or point into it (otherwise), in order.
pub open spec fn fks_of(keys: Seq<ForeignKey>, schema: Seq<char>, tb: Seq<char>, outbound: bool) -> Seq<ForeignKeyView>
    decreases keys.len(),
{
    if keys.len() == 0 {
        Seq::empty()
    } else {
        let prev = fks_of(keys.drop_last(), schema, tb, outbound);
        let k = fk_lowered(keys.last());
        let hit = if outbound {
            k.schema == schema && k.tb == tb
        } else {
            k.ref_schema == schema && k.ref_tb == tb
        };
        if hit {
            prev.push(k)
        } else {
            prev
        }
    }
}

fn lower_fk(k: &ForeignKey) -> (r: ForeignKey)
    ensures
        r@ == fk_lowered(*k),
{
    ForeignKey {
        schema: to_lower(k.schema.as_str()),
        tb: to_lower(k.tb.as_str()),
        col: to_lower(k.col.as_str()),
        ref_schema: to_lower(k.ref_schema.as_str()),
        ref_tb: to_lower(k.ref_tb.as_str()),
        ref_col: to_lower(k.ref_col.as_str()),
    }
}

/// Splits the foreign keys that relate to table `schema.tb` into those it
/// holds and those that point at it, lower-casing every name.
pub fn classify_foreign_keys(schema: &String, tb: &String, keys: &Vec<ForeignKey>) -> (r: (Vec<ForeignKey>, Vec<ForeignKey>))
    ensures
        r.0@.map_values(|k: ForeignKey| k@) == fks_of(keys@, schema@, tb@, true),
        r.1@.map_values(|k: ForeignKey| k@) == fks_of(keys@, schema@, tb@, false),
{
    let mut foreign_keys: Vec<ForeignKey> = Vec::new();
    let mut ref_by_foreign_keys: Vec<ForeignKey> = Vec::new();
    let mut i: usize = 0;
    while i < keys.len()
        invariant
            0 <= i <= keys@.len(),
            foreign_keys@.map_values(|k: ForeignKey| k@) == fks_of(keys@.take(i as int), schema@, tb@, true),
            ref_by_foreign_keys@.map_values(|k: ForeignKey| k@) == fks_of(keys@.take(i as int), schema@, tb@, false),
        decreases keys.len() - i,
    {
        assert(keys@.take(i + 1).drop_last() =~= keys@.take(i as int));
        assert(keys@.take(i + 1).last() == keys@[i as int]);
        let key = lower_fk(&keys[i]);
        if key.schema == *schema && key.tb == *tb {
            let ghost before = foreign_keys@;
            foreign_keys.push(lower_fk(&keys[i]));
            assert(foreign_keys@.map_values(|k: ForeignKey| k@) =~= before.map_values(|k: ForeignKey| k@).push(fk_lowered(keys@[i as int])));
        }
        if key.ref_schema == *schema && key.ref_tb == *tb {
            let ghost before = ref_by_foreign_keys@;
            ref_by_foreign_keys.push(key);
            assert(ref_by_foreign_keys@.map_values(|k: ForeignKey| k@) =~= before.map_values(|k: ForeignKey| k@).push(fk_lowered(keys@[i as int])));
        }
        i = i + 1;
    }
    assert(keys@.take(i as int) =~= keys@);
    (foreign_keys, ref_by_foreign_keys)
}

/// Under unique keys, the metadata cached under an entry's key is that entry's.
pub proof fn lemma_cached_meta(c: TbMetaCache, i: int)
    requires
        c.wf(),
        0 <= i < c.entries@.len(),
    ensures
        c.cached(c.entries@[i].0@),
        c.cached_meta(c.entries@[i].0@) == c.entries@[i].1,
{
    let k = c.entries@[i].0@;
    let j = choose|j: int| 0 <= j < c.entries@.len() && (#[trigger] c.entries@[j]).0@ == k;
    assert(c.entries@[j].0@ == k);
    if j != i {
        if j < i {
            assert(c.entries@[j].0@ != c.entries@[i].0@);
        } else {
            assert(c.entries@[i].0@ != c.entries@[j].0@);
        }
    }
}

/// The relation between the cache before and after invalidating `schema.tb`:
/// that table is gone; with both names given, every other table stays as it
/// was; with either name empty, nothing stays.
pub open spec fn invalidated(before: TbMetaCache, after: TbMetaCache, schema: Seq<char>, tb: Seq<char>) -> bool {
    if schema.len() > 0 && tb.len() > 0 {
        &&& forall|k: Seq<char>| after.cached(k) <==> (before.cached(k) && k != cache_key(schema, tb))
        &&& forall|k: Seq<char>| after.cached(k) ==> after.cached_meta(k) == before.cached_meta(k)
    } else {
        forall|k: Seq<char>| !after.cached(k)
    }
}

/// Metadata invalidation totality: after the metadata of `schema.tb` has been
/// invalidated, the next read of that pair misses the cache.
pub proof fn lemma_invalidation_total(before: TbMetaCache, after: TbMetaCache, schema: Seq<char>, tb: Seq<char>)
    requires
        invalidated(before, after, schema, tb),
    ensures
        !after.cached(cache_key(schema, tb)),
{
}

} // verus!
