use crate::config::DbType;
use crate::meta::{lower_of, to_lower};
use crate::text::{occurs_at, str_eq};
use vstd::prelude::*;
use vstd::string::StrSliceExecFns;

verus! {

/// A column of a table's structure.
#[derive(Clone, Debug, Default, PartialEq)]
pub struct Column {
    pub column_name: String,
    pub ordinal_position: u32,
    pub column_default: Option<String>,
    pub is_nullable: bool,
    pub column_type: String,
    pub column_key: String,
    pub extra: String,
    pub column_comment: String,
    pub character_set_name: String,
    pub collation_name: String,
}

/// A table's structure.
#[derive(Clone, Debug, Default, PartialEq)]
pub struct Table {
    pub database_name: String,
    pub schema_name: String,
    pub table_name: String,
    pub engine_name: String,
    pub table_comment: String,
    pub character_set: String,
    pub table_collation: String,
    pub columns: Vec<Column>,
}

#[derive(Clone, Copy, Debug, PartialEq, Eq, Structural)]
pub enum IndexKind {
    Index,
    Unique,
    FullText,
    Spatial,
}

/// A column of an index, with its place in the index.
#[derive(Clone, Debug, Default, PartialEq)]
pub struct IndexColumn {
    pub column_name: String,
    pub seq_in_index: u32,
}

#[derive(Clone, Debug, PartialEq)]
pub struct Index {
    pub database_name: String,
    pub schema_name: String,
    pub table_name: String,
    pub index_name: String,
    pub index_kind: IndexKind,
    pub comment: String,
    pub columns: Vec<IndexColumn>,
}

#[derive(Clone, Copy, Debug, PartialEq, Eq, Structural)]
pub enum ConstraintType {
    Primary,
    Unique,
    Check,
    Foreign,
}

#[derive(Clone, Debug, PartialEq)]
pub struct Constraint {
    pub database_name: String,
    pub schema_name: String,
    pub table_name: String,
    pub constraint_name: String,
    pub constraint_type: ConstraintType,
    pub definition: String,
}

/// The kinds of structure that a migration creates.
#[derive(Clone, Copy, Debug, PartialEq, Eq, Structural)]
pub enum StructureType {
    Table,
    Index,
    Constraint,
}

/// Which kinds of structure to create: all when the list is empty.
#[derive(Clone, Debug)]
pub struct StructureFilter {
    pub do_structures: Vec<StructureType>,
}

impl StructureFilter {
    /// Whether structures of this kind are left out.
    pub open spec fn drops(&self, t: StructureType) -> bool {
        self.do_structures@.len() > 0 && !self.do_structures@.contains(t)
    }

    pub fn filter_structure(&self, t: StructureType) -> (r: bool)
        ensures
            r == self.drops(t),
    {
        if self.do_structures.len() == 0 {
            return false;
        }
        let mut i: usize = 0;
        while i < self.do_structures.len()
            invariant
                0 <= i <= self.do_structures@.len(),
                forall|j: int| 0 <= j < i ==> self.do_structures@[j] != t,
            decreases self.do_structures.len() - i,
        {
            if self.do_structures[i] == t {
                assert(self.do_structures@.contains(t));
                return false;
            }
            i = i + 1;
        }
        true
    }
}

impl IndexKind {
    pub open spec fn sql_word(&self) -> Seq<char> {
        match self {
            IndexKind::Index => ""@,
            IndexKind::Unique => "UNIQUE"@,
            IndexKind::FullText => "FULLTEXT"@,
            IndexKind::Spatial => "SPATIAL"@,
        }
    }

    pub fn to_sql_word(&self) -> (r: &'static str)
        ensures
            r@ == self.sql_word(),
    {
        match self {
            IndexKind::Index => "",
            IndexKind::Unique => "UNIQUE",
            IndexKind::FullText => "FULLTEXT",
            IndexKind::Spatial => "SPATIAL",
        }
    }
}

impl ConstraintType {
    pub open spec fn sql_word(&self) -> Seq<char> {
        match self {
            ConstraintType::Primary => "PRIMARY KEY"@,
            ConstraintType::Unique => "UNIQUE"@,
            ConstraintType::Check => "CHECK"@,
            ConstraintType::Foreign => "FOREIGN KEY"@,
        }
    }

    /// The constraint's keyword in the SQL of `db_type`.
    pub fn to_str(&self, _db_type: DbType) -> (r: &'static str)
        ensures
            r@ == self.sql_word(),
    {
        match self {
            ConstraintType::Primary => "PRIMARY KEY",
            ConstraintType::Unique => "UNIQUE",
            ConstraintType::Check => "CHECK",
            ConstraintType::Foreign => "FOREIGN KEY",
        }
    }
}

// ---------------------------------------------------------------------------
// Stable sorts by position
// ---------------------------------------------------------------------------
/// `s` with `x` inserted after the last column whose position is not greater.
pub open spec fn col_insert(s: Seq<Column>, x: Column) -> Seq<Column>
    decreases s.len(),
{
    if s.len() == 0 || s.last().ordinal_position <= x.ordinal_position {
        s.push(x)
    } else {
        col_insert(s.drop_last(), x).push(s.last())
    }
}

/// The columns in order of their ordinal position, equal positions in their
/// original order.
pub open spec fn cols_sorted(s: Seq<Column>) -> Seq<Column>
    decreases s.len(),
{
    if s.len() == 0 {
        Seq::empty()
    } else {
        col_insert(cols_sorted(s.drop_last()), s.last())
    }
}

pub open spec fn idx_col_insert(s: Seq<IndexColumn>, x: IndexColumn) -> Seq<IndexColumn>
    decreases s.len(),
{
    if s.len() == 0 || s.last().seq_in_index <= x.seq_in_index {
        s.push(x)
    } else {
        idx_col_insert(s.drop_last(), x).push(s.last())
    }
}

/// The index columns in order of their place in the index, stably.
pub open spec fn idx_cols_sorted(s: Seq<IndexColumn>) -> Seq<IndexColumn>
    decreases s.len(),
{
    if s.len() == 0 {
        Seq::empty()
    } else {
        idx_col_insert(idx_cols_sorted(s.drop_last()), s.last())
    }
}

proof fn lemma_col_insert_at(s: Seq<Column>, x: Column, p: int)
    requires
        0 <= p <= s.len(),
        forall|j: int| p <= j < s.len() ==> (#[trigger] s[j]).ordinal_position > x.ordinal_position,
        p == 0 || s[p - 1].ordinal_position <= x.ordinal_position,
    ensures
        col_insert(s, x) == s.insert(p, x),
    decreases s.len(),
{
    if s.len() == p {
        assert(s.insert(p, x) =~= s.push(x));
    } else {
        lemma_col_insert_at(s.drop_last(), x, p);
        assert(s.drop_last().insert(p, x).push(s.last()) =~= s.insert(p, x));
    }
}

proof fn lemma_idx_col_insert_at(s: Seq<IndexColumn>, x: IndexColumn, p: int)
    requires
        0 <= p <= s.len(),
        forall|j: int| p <= j < s.len() ==> (#[trigger] s[j]).seq_in_index > x.seq_in_index,
        p == 0 || s[p - 1].seq_in_index <= x.seq_in_index,
    ensures
        idx_col_insert(s, x) == s.insert(p, x),
    decreases s.len(),
{
    if s.len() == p {
        assert(s.insert(p, x) =~= s.push(x));
    } else {
        lemma_idx_col_insert_at(s.drop_last(), x, p);
        assert(s.drop_last().insert(p, x).push(s.last()) =~= s.insert(p, x));
    }
}

fn sort_columns(columns: &mut Vec<Column>)
    ensures
        final(columns)@ == cols_sorted(old(columns)@),
{
    let ghost orig = columns@;
    let mut src: Vec<Column> = Vec::new();
    std::mem::swap(&mut src, columns);
    let n: usize = src.len();
    let mut rev: Vec<Column> = Vec::new();
    while src.len() > 0
        invariant
            n == orig.len(),
            src@ == orig.take(src@.len() as int),
            src@.len() + rev@.len() == n,
            forall|j: int| 0 <= j < rev@.len() ==> #[trigger] rev@[j] == orig[n - 1 - j],
        decreases src.len(),
    {
        let c = src.pop().unwrap();
        rev.push(c);
        assert(src@ =~= orig.take(src@.len() as int));
    }
    let mut out: Vec<Column> = Vec::new();
    let mut i: usize = 0;
    while rev.len() > 0
        invariant
            n == orig.len(),
            i + rev@.len() == n,
            forall|j: int| 0 <= j < rev@.len() ==> #[trigger] rev@[j] == orig[n - 1 - j],
            out@ == cols_sorted(orig.take(i as int)),
            out@.len() == i,
        decreases rev.len(),
    {
        let x = rev.pop().unwrap();
        assert(x == orig[i as int]);
        assert(orig.take(i + 1).drop_last() =~= orig.take(i as int));
        let mut p: usize = out.len();
        while p > 0 && out[p - 1].ordinal_position > x.ordinal_position
            invariant
                0 <= p <= out@.len(),
                forall|j: int| p <= j < out@.len() ==> (#[trigger] out@[j]).ordinal_position > x.ordinal_position,
            decreases p,
        {
            p = p - 1;
        }
        proof {
            lemma_col_insert_at(out@, x, p as int);
        }
        out.insert(p, x);
        i = i + 1;
    }
    assert(orig.take(n as int) =~= orig);
    *columns = out;
}

fn sort_index_columns(columns: &mut Vec<IndexColumn>)
    ensures
        final(columns)@ == idx_cols_sorted(old(columns)@),
{
    let ghost orig = columns@;
    let mut src: Vec<IndexColumn> = Vec::new();
    std::mem::swap(&mut src, columns);
    let n: usize = src.len();
    let mut rev: Vec<IndexColumn> = Vec::new();
    while src.len() > 0
        invariant
            n == orig.len(),
            src@ == orig.take(src@.len() as int),
            src@.len() + rev@.len() == n,
            forall|j: int| 0 <= j < rev@.len() ==> #[trigger] rev@[j] == orig[n - 1 - j],
        decreases src.len(),
    {
        let c = src.pop().unwrap();
        rev.push(c);
        assert(src@ =~= orig.take(src@.len() as int));
    }
    let mut out: Vec<IndexColumn> = Vec::new();
    let mut i: usize = 0;
    while rev.len() > 0
        invariant
            n == orig.len(),
            i + rev@.len() == n,
            forall|j: int| 0 <= j < rev@.len() ==> #[trigger] rev@[j] == orig[n - 1 - j],
            out@ == idx_cols_sorted(orig.take(i as int)),
            out@.len() == i,
        decreases rev.len(),
    {
        let x = rev.pop().unwrap();
        assert(x == orig[i as int]);
        assert(orig.take(i + 1).drop_last() =~= orig.take(i as int));
        let mut p: usize = out.len();
        while p > 0 && out[p - 1].seq_in_index > x.seq_in_index
            invariant
                0 <= p <= out@.len(),
                forall|j: int| p <= j < out@.len() ==> (#[trigger] out@[j]).seq_in_index > x.seq_in_index,
            decreases p,
        {
            p = p - 1;
        }
        proof {
            lemma_idx_col_insert_at(out@, x, p as int);
        }
        out.insert(p, x);
        i = i + 1;
    }
    assert(orig.take(n as int) =~= orig);
    *columns = out;
}

// ---------------------------------------------------------------------------
// SQL text
// ---------------------------------------------------------------------------
/// `s` with every occurrence of `p` removed, scanning left to right.
pub open spec fn remove_all(s: Seq<char>, p: Seq<char>) -> Seq<char>
    decreases s.len(),
{
    if s.len() == 0 || p.len() == 0 {
        s
    } else if occurs_at(s, p, 0) {
        remove_all(s.subrange(p.len() as int, s.len() as int), p)
    } else {
        seq![s[0]] + remove_all(s.drop_first(), p)
    }
}

/// Whether `s` starts with `p`.
pub open spec fn starts_with(s: Seq<char>, p: Seq<char>) -> bool {
    occurs_at(s, p, 0)
}

pub open spec fn col_charset_sql(c: Column) -> Seq<char> {
    if c.character_set_name@.len() > 0 { "CHARACTER SET "@ + c.character_set_name@ + " "@ } else { ""@ }
}

pub open spec fn col_collate_sql(c: Column) -> Seq<char> {
    if c.collation_name@.len() > 0 { "COLLATE "@ + c.collation_name@ + " "@ } else { ""@ }
}

/// A default that starts with `current_` (in any case) is an expression and is
/// not quoted.
pub open spec fn col_default_sql(c: Column) -> Seq<char> {
    match c.column_default {
        Some(v) => if starts_with(lower_of(v@), "current_"@) {
            "DEFAULT "@ + v@ + " "@
        } else {
            "DEFAULT '"@ + v@ + "' "@
        },
        None => ""@,
    }
}

pub open spec fn col_extra_sql(c: Column) -> Seq<char> {
    if c.extra@.len() > 0 { remove_all(c.extra@, "DEFAULT_GENERATED"@) + " "@ } else { ""@ }
}

pub open spec fn col_comment_sql(c: Column) -> Seq<char> {
    if c.column_comment@.len() > 0 { "COMMENT '"@ + c.column_comment@ + "' "@ } else { ""@ }
}

pub open spec fn col_null_sql(c: Column) -> Seq<char> {
    if !c.is_nullable { "NOT NULL "@ } else { "NULL "@ }
}

/// The definition of one column, followed by a comma.
pub open spec fn column_sql(c: Column) -> Seq<char> {
    "`"@ + c.column_name@ + "` "@ + c.column_type@ + " "@ + col_charset_sql(c) + col_collate_sql(c) + col_default_sql(c)
        + col_extra_sql(c) + col_comment_sql(c) + col_null_sql(c) + " "@ + ","@
}

fn append_opt(sql: &mut String, show: bool, a: &str, b: &str, c: &str)
    ensures
        final(sql)@ == old(sql)@ + if show { a@ + b@ + c@ } else { ""@ },
{
    proof {
        reveal_strlit("");
    }
    if show {
        sql.append(a);
        sql.append(b);
        sql.append(c);
        assert(sql@ =~= old(sql)@ + (a@ + b@ + c@));
    } else {
        assert(sql@ =~= old(sql)@ + ""@);
    }
}

fn append_default_sql(sql: &mut String, c: &Column)
    ensures
        final(sql)@ == old(sql)@ + col_default_sql(*c),
{
    proof {
        reveal_strlit("");
    }
    match &c.column_default {
        Some(v) => {
            let expr = starts_with_exec(to_lower(v.as_str()).as_str(), "current_");
            if expr {
                append_opt(sql, true, "DEFAULT ", v.as_str(), " ");
            } else {
                append_opt(sql, true, "DEFAULT '", v.as_str(), "' ");
            }
        },
        None => {
            assert(sql@ =~= old(sql)@ + ""@);
        },
    }
}

fn append_extra_sql(sql: &mut String, c: &Column)
    ensures
        final(sql)@ == old(sql)@ + col_extra_sql(*c),
{
    proof {
        reveal_strlit("");
    }
    if c.extra.as_str().unicode_len() > 0 {
        let e = remove_all_exec(c.extra.as_str(), "DEFAULT_GENERATED");
        append_opt(sql, true, e.as_str(), " ", "");
        assert(e@ + " "@ + ""@ =~= e@ + " "@);
    } else {
        assert(sql@ =~= old(sql)@ + ""@);
    }
}

fn append_column_sql(sql: &mut String, c: &Column)
    ensures
        final(sql)@ == old(sql)@ + column_sql(*c),
{
    let ghost s0 = sql@;
    sql.append("`");
    sql.append(c.column_name.as_str());
    sql.append("` ");
    sql.append(c.column_type.as_str());
    sql.append(" ");
    let ghost p1 = "`"@ + c.column_name@ + "` "@ + c.column_type@ + " "@;
    assert(sql@ =~= s0 + p1);
    append_opt(sql, c.character_set_name.as_str().unicode_len() > 0, "CHARACTER SET ", c.character_set_name.as_str(), " ");
    let ghost p2 = p1 + col_charset_sql(*c);
    proof {
        vstd::seq_lib::lemma_concat_associative(s0, p1, col_charset_sql(*c));
    }
    append_opt(sql, c.collation_name.as_str().unicode_len() > 0, "COLLATE ", c.collation_name.as_str(), " ");
    let ghost p3 = p2 + col_collate_sql(*c);
    proof {
        vstd::seq_lib::lemma_concat_associative(s0, p2, col_collate_sql(*c));
    }
    append_default_sql(sql, c);
    let ghost p4 = p3 + col_default_sql(*c);
    proof {
        vstd::seq_lib::lemma_concat_associative(s0, p3, col_default_sql(*c));
    }
    append_extra_sql(sql, c);
    let ghost p5 = p4 + col_extra_sql(*c);
    proof {
        vstd::seq_lib::lemma_concat_associative(s0, p4, col_extra_sql(*c));
    }
    append_opt(sql, c.column_comment.as_str().unicode_len() > 0, "COMMENT '", c.column_comment.as_str(), "' ");
    let ghost p6 = p5 + col_comment_sql(*c);
    proof {
        vstd::seq_lib::lemma_concat_associative(s0, p5, col_comment_sql(*c));
    }
    let ghost s6 = sql@;
    if !c.is_nullable {
        sql.append("NOT NULL ");
    } else {
        sql.append("NULL ");
    }
    let ghost p7 = p6 + col_null_sql(*c);
    proof {
        vstd::seq_lib::lemma_concat_associative(s0, p6, col_null_sql(*c));
    }
    sql.append(" ");
    let ghost p8 = p7 + " "@;
    proof {
        vstd::seq_lib::lemma_concat_associative(s0, p7, " "@);
    }
    sql.append(",");
    proof {
        vstd::seq_lib::lemma_concat_associative(s0, p8, ","@);
    }
}

/// The definitions of the columns, each followed by a comma.
pub open spec fn columns_sql_raw(cols: Seq<Column>) -> Seq<char>
    decreases cols.len(),
{
    if cols.len() == 0 {
        Seq::empty()
    } else {
        columns_sql_raw(cols.drop_last()) + column_sql(cols.last())
    }
}

/// The names of the primary-key columns, in order.
pub open spec fn pk_names(cols: Seq<Column>) -> Seq<Seq<char>>
    decreases cols.len(),
{
    if cols.len() == 0 {
        Seq::empty()
    } else if cols.last().column_key@ == "PRI"@ {
        pk_names(cols.drop_last()).push(cols.last().column_name@)
    } else {
        pk_names(cols.drop_last())
    }
}

/// `s` without one trailing comma.
pub open spec fn drop_trailing_comma(s: Seq<char>) -> Seq<char> {
    if s.len() > 0 && s.last() == ',' {
        s.drop_last()
    } else {
        s
    }
}

/// Names in backquotes, joined by commas.
pub open spec fn quoted_list(names: Seq<Seq<char>>) -> Seq<char>
    decreases names.len(),
{
    if names.len() == 0 {
        Seq::empty()
    } else if names.len() == 1 {
        "`"@ + names[0] + "`"@
    } else {
        quoted_list(names.drop_last()) + ","@ + "`"@ + names.last() + "`"@
    }
}

pub open spec fn table_sql(t: Table, sorted: Seq<Column>) -> Seq<char> {
    let pks = pk_names(sorted);
    let pk = if pks.len() > 0 { ", PRIMARY KEY ("@ + quoted_list(pks) + ")"@ } else { ""@ };
    let base = "CREATE TABLE IF NOT EXISTS `"@ + t.database_name@ + "`.`"@ + t.table_name@ + "` ("@
        + drop_trailing_comma(columns_sql_raw(sorted)) + pk + ")"@;
    let e = if t.engine_name@.len() > 0 { base + " ENGINE="@ + t.engine_name@ + " "@ } else { base };
    let c = if t.character_set@.len() > 0 { e + " DEFAULT CHARSET="@ + t.character_set@ } else { e };
    let l = if t.table_collation@.len() > 0 { c + " COLLATE="@ + t.table_collation@ } else { c };
    if t.table_comment@.len() > 0 { l + " COMMENT='"@ + t.table_comment@ + "'"@ } else { l }
}

/// The names of the index columns that are not empty, in order.
pub open spec fn index_col_names(cols: Seq<IndexColumn>) -> Seq<Seq<char>>
    decreases cols.len(),
{
    if cols.len() == 0 {
        Seq::empty()
    } else if cols.last().column_name@.len() > 0 {
        index_col_names(cols.drop_last()).push(cols.last().column_name@)
    } else {
        index_col_names(cols.drop_last())
    }
}

pub open spec fn index_sql(i: Index, sorted: Seq<IndexColumn>) -> Seq<char> {
    let base = "CREATE "@ + i.index_kind.sql_word() + " INDEX `"@ + i.index_name@ + "` ON `"@ + i.database_name@ + "`.`"@
        + i.table_name@ + "` ("@ + quoted_list(index_col_names(sorted)) + ") "@;
    if i.comment@.len() > 0 { base + "COMMENT '"@ + i.comment@ + "' "@ } else { base }
}

pub open spec fn constraint_sql(c: Constraint) -> Seq<char> {
    "ALTER TABLE `"@ + c.database_name@ + "`.`"@ + c.table_name@ + "` ADD CONSTRAINT `"@ + c.constraint_name@ + "` "@
        + c.constraint_type.sql_word() + " "@ + c.definition@ + " "@
}

fn remove_all_exec(s: &str, p: &str) -> (r: String)
    ensures
        r@ == remove_all(s@, p@),
{
    let n = s.unicode_len();
    let m = p.unicode_len();
    if m == 0 {
        return s.to_owned();
    }
    let mut out = String::new();
    let mut i: usize = 0;
    assert(s@.subrange(0, n as int) =~= s@);
    while i < n
        invariant
            n == s@.len(),
            m == p@.len(),
            m > 0,
            i <= n,
            out@ + remove_all(s@.subrange(i as int, n as int), p@) == remove_all(s@, p@),
        decreases n - i,
    {
        let ghost rest = s@.subrange(i as int, n as int);
        if m <= n - i && str_eq(s.substring_char(i, i + m), p) {
            assert(occurs_at(rest, p@, 0)) by {
                assert(rest.subrange(0, m as int) =~= s@.subrange(i as int, i + m));
            }
            assert(rest.subrange(m as int, rest.len() as int) =~= s@.subrange(i + m, n as int));
            i = i + m;
        } else {
            assert(!occurs_at(rest, p@, 0)) by {
                if occurs_at(rest, p@, 0) {
                    assert(rest.subrange(0, m as int) =~= s@.subrange(i as int, i + m));
                }
            }
            assert(rest.drop_first() =~= s@.subrange(i + 1, n as int));
            let ghost before = out@;
            out.append(s.substring_char(i, i + 1));
            assert(s@.subrange(i as int, i + 1) =~= seq![rest[0]]);
            assert(before + (seq![rest[0]] + remove_all(rest.drop_first(), p@)) =~= out@ + remove_all(rest.drop_first(), p@));
            i = i + 1;
        }
    }
    assert(s@.subrange(n as int, n as int) =~= Seq::<char>::empty());
    assert(out@ + Seq::<char>::empty() =~= out@);
    out
}

fn starts_with_exec(s: &str, p: &str) -> (r: bool)
    ensures
        r == starts_with(s@, p@),
{
    let n = s.unicode_len();
    let m = p.unicode_len();
    if m > n {
        return false;
    }
    let r = str_eq(s.substring_char(0, m), p);
    assert(r == (s@.subrange(0, m as int) == p@));
    r
}

fn append_quoted_list(out: &mut String, names: &Vec<String>)
    ensures
        final(out)@ == old(out)@ + quoted_list(names@.map_values(|x: String| x@)),
{
    let ghost nv = names@.map_values(|x: String| x@);
    let ghost start = out@;
    let mut i: usize = 0;
    while i < names.len()
        invariant
            nv == names@.map_values(|x: String| x@),
            0 <= i <= names@.len(),
            out@ == start + quoted_list(nv.take(i as int)),
        decreases names.len() - i,
    {
        let ghost prev = nv.take(i as int);
        assert(nv.take(i + 1).drop_last() =~= prev);
        assert(nv.take(i + 1).last() == names@[i as int]@);
        if i > 0 {
            out.append(",");
        }
        out.append("`");
        out.append(names[i].as_str());
        out.append("`");
        proof {
            if i == 0 {
                assert(nv.take(1)[0] == names@[0]@);
                assert(prev =~= Seq::<Seq<char>>::empty());
            }
        }
        i = i + 1;
    }
    assert(nv.take(i as int) =~= nv);
}

fn strings_push(v: &mut Vec<String>, s: String)
    ensures
        final(v)@.map_values(|x: String| x@) == old(v)@.map_values(|x: String| x@).push(s@),
{
    let ghost sv = s@;
    v.push(s);
    assert(v@.map_values(|x: String| x@) =~= old(v)@.map_values(|x: String| x@).push(sv));
}

/// A `CREATE TABLE` statement with its indexes and constraints, as read from
/// the source.
#[derive(Clone, Debug)]
pub struct MysqlCreateTableStatement {
    pub table: Table,
    pub constraints: Vec<Constraint>,
    pub indexes: Vec<Index>,
}

/// What `to_sqls` returns: keyed statements for the table, its indexes and its
/// constraints, leaving out the kinds that the filter drops.
pub open spec fn sqls_of(t: Table, sorted_cols: Seq<Column>, indexes: Seq<Index>, constraints: Seq<Constraint>, f: StructureFilter) -> Seq<(Seq<char>, Seq<char>)> {
    let tables = if !f.drops(StructureType::Table) {
        seq![("table."@ + t.database_name@ + "."@ + t.table_name@, table_sql(t, sorted_cols))]
    } else {
        Seq::empty()
    };
    tables + index_sqls(indexes, f) + if !f.drops(StructureType::Constraint) {
        constraint_sqls(constraints)
    } else {
        Seq::empty()
    }
}

/// The statements of the indexes that the filter keeps (a unique index goes with
/// the table), with their columns sorted.
pub open spec fn index_sqls(indexes: Seq<Index>, f: StructureFilter) -> Seq<(Seq<char>, Seq<char>)>
    decreases indexes.len(),
{
    if indexes.len() == 0 {
        Seq::empty()
    } else {
        let prev = index_sqls(indexes.drop_last(), f);
        let i = indexes.last();
        let kind = if i.index_kind == IndexKind::Unique { StructureType::Table } else { StructureType::Index };
        if f.drops(kind) {
            prev
        } else {
            prev.push(
                (
                    "index."@ + i.database_name@ + "."@ + i.table_name@ + "."@ + i.index_name@,
                    index_sql(i, idx_cols_sorted(i.columns@)),
                ),
            )
        }
    }
}

pub open spec fn constraint_sqls(cs: Seq<Constraint>) -> Seq<(Seq<char>, Seq<char>)>
    decreases cs.len(),
{
    if cs.len() == 0 {
        Seq::empty()
    } else {
        let c = cs.last();
        constraint_sqls(cs.drop_last()).push(
            ("constraint."@ + c.database_name@ + "."@ + c.table_name@ + "."@ + c.constraint_name@, constraint_sql(c)),
        )
    }
}

pub open spec fn pairs_view(v: Seq<(String, String)>) -> Seq<(Seq<char>, Seq<char>)> {
    v.map_values(|p: (String, String)| (p.0@, p.1@))
}

impl MysqlCreateTableStatement {
    /// Points the table, its indexes and its constraints at `dst_db.dst_tb`.
    pub fn route(&mut self, dst_db: &str, dst_tb: &str)
        ensures
            final(self).table.database_name@ == dst_db@,
            final(self).table.table_name@ == dst_tb@,
            final(self).table == (Table { database_name: final(self).table.database_name, table_name: final(self).table.table_name, ..old(self).table }),
            final(self).indexes@.len() == old(self).indexes@.len(),
            forall|i: int|
                0 <= i < final(self).indexes@.len() ==> {
                    let n = #[trigger] final(self).indexes@[i];
                    let o = old(self).indexes@[i];
                    &&& n.database_name@ == dst_db@
                    &&& n.table_name@ == dst_tb@
                    &&& n == Index { database_name: n.database_name, table_name: n.table_name, ..o }
                },
            final(self).constraints@.len() == old(self).constraints@.len(),
            forall|i: int|
                0 <= i < final(self).constraints@.len() ==> {
                    let n = #[trigger] final(self).constraints@[i];
                    let o = old(self).constraints@[i];
                    &&& n.database_name@ == dst_db@
                    &&& n.table_name@ == dst_tb@
                    &&& n == Constraint { database_name: n.database_name, table_name: n.table_name, ..o }
                },
    {
        self.table.database_name = dst_db.to_owned();
        self.table.table_name = dst_tb.to_owned();
        let mut i: usize = 0;
        while i < self.indexes.len()
            invariant
                self.table.database_name@ == dst_db@,
                self.table.table_name@ == dst_tb@,
                self.table == (Table { database_name: self.table.database_name, table_name: self.table.table_name, ..old(self).table }),
                self.constraints == old(self).constraints,
                0 <= i <= self.indexes@.len(),
                self.indexes@.len() == old(self).indexes@.len(),
                forall|j: int|
                    0 <= j < self.indexes@.len() ==> {
                        let n = #[trigger] self.indexes@[j];
                        let o = old(self).indexes@[j];
                        if j < i {
                            &&& n.database_name@ == dst_db@
                            &&& n.table_name@ == dst_tb@
                            &&& n == Index { database_name: n.database_name, table_name: n.table_name, ..o }
                        } else {
                            n == o
                        }
                    },
            decreases self.indexes.len() - i,
        {
            let mut index = self.indexes.remove(i);
            index.database_name = dst_db.to_owned();
            index.table_name = dst_tb.to_owned();
            self.indexes.insert(i, index);
            i = i + 1;
        }
        let mut k: usize = 0;
        while k < self.constraints.len()
            invariant
                self.table.database_name@ == dst_db@,
                self.table.table_name@ == dst_tb@,
                self.table == (Table { database_name: self.table.database_name, table_name: self.table.table_name, ..old(self).table }),
                self.indexes@.len() == old(self).indexes@.len(),
                forall|j: int|
                    0 <= j < self.indexes@.len() ==> {
                        let n = #[trigger] self.indexes@[j];
                        let o = old(self).indexes@[j];
                        &&& n.database_name@ == dst_db@
                        &&& n.table_name@ == dst_tb@
                        &&& n == Index { database_name: n.database_name, table_name: n.table_name, ..o }
                    },
                0 <= k <= self.constraints@.len(),
                self.constraints@.len() == old(self).constraints@.len(),
                forall|j: int|
                    0 <= j < self.constraints@.len() ==> {
                        let n = #[trigger] self.constraints@[j];
                        let o = old(self).constraints@[j];
                        if j < k {
                            &&& n.database_name@ == dst_db@
                            &&& n.table_name@ == dst_tb@
                            &&& n == Constraint { database_name: n.database_name, table_name: n.table_name, ..o }
                        } else {
                            n == o
                        }
                    },
            decreases self.constraints.len() - k,
        {
            let mut c = self.constraints.remove(k);
            c.database_name = dst_db.to_owned();
            c.table_name = dst_tb.to_owned();
            self.constraints.insert(k, c);
            k = k + 1;
        }
    }

    /// The column definitions (sorting the columns by position) and the names
    /// of the primary-key columns.
    pub fn columns_to_sql(columns: &mut Vec<Column>) -> (r: (String, Vec<String>))
        ensures
            final(columns)@ == cols_sorted(old(columns)@),
            r.0@ == drop_trailing_comma(columns_sql_raw(final(columns)@)),
            r.1@.map_values(|x: String| x@) == pk_names(final(columns)@),
    {
        sort_columns(columns);
        let mut sql = String::new();
        let mut pks: Vec<String> = Vec::new();
        let mut i: usize = 0;
        while i < columns.len()
            invariant
                0 <= i <= columns@.len(),
                sql@ == columns_sql_raw(columns@.take(i as int)),
                pks@.map_values(|x: String| x@) == pk_names(columns@.take(i as int)),
            decreases columns.len() - i,
        {
            let c = &columns[i];
            assert(columns@.take(i + 1).drop_last() =~= columns@.take(i as int));
            assert(columns@.take(i + 1).last() == *c);
            append_column_sql(&mut sql, c);
            if str_eq(c.column_key.as_str(), "PRI") {
                strings_push(&mut pks, c.column_name.clone());
            }
            i = i + 1;
        }
        assert(columns@.take(i as int) =~= columns@);
        let n = sql.as_str().unicode_len();
        if n > 0 && sql.as_str().get_char(n - 1) == ',' {
            let trimmed = sql.as_str().substring_char(0, n - 1).to_owned();
            assert(trimmed@ =~= sql@.drop_last());
            return (trimmed, pks);
        }
        (sql, pks)
    }

    /// The `CREATE TABLE` statement (sorting the table's columns by position).
    pub fn table_to_sql(table: &mut Table) -> (r: String)
        ensures
            final(table).columns@ == cols_sorted(old(table).columns@),
            r@ == table_sql(*old(table), final(table).columns@),
            *final(table) == (Table { columns: final(table).columns, ..*old(table) }),
    {
        let (columns_sql, pks) = Self::columns_to_sql(&mut table.columns);
        let mut sql = String::new();
        sql.append("CREATE TABLE IF NOT EXISTS `");
        sql.append(table.database_name.as_str());
        sql.append("`.`");
        sql.append(table.table_name.as_str());
        sql.append("` (");
        sql.append(columns_sql.as_str());
        if pks.len() > 0 {
            sql.append(", PRIMARY KEY (");
            append_quoted_list(&mut sql, &pks);
            sql.append(")");
        }
        sql.append(")");
        if table.engine_name.as_str().unicode_len() > 0 {
            sql.append(" ENGINE=");
            sql.append(table.engine_name.as_str());
            sql.append(" ");
        }
        if table.character_set.as_str().unicode_len() > 0 {
            sql.append(" DEFAULT CHARSET=");
            sql.append(table.character_set.as_str());
        }
        if table.table_collation.as_str().unicode_len() > 0 {
            sql.append(" COLLATE=");
            sql.append(table.table_collation.as_str());
        }
        if table.table_comment.as_str().unicode_len() > 0 {
            sql.append(" COMMENT='");
            sql.append(table.table_comment.as_str());
            sql.append("'");
        }
        proof {
            reveal_strlit("");
            assert(sql@ =~= table_sql(*old(table), table.columns@));
        }
        sql
    }

    /// The `CREATE INDEX` statement (sorting the index's columns by place).
    pub fn index_to_sql(index: &mut Index) -> (r: String)
        ensures
            final(index).columns@ == idx_cols_sorted(old(index).columns@),
            r@ == index_sql(*old(index), final(index).columns@),
            *final(index) == (Index { columns: final(index).columns, ..*old(index) }),
    {
        sort_index_columns(&mut index.columns);
        let mut names: Vec<String> = Vec::new();
        let mut i: usize = 0;
        while i < index.columns.len()
            invariant
                0 <= i <= index.columns@.len(),
                names@.map_values(|x: String| x@) == index_col_names(index.columns@.take(i as int)),
            decreases index.columns.len() - i,
        {
            assert(index.columns@.take(i + 1).drop_last() =~= index.columns@.take(i as int));
            assert(index.columns@.take(i + 1).last() == index.columns@[i as int]);
            if index.columns[i].column_name.as_str().unicode_len() > 0 {
                strings_push(&mut names, index.columns[i].column_name.clone());
            }
            i = i + 1;
        }
        assert(index.columns@.take(i as int) =~= index.columns@);
        let mut sql = String::new();
        sql.append("CREATE ");
        sql.append(index.index_kind.to_sql_word());
        sql.append(" INDEX `");
        sql.append(index.index_name.as_str());
        sql.append("` ON `");
        sql.append(index.database_name.as_str());
        sql.append("`.`");
        sql.append(index.table_name.as_str());
        sql.append("` (");
        append_quoted_list(&mut sql, &names);
        sql.append(") ");
        if index.comment.as_str().unicode_len() > 0 {
            sql.append("COMMENT '");
            sql.append(index.comment.as_str());
            sql.append("' ");
        }
        proof {
            assert(sql@ =~= index_sql(*old(index), index.columns@));
        }
        sql
    }

    /// The `ALTER TABLE ... ADD CONSTRAINT` statement.
    pub fn constraint_to_sql(constraint: &Constraint) -> (r: String)
        ensures
            r@ == constraint_sql(*constraint),
    {
        let mut sql = String::new();
        sql.append("ALTER TABLE `");
        sql.append(constraint.database_name.as_str());
        sql.append("`.`");
        sql.append(constraint.table_name.as_str());
        sql.append("` ADD CONSTRAINT `");
        sql.append(constraint.constraint_name.as_str());
        sql.append("` ");
        sql.append(constraint.constraint_type.to_str(DbType::Mysql));
        sql.append(" ");
        sql.append(constraint.definition.as_str());
        sql.append(" ");
        proof {
            assert(sql@ =~= constraint_sql(*constraint));
        }
        sql
    }

    fn key3(a: &str, b: &String, c: &String) -> (r: String)
        ensures
            r@ == a@ + b@ + "."@ + c@,
    {
        let mut k = a.to_owned();
        k.append(b.as_str());
        k.append(".");
        k.append(c.as_str());
        k
    }

    /// The statements that create the table, its indexes and its constraints,
    /// each under a key naming it, leaving out the kinds the filter drops.
    pub fn to_sqls(&mut self, filter: &StructureFilter) -> (r: Vec<(String, String)>)
        ensures
            pairs_view(r@) == sqls_of(
                old(self).table,
                cols_sorted(old(self).table.columns@),
                old(self).indexes@,
                old(self).constraints@,
                *filter,
            ),
    {
        let ghost t0 = self.table;
        let ghost idx0 = self.indexes@;
        let ghost cons0 = self.constraints@;
        let mut sqls: Vec<(String, String)> = Vec::new();
        if !filter.filter_structure(StructureType::Table) {
            let key = Self::key3("table.", &self.table.database_name, &self.table.table_name);
            let sql = Self::table_to_sql(&mut self.table);
            sqls.push((key, sql));
        }
        let ghost tables = pairs_view(sqls@);
        assert(tables == if !filter.drops(StructureType::Table) {
            seq![("table."@ + t0.database_name@ + "."@ + t0.table_name@, table_sql(t0, cols_sorted(t0.columns@)))]
        } else {
            Seq::<(Seq<char>, Seq<char>)>::empty()
        }) by {
            if !filter.drops(StructureType::Table) {
                assert(tables =~= seq![("table."@ + t0.database_name@ + "."@ + t0.table_name@, table_sql(t0, cols_sorted(t0.columns@)))]);
            } else {
                assert(tables =~= Seq::<(Seq<char>, Seq<char>)>::empty());
            }
        }
        let mut i: usize = 0;
        while i < self.indexes.len()
            invariant
                self.constraints@ == cons0,
                0 <= i <= self.indexes@.len(),
                self.indexes@.len() == idx0.len(),
                forall|j: int| i <= j < idx0.len() ==> #[trigger] self.indexes@[j] == idx0[j],
                pairs_view(sqls@) == tables + index_sqls(idx0.take(i as int), *filter),
            decreases self.indexes.len() - i,
        {
            assert(idx0.take(i + 1).drop_last() =~= idx0.take(i as int));
            assert(idx0.take(i + 1).last() == idx0[i as int]);
            let mut index = self.indexes.remove(i);
            let kind = match index.index_kind {
                IndexKind::Unique => StructureType::Table,
                _ => StructureType::Index,
            };
            if !filter.filter_structure(kind) {
                let mut key = Self::key3("index.", &index.database_name, &index.table_name);
                key.append(".");
                key.append(index.index_name.as_str());
                let sql = Self::index_to_sql(&mut index);
                let ghost before = sqls@;
                sqls.push((key, sql));
                assert(pairs_view(sqls@) =~= pairs_view(before).push((pairs_view(sqls@).last().0, pairs_view(sqls@).last().1)));
            }
            self.indexes.insert(i, index);
            i = i + 1;
        }
        assert(idx0.take(i as int) =~= idx0);
        let ghost with_indexes = pairs_view(sqls@);
        if !filter.filter_structure(StructureType::Constraint) {
            let mut k: usize = 0;
            while k < self.constraints.len()
                invariant
                    0 <= k <= self.constraints@.len(),
                    self.constraints@ == cons0,
                    pairs_view(sqls@) == with_indexes + constraint_sqls(cons0.take(k as int)),
                decreases self.constraints.len() - k,
            {
                assert(cons0.take(k + 1).drop_last() =~= cons0.take(k as int));
                assert(cons0.take(k + 1).last() == cons0[k as int]);
                let c = &self.constraints[k];
                let mut key = Self::key3("constraint.", &c.database_name, &c.table_name);
                key.append(".");
                key.append(c.constraint_name.as_str());
                let sql = Self::constraint_to_sql(c);
                let ghost before = sqls@;
                sqls.push((key, sql));
                assert(pairs_view(sqls@) =~= pairs_view(before).push((pairs_view(sqls@).last().0, pairs_view(sqls@).last().1)));
                k = k + 1;
            }
            assert(cons0.take(k as int) =~= cons0);
        } else {
            assert(with_indexes =~= with_indexes + Seq::<(Seq<char>, Seq<char>)>::empty());
        }
        sqls
    }
}

} // verus!
