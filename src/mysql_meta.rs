use crate::error::Error;
use crate::meta::{classify_foreign_keys, fks_of, is_chosen_key, opt_str_view, order_col_of, lower_of, to_lower, ForeignKey, RdbTbMeta};
use crate::text::{seq_contains, split_char, str_contains, str_eq, trim_char, trim_end_char, trim_start_all, type_items};
use vstd::prelude::*;

verus! {

/// The rich type of a MySQL column. The items of an `enum` are listed in order;
/// the items of a `set` too, the i-th item standing for bit `1 << i`.
#[derive(Clone, Debug, PartialEq)]
pub enum MysqlColType {
    TinyInt { unsigned: bool },
    SmallInt { unsigned: bool },
    MediumInt { unsigned: bool },
    Int { unsigned: bool },
    BigInt { unsigned: bool },
    VarBinary { length: u16 },
    Binary { length: u8 },
    Char { length: u64, charset: String },
    Varchar { length: u64, charset: String },
    TinyText { length: u64, charset: String },
    MediumText { length: u64, charset: String },
    LongText { length: u64, charset: String },
    Text { length: u64, charset: String },
    Timestamp { timezone_offset: i64 },
    TinyBlob,
    MediumBlob,
    LongBlob,
    Blob,
    Float,
    Double,
    Decimal { precision: u32, scale: u32 },
    Enum { items: Vec<String> },
    SetOf { items: Vec<String> },
    DateTime,
    Date,
    Time,
    Year,
    Bit,
    Json,
    Unknown,
}

pub enum MysqlColTypeView {
    TinyInt { unsigned: bool },
    SmallInt { unsigned: bool },
    MediumInt { unsigned: bool },
    Int { unsigned: bool },
    BigInt { unsigned: bool },
    VarBinary { length: u16 },
    Binary { length: u8 },
    Char { length: u64, charset: Seq<char> },
    Varchar { length: u64, charset: Seq<char> },
    TinyText { length: u64, charset: Seq<char> },
    MediumText { length: u64, charset: Seq<char> },
    LongText { length: u64, charset: Seq<char> },
    Text { length: u64, charset: Seq<char> },
    Timestamp { timezone_offset: i64 },
    TinyBlob,
    MediumBlob,
    LongBlob,
    Blob,
    Float,
    Double,
    Decimal { precision: u32, scale: u32 },
    Enum { items: Seq<Seq<char>> },
    SetOf { items: Seq<Seq<char>> },
    DateTime,
    Date,
    Time,
    Year,
    Bit,
    Json,
    Unknown,
}

pub open spec fn strings_view(v: Seq<String>) -> Seq<Seq<char>> {
    v.map_values(|s: String| s@)
}

impl View for MysqlColType {
    type V = MysqlColTypeView;

    open spec fn view(&self) -> MysqlColTypeView {
        match self {
            MysqlColType::TinyInt { unsigned } => MysqlColTypeView::TinyInt { unsigned: *unsigned },
            MysqlColType::SmallInt { unsigned } => MysqlColTypeView::SmallInt { unsigned: *unsigned },
            MysqlColType::MediumInt { unsigned } => MysqlColTypeView::MediumInt { unsigned: *unsigned },
            MysqlColType::Int { unsigned } => MysqlColTypeView::Int { unsigned: *unsigned },
            MysqlColType::BigInt { unsigned } => MysqlColTypeView::BigInt { unsigned: *unsigned },
            MysqlColType::VarBinary { length } => MysqlColTypeView::VarBinary { length: *length },
            MysqlColType::Binary { length } => MysqlColTypeView::Binary { length: *length },
            MysqlColType::Char { length, charset } => MysqlColTypeView::Char { length: *length, charset: charset@ },
            MysqlColType::Varchar { length, charset } => MysqlColTypeView::Varchar { length: *length, charset: charset@ },
            MysqlColType::TinyText { length, charset } => MysqlColTypeView::TinyText { length: *length, charset: charset@ },
            MysqlColType::MediumText { length, charset } => MysqlColTypeView::MediumText { length: *length, charset: charset@ },
            MysqlColType::LongText { length, charset } => MysqlColTypeView::LongText { length: *length, charset: charset@ },
            MysqlColType::Text { length, charset } => MysqlColTypeView::Text { length: *length, charset: charset@ },
            MysqlColType::Timestamp { timezone_offset } => MysqlColTypeView::Timestamp { timezone_offset: *timezone_offset },
            MysqlColType::TinyBlob => MysqlColTypeView::TinyBlob,
            MysqlColType::MediumBlob => MysqlColTypeView::MediumBlob,
            MysqlColType::LongBlob => MysqlColTypeView::LongBlob,
            MysqlColType::Blob => MysqlColTypeView::Blob,
            MysqlColType::Float => MysqlColTypeView::Float,
            MysqlColType::Double => MysqlColTypeView::Double,
            MysqlColType::Decimal { precision, scale } => MysqlColTypeView::Decimal { precision: *precision, scale: *scale },
            MysqlColType::Enum { items } => MysqlColTypeView::Enum { items: strings_view(items@) },
            MysqlColType::SetOf { items } => MysqlColTypeView::SetOf { items: strings_view(items@) },
            MysqlColType::DateTime => MysqlColTypeView::DateTime,
            MysqlColType::Date => MysqlColTypeView::Date,
            MysqlColType::Time => MysqlColTypeView::Time,
            MysqlColType::Year => MysqlColTypeView::Year,
            MysqlColType::Bit => MysqlColTypeView::Bit,
            MysqlColType::Json => MysqlColTypeView::Json,
            MysqlColType::Unknown => MysqlColTypeView::Unknown,
        }
    }
}

/// What `information_schema.columns` says of one column.
#[derive(Clone, Debug, PartialEq)]
pub struct ColumnTypeRow {
    pub column_type: String,
    pub data_type: String,
    pub character_maximum_length: Option<u64>,
    pub character_set_name: Option<String>,
    pub numeric_precision: Option<u64>,
    pub numeric_scale: Option<u64>,
}

/// The items listed in a column type such as `enum('a','b')`, after the
/// leading `prefix`: split at commas, each without its quotes.
pub open spec fn listed_items(column_type: Seq<char>, prefix: Seq<char>) -> Seq<Seq<char>> {
    let sp = split_char(trim_end_char(trim_start_all(column_type, prefix), ')'), ',');
    Seq::new(sp.len(), |i: int| trim_char(sp[i], '\''))
}

pub open spec fn u64_or_zero(v: Option<u64>) -> u64 {
    match v {
        Some(x) => x,
        None => 0,
    }
}

pub open spec fn charset_of(v: Option<String>) -> Seq<char> {
    match v {
        Some(s) => s@,
        None => Seq::empty(),
    }
}

/// The rich type of a column: by its data type, with `unsigned` read from the
/// lower-cased column type, lengths and charsets from the row, and the items of
/// an enum or a set from the column type.
pub open spec fn col_type_of(row: ColumnTypeRow) -> MysqlColTypeView {
    let dt = row.data_type@;
    let unsigned = seq_contains(lower_of(row.column_type@), "unsigned"@);
    let length = u64_or_zero(row.character_maximum_length);
    let charset = charset_of(row.character_set_name);
    if dt == "tinyint"@ {
        MysqlColTypeView::TinyInt { unsigned }
    } else if dt == "smallint"@ {
        MysqlColTypeView::SmallInt { unsigned }
    } else if dt == "bigint"@ {
        MysqlColTypeView::BigInt { unsigned }
    } else if dt == "mediumint"@ {
        MysqlColTypeView::MediumInt { unsigned }
    } else if dt == "int"@ {
        MysqlColTypeView::Int { unsigned }
    } else if dt == "varbinary"@ {
        MysqlColTypeView::VarBinary { length: length as u16 }
    } else if dt == "binary"@ {
        MysqlColTypeView::Binary { length: length as u8 }
    } else if dt == "char"@ {
        MysqlColTypeView::Char { length, charset }
    } else if dt == "varchar"@ {
        MysqlColTypeView::Varchar { length, charset }
    } else if dt == "tinytext"@ {
        MysqlColTypeView::TinyText { length, charset }
    } else if dt == "mediumtext"@ {
        MysqlColTypeView::MediumText { length, charset }
    } else if dt == "longtext"@ {
        MysqlColTypeView::LongText { length, charset }
    } else if dt == "text"@ {
        MysqlColTypeView::Text { length, charset }
    } else if dt == "timestamp"@ {
        MysqlColTypeView::Timestamp { timezone_offset: 0 }
    } else if dt == "tinyblob"@ {
        MysqlColTypeView::TinyBlob
    } else if dt == "mediumblob"@ {
        MysqlColTypeView::MediumBlob
    } else if dt == "longblob"@ {
        MysqlColTypeView::LongBlob
    } else if dt == "blob"@ {
        MysqlColTypeView::Blob
    } else if dt == "float"@ {
        MysqlColTypeView::Float
    } else if dt == "double"@ {
        MysqlColTypeView::Double
    } else if dt == "decimal"@ {
        MysqlColTypeView::Decimal {
            precision: u64_or_zero(row.numeric_precision) as u32,
            scale: u64_or_zero(row.numeric_scale) as u32,
        }
    } else if dt == "enum"@ {
        MysqlColTypeView::Enum { items: listed_items(row.column_type@, "enum("@) }
    } else if dt == "set"@ {
        MysqlColTypeView::SetOf { items: listed_items(row.column_type@, "set("@) }
    } else if dt == "datetime"@ {
        MysqlColTypeView::DateTime
    } else if dt == "date"@ {
        MysqlColTypeView::Date
    } else if dt == "time"@ {
        MysqlColTypeView::Time
    } else if dt == "year"@ {
        MysqlColTypeView::Year
    } else if dt == "bit"@ {
        MysqlColTypeView::Bit
    } else if dt == "json"@ {
        MysqlColTypeView::Json
    } else {
        MysqlColTypeView::Unknown
    }
}

fn items(column_type: &String, prefix: &str) -> (r: Vec<String>)
    ensures
        strings_view(r@) == listed_items(column_type@, prefix@),
{
    let r = type_items(column_type.as_str(), prefix, ')', ',', '\'');
    assert(strings_view(r@) =~= listed_items(column_type@, prefix@));
    r
}

/// The original data type and the rich type of a column.
pub fn get_col_type(row: &ColumnTypeRow) -> (r: (String, MysqlColType))
    ensures
        r.0@ == row.data_type@,
        r.1@ == col_type_of(*row),
{
    let dt = row.data_type.as_str();
    let unsigned = str_contains(to_lower(row.column_type.as_str()).as_str(), "unsigned");
    let length: u64 = match row.character_maximum_length {
        Some(x) => x,
        None => 0,
    };
    let charset: String = match &row.character_set_name {
        Some(s) => s.clone(),
        None => String::new(),
    };
    let col_type = if str_eq(dt, "tinyint") {
        MysqlColType::TinyInt { unsigned }
    } else if str_eq(dt, "smallint") {
        MysqlColType::SmallInt { unsigned }
    } else if str_eq(dt, "bigint") {
        MysqlColType::BigInt { unsigned }
    } else if str_eq(dt, "mediumint") {
        MysqlColType::MediumInt { unsigned }
    } else if str_eq(dt, "int") {
        MysqlColType::Int { unsigned }
    } else if str_eq(dt, "varbinary") {
        MysqlColType::VarBinary { length: length as u16 }
    } else if str_eq(dt, "binary") {
        MysqlColType::Binary { length: length as u8 }
    } else if str_eq(dt, "char") {
        MysqlColType::Char { length, charset }
    } else if str_eq(dt, "varchar") {
        MysqlColType::Varchar { length, charset }
    } else if str_eq(dt, "tinytext") {
        MysqlColType::TinyText { length, charset }
    } else if str_eq(dt, "mediumtext") {
        MysqlColType::MediumText { length, charset }
    } else if str_eq(dt, "longtext") {
        MysqlColType::LongText { length, charset }
    } else if str_eq(dt, "text") {
        MysqlColType::Text { length, charset }
    } else if str_eq(dt, "timestamp") {
        // the client session is in UTC: timestamps travel as UTC
        MysqlColType::Timestamp { timezone_offset: 0 }
    } else if str_eq(dt, "tinyblob") {
        MysqlColType::TinyBlob
    } else if str_eq(dt, "mediumblob") {
        MysqlColType::MediumBlob
    } else if str_eq(dt, "longblob") {
        MysqlColType::LongBlob
    } else if str_eq(dt, "blob") {
        MysqlColType::Blob
    } else if str_eq(dt, "float") {
        MysqlColType::Float
    } else if str_eq(dt, "double") {
        MysqlColType::Double
    } else if str_eq(dt, "decimal") {
        let precision: u64 = match row.numeric_precision {
            Some(x) => x,
            None => 0,
        };
        let scale: u64 = match row.numeric_scale {
            Some(x) => x,
            None => 0,
        };
        MysqlColType::Decimal { precision: precision as u32, scale: scale as u32 }
    } else if str_eq(dt, "enum") {
        MysqlColType::Enum { items: items(&row.column_type, "enum(") }
    } else if str_eq(dt, "set") {
        MysqlColType::SetOf { items: items(&row.column_type, "set(") }
    } else if str_eq(dt, "datetime") {
        MysqlColType::DateTime
    } else if str_eq(dt, "date") {
        MysqlColType::Date
    } else if str_eq(dt, "time") {
        MysqlColType::Time
    } else if str_eq(dt, "year") {
        MysqlColType::Year
    } else if str_eq(dt, "bit") {
        MysqlColType::Bit
    } else if str_eq(dt, "json") {
        MysqlColType::Json
    } else {
        MysqlColType::Unknown
    };
    (row.data_type.clone(), col_type)
}

/// A row of `SHOW INDEXES`: one column of one index.
#[derive(Clone, Debug, PartialEq)]
pub struct IndexRow {
    pub non_unique: i8,
    pub key_name: String,
    pub column_name: String,
}

/// The lower-cased columns of unique index `name` (lower-cased), in the order
/// of the rows.
pub open spec fn key_cols_of(rows: Seq<IndexRow>, name: Seq<char>) -> Seq<Seq<char>>
    decreases rows.len(),
{
    if rows.len() == 0 {
        Seq::empty()
    } else {
        let prev = key_cols_of(rows.drop_last(), name);
        let r = rows.last();
        if r.non_unique != 1 && lower_of(r.key_name@) == name {
            prev.push(lower_of(r.column_name@))
        } else {
            prev
        }
    }
}

/// The invariant of a key map under construction from `rows`.
pub open spec fn key_map_of(out: Seq<(String, Vec<String>)>, rows: Seq<IndexRow>) -> bool {
    &&& forall|a: int, b: int| 0 <= a < b < out.len() ==> out[a].0@ != out[b].0@
    &&& forall|i: int|
        0 <= i < out.len() ==> strings_view((#[trigger] out[i]).1@) == key_cols_of(rows, out[i].0@) && out[i].1@.len() > 0
    &&& forall|j: int|
        0 <= j < rows.len() && (#[trigger] rows[j]).non_unique != 1 ==> exists|i: int|
            0 <= i < out.len() && out[i].0@ == lower_of(rows[j].key_name@)
}

proof fn lemma_key_cols_absent(rows: Seq<IndexRow>, name: Seq<char>)
    requires
        forall|j: int| 0 <= j < rows.len() ==> !((#[trigger] rows[j]).non_unique != 1 && lower_of(rows[j].key_name@) == name),
    ensures
        key_cols_of(rows, name).len() == 0,
    decreases rows.len(),
{
    if rows.len() > 0 {
        lemma_key_cols_absent(rows.drop_last(), name);
    }
}

fn find_key(out: &Vec<(String, Vec<String>)>, name: &String) -> (r: Option<usize>)
    ensures
        match r {
            Some(i) => i < out@.len() && out@[i as int].0@ == name@,
            None => forall|i: int| 0 <= i < out@.len() ==> (#[trigger] out@[i]).0@ != name@,
        },
{
    let mut i: usize = 0;
    while i < out.len()
        invariant
            0 <= i <= out@.len(),
            forall|j: int| 0 <= j < i ==> (#[trigger] out@[j]).0@ != name@,
        decreases out.len() - i,
    {
        if out[i].0 == *name {
            return Some(i);
        }
        i = i + 1;
    }
    None
}

/// The unique keys of a table from its index rows: index names and column
/// names lower-cased, columns in row order, non-unique indexes left out.
pub fn parse_keys(rows: &Vec<IndexRow>) -> (r: Vec<(String, Vec<String>)>)
    ensures
        key_map_of(r@, rows@),
{
    let mut out: Vec<(String, Vec<String>)> = Vec::new();
    let mut j: usize = 0;
    while j < rows.len()
        invariant
            0 <= j <= rows@.len(),
            key_map_of(out@, rows@.take(j as int)),
        decreases rows.len() - j,
    {
        let ghost prev_rows = rows@.take(j as int);
        let ghost next_rows = rows@.take(j + 1);
        let ghost row = rows@[j as int];
        assert(next_rows.drop_last() =~= prev_rows);
        assert(next_rows.last() == row);
        let ghost old_out = out@;
        if rows[j].non_unique != 1 {
            let key = to_lower(rows[j].key_name.as_str());
            let col = to_lower(rows[j].column_name.as_str());
            let ghost cv = col@;
            match find_key(&out, &key) {
                Some(idx) => {
                    let (name, mut cols) = out.remove(idx);
                    let ghost old_cols = cols@;
                    cols.push(col);
                    assert(strings_view(cols@) =~= strings_view(old_cols).push(cv));
                    out.insert(idx, (name, cols));
                    assert forall|i: int| 0 <= i < out@.len() implies strings_view((#[trigger] out@[i]).1@) == key_cols_of(next_rows, out@[i].0@) && out@[i].1@.len() > 0 by {
                        if i != idx {
                            assert(out@[i] == old_out[i]);
                        }
                    }
                    assert forall|k: int| 0 <= k < next_rows.len() && (#[trigger] next_rows[k]).non_unique != 1 implies exists|i: int|
                        0 <= i < out@.len() && out@[i].0@ == lower_of(next_rows[k].key_name@) by {
                        if k < j {
                            assert(prev_rows[k] == next_rows[k]);
                            let i = choose|i: int| 0 <= i < old_out.len() && old_out[i].0@ == lower_of(prev_rows[k].key_name@);
                            assert(out@[i].0@ == old_out[i].0@);
                        } else {
                            assert(out@[idx as int].0@ == lower_of(next_rows[k].key_name@));
                        }
                    }
                },
                None => {
                    let ghost kv = key@;
                    let mut cols: Vec<String> = Vec::new();
                    cols.push(col);
                    proof {
                        assert forall|k: int| 0 <= k < prev_rows.len() implies !((#[trigger] prev_rows[k]).non_unique != 1 && lower_of(prev_rows[k].key_name@) == kv) by {
                            if prev_rows[k].non_unique != 1 && lower_of(prev_rows[k].key_name@) == kv {
                                let i = choose|i: int| 0 <= i < old_out.len() && old_out[i].0@ == lower_of(prev_rows[k].key_name@);
                                assert(old_out[i].0@ != kv);
                            }
                        }
                        lemma_key_cols_absent(prev_rows, kv);
                        assert(key_cols_of(prev_rows, kv) =~= Seq::<Seq<char>>::empty());
                        assert(strings_view(cols@) =~= seq![cv]);
                    }
                    out.push((key, cols));
                    assert forall|i: int| 0 <= i < out@.len() implies strings_view((#[trigger] out@[i]).1@) == key_cols_of(next_rows, out@[i].0@) && out@[i].1@.len() > 0 by {
                        if i < old_out.len() {
                            assert(out@[i] == old_out[i]);
                        }
                    }
                    assert forall|k: int| 0 <= k < next_rows.len() && (#[trigger] next_rows[k]).non_unique != 1 implies exists|i: int|
                        0 <= i < out@.len() && out@[i].0@ == lower_of(next_rows[k].key_name@) by {
                        if k < j {
                            assert(prev_rows[k] == next_rows[k]);
                            let i = choose|i: int| 0 <= i < old_out.len() && old_out[i].0@ == lower_of(prev_rows[k].key_name@);
                            assert(out@[i].0@ == old_out[i].0@);
                        } else {
                            assert(out@[old_out.len() as int].0@ == lower_of(next_rows[k].key_name@));
                        }
                    }
                },
            }
        } else {
            assert forall|i: int| 0 <= i < out@.len() implies strings_view((#[trigger] out@[i]).1@) == key_cols_of(next_rows, out@[i].0@) && out@[i].1@.len() > 0 by {}
            assert forall|k: int| 0 <= k < next_rows.len() && (#[trigger] next_rows[k]).non_unique != 1 implies exists|i: int|
                0 <= i < out@.len() && out@[i].0@ == lower_of(next_rows[k].key_name@) by {
                assert(prev_rows[k] == next_rows[k]);
            }
        }
        j = j + 1;
    }
    assert(rows@.take(j as int) =~= rows@);
    out
}

/// A MySQL table's metadata: the common part, and each column's data type and
/// rich type.
#[derive(Clone, Debug)]
pub struct MysqlTbMeta {
    pub basic: RdbTbMeta,
    pub col_origin_type_map: Vec<(String, String)>,
    pub col_type_map: Vec<(String, MysqlColType)>,
}

/// Builds a table's metadata from what the server said of it: its columns in
/// order, the type row of each column, its index rows and the foreign keys that
/// relate to it. A table without columns is unknown.
pub fn build_tb_meta(
    schema: &String,
    tb: &String,
    cols: Vec<String>,
    type_rows: &Vec<(String, ColumnTypeRow)>,
    index_rows: &Vec<IndexRow>,
    fk_rows: &Vec<ForeignKey>,
) -> (r: Result<MysqlTbMeta, Error>)
    ensures
        cols@.len() == 0 <==> r is Err,
        r is Err ==> r->Err_0 is MetadataError,
        r is Ok ==> {
            let m = r.unwrap();
            &&& m.basic.schema@ == schema@
            &&& m.basic.tb@ == tb@
            &&& m.basic.cols@ == cols@
            &&& key_map_of(m.basic.key_map@, index_rows@)
            &&& (m.basic.key_map@.len() > 0 ==> exists|c: int| is_chosen_key(m.basic.key_map@, c) && m.basic.id_cols@ == m.basic.key_map@[c].1@)
            &&& (m.basic.key_map@.len() == 0 ==> m.basic.id_cols@.len() == 0)
            &&& opt_str_view(m.basic.order_col) == order_col_of(m.basic.key_map@)
            &&& (m.basic.id_cols@.len() > 0 ==> m.basic.partition_col@ == m.basic.id_cols@[0]@)
            &&& (m.basic.id_cols@.len() == 0 ==> m.basic.partition_col@.len() == 0)
            &&& m.basic.foreign_keys@.map_values(|k: ForeignKey| k@) == fks_of(fk_rows@, schema@, tb@, true)
            &&& m.basic.ref_by_foreign_keys@.map_values(|k: ForeignKey| k@) == fks_of(fk_rows@, schema@, tb@, false)
            &&& m.col_type_map@.len() == type_rows@.len()
            &&& m.col_origin_type_map@.len() == type_rows@.len()
            &&& forall|i: int|
                0 <= i < type_rows@.len() ==> {
                    &&& (#[trigger] m.col_type_map@[i]).0@ == type_rows@[i].0@
                    &&& m.col_type_map@[i].1@ == col_type_of(type_rows@[i].1)
                    &&& m.col_origin_type_map@[i].0@ == type_rows@[i].0@
                    &&& m.col_origin_type_map@[i].1@ == type_rows@[i].1.data_type@
                }
        },
{
    if cols.len() == 0 {
        return Err(Error::MetadataError { schema: schema.clone(), tb: tb.clone() });
    }
    let mut col_type_map: Vec<(String, MysqlColType)> = Vec::new();
    let mut col_origin_type_map: Vec<(String, String)> = Vec::new();
    let mut i: usize = 0;
    while i < type_rows.len()
        invariant
            0 <= i <= type_rows@.len(),
            col_type_map@.len() == i,
            col_origin_type_map@.len() == i,
            forall|j: int|
                0 <= j < i ==> {
                    &&& (#[trigger] col_type_map@[j]).0@ == type_rows@[j].0@
                    &&& col_type_map@[j].1@ == col_type_of(type_rows@[j].1)
                    &&& col_origin_type_map@[j].0@ == type_rows@[j].0@
                    &&& col_origin_type_map@[j].1@ == type_rows@[j].1.data_type@
                },
        decreases type_rows.len() - i,
    {
        let (origin, col_type) = get_col_type(&type_rows[i].1);
        col_type_map.push((type_rows[i].0.clone(), col_type));
        col_origin_type_map.push((type_rows[i].0.clone(), origin));
        i = i + 1;
    }
    let key_map = parse_keys(index_rows);
    let (foreign_keys, ref_by_foreign_keys) = classify_foreign_keys(schema, tb, fk_rows);
    let basic = RdbTbMeta::new(schema.clone(), tb.clone(), cols, key_map, foreign_keys, ref_by_foreign_keys);
    Ok(MysqlTbMeta { basic, col_origin_type_map, col_type_map })
}

} // verus!
