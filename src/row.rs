use std::collections::hash_map::DefaultHasher;
use std::hash::Hasher;
use vstd::prelude::*;
use vstd::std_specs::hash::DefaultHasherAdditionalSpecFns;

verus! {

/// A column value as it travels through the pipeline. Floating-point values are
/// carried as their IEEE-754 bit patterns; temporal and decimal values as text.
#[derive(Clone, Debug, PartialEq)]
pub enum ColValue {
    Null,
    Bool(bool),
    Tiny(i8),
    UnsignedTiny(u8),
    Short(i16),
    UnsignedShort(u16),
    Long(i32),
    UnsignedLong(u32),
    LongLong(i64),
    UnsignedLongLong(u64),
    FloatBits(u32),
    DoubleBits(u64),
    Decimal(String),
    Time(String),
    Date(String),
    DateTime(String),
    Timestamp(String),
    Year(u16),
    String(String),
    Blob(Vec<u8>),
    Bit(u64),
    SetBits(u64),
    Set2(String),
    Enum(u32),
    Enum2(String),
    Json(Vec<u8>),
    Json2(String),
    MongoDoc(String),
}

/// The mathematical value of a `ColValue`: integers as integers, text as
/// characters and binary data as bytes, under one tag per variant.
pub enum ColValueView {
    Null,
    Bool(bool),
    Int(u8, int),
    Text(u8, Seq<char>),
    Bytes(u8, Seq<u8>),
}

impl View for ColValue {
    type V = ColValueView;

    open spec fn view(&self) -> ColValueView {
        match self {
            ColValue::Null => ColValueView::Null,
            ColValue::Bool(b) => ColValueView::Bool(*b),
            ColValue::Tiny(v) => ColValueView::Int(1, *v as int),
            ColValue::UnsignedTiny(v) => ColValueView::Int(2, *v as int),
            ColValue::Short(v) => ColValueView::Int(3, *v as int),
            ColValue::UnsignedShort(v) => ColValueView::Int(4, *v as int),
            ColValue::Long(v) => ColValueView::Int(5, *v as int),
            ColValue::UnsignedLong(v) => ColValueView::Int(6, *v as int),
            ColValue::LongLong(v) => ColValueView::Int(7, *v as int),
            ColValue::UnsignedLongLong(v) => ColValueView::Int(8, *v as int),
            ColValue::FloatBits(v) => ColValueView::Int(9, *v as int),
            ColValue::DoubleBits(v) => ColValueView::Int(10, *v as int),
            ColValue::Year(v) => ColValueView::Int(11, *v as int),
            ColValue::Bit(v) => ColValueView::Int(12, *v as int),
            ColValue::SetBits(v) => ColValueView::Int(13, *v as int),
            ColValue::Enum(v) => ColValueView::Int(14, *v as int),
            ColValue::Decimal(s) => ColValueView::Text(20, s@),
            ColValue::Time(s) => ColValueView::Text(21, s@),
            ColValue::Date(s) => ColValueView::Text(22, s@),
            ColValue::DateTime(s) => ColValueView::Text(23, s@),
            ColValue::Timestamp(s) => ColValueView::Text(24, s@),
            ColValue::String(s) => ColValueView::Text(25, s@),
            ColValue::Set2(s) => ColValueView::Text(26, s@),
            ColValue::Enum2(s) => ColValueView::Text(27, s@),
            ColValue::Json2(s) => ColValueView::Text(28, s@),
            ColValue::MongoDoc(s) => ColValueView::Text(29, s@),
            ColValue::Blob(b) => ColValueView::Bytes(30, b@),
            ColValue::Json(b) => ColValueView::Bytes(31, b@),
        }
    }
}

/// A row image: column names with their values, in column order.
pub type ColValues = Vec<(String, ColValue)>;

pub type ImageView = Seq<(Seq<char>, ColValueView)>;

pub open spec fn image_view(img: Seq<(String, ColValue)>) -> ImageView {
    img.map_values(|p: (String, ColValue)| (p.0@, p.1@))
}

/// The value of `col` in an image, searching from position `i` on: the first
/// entry with that name wins.
pub open spec fn image_get_from(img: ImageView, col: Seq<char>, i: int) -> Option<ColValueView>
    decreases img.len() - i,
{
    if i < 0 || i >= img.len() {
        None
    } else if img[i].0 == col {
        Some(img[i].1)
    } else {
        image_get_from(img, col, i + 1)
    }
}

pub open spec fn image_get(img: ImageView, col: Seq<char>) -> Option<ColValueView> {
    image_get_from(img, col, 0)
}

/// Column names as character sequences.
pub open spec fn cols_view(cols: Seq<String>) -> Seq<Seq<char>> {
    cols.map_values(|c: String| c@)
}

/// The key tuple of an image: the value of each of `cols`, in order.
pub open spec fn key_of(img: ImageView, cols: Seq<Seq<char>>) -> Seq<Option<ColValueView>> {
    Seq::new(cols.len(), |i: int| image_get(img, cols[i]))
}

#[derive(Clone, Copy, Debug, PartialEq, Eq, Structural)]
pub enum RowType {
    Insert,
    Update,
    Delete,
}

/// A single row-level change.
#[derive(Clone, Debug, PartialEq)]
pub struct RowData {
    pub schema: String,
    pub tb: String,
    pub row_type: RowType,
    pub before: Option<ColValues>,
    pub after: Option<ColValues>,
}

pub struct RowDataView {
    pub schema: Seq<char>,
    pub tb: Seq<char>,
    pub row_type: RowType,
    pub before: Option<ImageView>,
    pub after: Option<ImageView>,
}

pub open spec fn opt_image_view(img: Option<ColValues>) -> Option<ImageView> {
    match img {
        Some(v) => Some(image_view(v@)),
        None => None,
    }
}

impl View for RowData {
    type V = RowDataView;

    open spec fn view(&self) -> RowDataView {
        RowDataView {
            schema: self.schema@,
            tb: self.tb@,
            row_type: self.row_type,
            before: opt_image_view(self.before),
            after: opt_image_view(self.after),
        }
    }
}

impl RowDataView {
    /// The shape that the row type demands: an insert carries only an after
    /// image, a delete only a before image, an update both.
    pub open spec fn well_formed(self) -> bool {
        match self.row_type {
            RowType::Insert => self.before is None && self.after is Some,
            RowType::Delete => self.before is Some && self.after is None,
            RowType::Update => self.before is Some && self.after is Some,
        }
    }

    /// The image that identifies the row: the after image of an insert, the
    /// before image otherwise.
    pub open spec fn key_image(self) -> ImageView {
        match self.row_type {
            RowType::Insert => self.after.unwrap_or(Seq::empty()),
            _ => self.before.unwrap_or(Seq::empty()),
        }
    }
}

impl RowData {
    pub open spec fn well_formed(&self) -> bool {
        self@.well_formed()
    }

    /// The image that identifies this row (see `RowDataView::key_image`).
    pub fn key_image(&self) -> (r: &ColValues)
        requires
            self.well_formed(),
        ensures
            image_view(r@) == self@.key_image(),
    {
        match self.row_type {
            RowType::Insert => self.after.as_ref().unwrap(),
            _ => self.before.as_ref().unwrap(),
        }
    }
}

/// The items of `data` in reverse order, so that popping them yields the
/// original order.
pub(crate) fn reversed<T>(data: Vec<T>) -> (r: Vec<T>)
    ensures
        r@.len() == data@.len(),
        forall|j: int| 0 <= j < r@.len() ==> #[trigger] r@[j] == data@[data@.len() - 1 - j],
{
    let ghost orig = data@;
    let mut data = data;
    let mut rev: Vec<T> = Vec::new();
    while data.len() > 0
        invariant
            orig.len() == data@.len() + rev@.len(),
            data@ == orig.take(data@.len() as int),
            forall|j: int| 0 <= j < rev@.len() ==> #[trigger] rev@[j] == orig[orig.len() - 1 - j],
        decreases data.len(),
    {
        let item = data.pop().unwrap();
        rev.push(item);
        assert(data@ =~= orig.take(data@.len() as int));
    }
    rev
}

fn bytes_eq(a: &Vec<u8>, b: &Vec<u8>) -> (r: bool)
    ensures
        r == (a@ == b@),
{
    if a.len() != b.len() {
        return false;
    }
    let mut i: usize = 0;
    while i < a.len()
        invariant
            a.len() == b.len(),
            0 <= i <= a.len(),
            forall|j: int| 0 <= j < i ==> a@[j] == b@[j],
        decreases a.len() - i,
    {
        if a[i] != b[i] {
            return false;
        }
        i = i + 1;
    }
    assert(a@ =~= b@);
    true
}

/// Componentwise equality of two column values.
pub fn col_value_eq(a: &ColValue, b: &ColValue) -> (r: bool)
    ensures
        r == (a@ == b@),
{
    match (a, b) {
        (ColValue::Null, ColValue::Null) => true,
        (ColValue::Bool(x), ColValue::Bool(y)) => *x == *y,
        (ColValue::Tiny(x), ColValue::Tiny(y)) => *x == *y,
        (ColValue::UnsignedTiny(x), ColValue::UnsignedTiny(y)) => *x == *y,
        (ColValue::Short(x), ColValue::Short(y)) => *x == *y,
        (ColValue::UnsignedShort(x), ColValue::UnsignedShort(y)) => *x == *y,
        (ColValue::Long(x), ColValue::Long(y)) => *x == *y,
        (ColValue::UnsignedLong(x), ColValue::UnsignedLong(y)) => *x == *y,
        (ColValue::LongLong(x), ColValue::LongLong(y)) => *x == *y,
        (ColValue::UnsignedLongLong(x), ColValue::UnsignedLongLong(y)) => *x == *y,
        (ColValue::FloatBits(x), ColValue::FloatBits(y)) => *x == *y,
        (ColValue::DoubleBits(x), ColValue::DoubleBits(y)) => *x == *y,
        (ColValue::Year(x), ColValue::Year(y)) => *x == *y,
        (ColValue::Bit(x), ColValue::Bit(y)) => *x == *y,
        (ColValue::SetBits(x), ColValue::SetBits(y)) => *x == *y,
        (ColValue::Enum(x), ColValue::Enum(y)) => *x == *y,
        (ColValue::Decimal(x), ColValue::Decimal(y)) => *x == *y,
        (ColValue::Time(x), ColValue::Time(y)) => *x == *y,
        (ColValue::Date(x), ColValue::Date(y)) => *x == *y,
        (ColValue::DateTime(x), ColValue::DateTime(y)) => *x == *y,
        (ColValue::Timestamp(x), ColValue::Timestamp(y)) => *x == *y,
        (ColValue::String(x), ColValue::String(y)) => *x == *y,
        (ColValue::Set2(x), ColValue::Set2(y)) => *x == *y,
        (ColValue::Enum2(x), ColValue::Enum2(y)) => *x == *y,
        (ColValue::Json2(x), ColValue::Json2(y)) => *x == *y,
        (ColValue::MongoDoc(x), ColValue::MongoDoc(y)) => *x == *y,
        (ColValue::Blob(x), ColValue::Blob(y)) => bytes_eq(x, y),
        (ColValue::Json(x), ColValue::Json(y)) => bytes_eq(x, y),
        _ => false,
    }
}

/// Looks a column up in an image; the first entry with that name wins.
pub fn image_lookup<'a>(img: &'a ColValues, col: &String) -> (r: Option<&'a ColValue>)
    ensures
        match r {
            Some(v) => image_get(image_view(img@), col@) == Some(v@),
            None => image_get(image_view(img@), col@) is None,
        },
{
    let ghost iv = image_view(img@);
    let mut i: usize = 0;
    while i < img.len()
        invariant
            0 <= i <= img.len(),
            iv == image_view(img@),
            image_get_from(iv, col@, 0) == image_get_from(iv, col@, i as int),
        decreases img.len() - i,
    {
        if img[i].0 == *col {
            return Some(&img[i].1);
        }
        i = i + 1;
    }
    None
}

/// Whether two optional column values are equal (absent equals absent).
pub fn opt_col_value_eq(a: Option<&ColValue>, b: Option<&ColValue>) -> (r: bool)
    ensures
        r == (match (a, b) {
            (Some(x), Some(y)) => x@ == y@,
            (None, None) => true,
            _ => false,
        }),
{
    match (a, b) {
        (Some(x), Some(y)) => col_value_eq(x, y),
        (None, None) => true,
        _ => false,
    }
}

/// Whether two images agree on each of `cols`.
pub fn images_agree_on(cols: &Vec<String>, a: &ColValues, b: &ColValues) -> (r: bool)
    ensures
        r == (key_of(image_view(a@), cols_view(cols@)) == key_of(
            image_view(b@),
            cols_view(cols@),
        )),
{
    let ghost cs = cols_view(cols@);
    let ghost ka = key_of(image_view(a@), cs);
    let ghost kb = key_of(image_view(b@), cs);
    let mut i: usize = 0;
    while i < cols.len()
        invariant
            0 <= i <= cols.len(),
            cs == cols_view(cols@),
            ka == key_of(image_view(a@), cs),
            kb == key_of(image_view(b@), cs),
            forall|j: int| 0 <= j < i ==> ka[j] == kb[j],
        decreases cols.len() - i,
    {
        let va = image_lookup(a, &cols[i]);
        let vb = image_lookup(b, &cols[i]);
        if !opt_col_value_eq(va, vb) {
            assert(ka[i as int] != kb[i as int]);
            return false;
        }
        i = i + 1;
    }
    assert(ka =~= kb);
    true
}

// ---------------------------------------------------------------------------
// Key hashing
// ---------------------------------------------------------------------------
/// The eight little-endian bytes of `x`.
pub open spec fn le_bytes(x: u64) -> Seq<u8> {
    seq![
        x as u8,
        (x >> 8u64) as u8,
        (x >> 16u64) as u8,
        (x >> 24u64) as u8,
        (x >> 32u64) as u8,
        (x >> 40u64) as u8,
        (x >> 48u64) as u8,
        (x >> 56u64) as u8,
    ]
}

/// The tag byte under which a value is fed to the hasher.
pub open spec fn hash_tag(v: ColValueView) -> u8 {
    match v {
        ColValueView::Null => 0,
        ColValueView::Bool(_) => 15,
        ColValueView::Int(t, _) => t,
        ColValueView::Text(t, _) => t,
        ColValueView::Bytes(t, _) => t,
    }
}

/// The bytes that stand for a value in its hash: the value of an integer as a
/// 64-bit pattern, text as UTF-8.
pub open spec fn hash_payload(v: ColValueView) -> Seq<u8> {
    match v {
        ColValueView::Null => Seq::empty(),
        ColValueView::Bool(b) => seq![if b { 1u8 } else { 0u8 }],
        ColValueView::Int(_, x) => le_bytes(
            if x < 0 {
                (x + 0x1_0000_0000_0000_0000) as u64
            } else {
                x as u64
            },
        ),
        ColValueView::Text(_, s) => vstd::utf8::encode_utf8(s),
        ColValueView::Bytes(_, b) => b,
    }
}

/// Whether a key tuple can identify a row: every column is present and not null.
pub open spec fn key_hashable(k: Seq<Option<ColValueView>>) -> bool {
    forall|i: int| 0 <= i < k.len() ==> (#[trigger] k[i] is Some && !(k[i].unwrap() is Null))
}

/// The writes that the hasher receives for a key tuple: for each column, its tag
/// and then its payload.
pub open spec fn hash_writes(k: Seq<Option<ColValueView>>) -> Seq<Seq<u8>>
    decreases k.len(),
{
    if k.len() == 0 {
        Seq::empty()
    } else {
        let v = k.last().unwrap_or(ColValueView::Null);
        hash_writes(k.drop_last()).push(seq![hash_tag(v)]).push(hash_payload(v))
    }
}

/// The 128-bit hash of a key tuple: 0 exactly when the tuple cannot identify a
/// row, and otherwise a digest of its values, in order.
pub open spec fn key_hash(k: Seq<Option<ColValueView>>) -> u128 {
    if !key_hashable(k) || k.len() == 0 {
        0
    } else {
        (DefaultHasher::spec_finish(hash_writes(k)) as u128 + 1) as u128
    }
}

fn u64_le_bytes(x: u64) -> (r: Vec<u8>)
    ensures
        r@ == le_bytes(x),
{
    let r = vec![
        x as u8,
        (x >> 8u64) as u8,
        (x >> 16u64) as u8,
        (x >> 24u64) as u8,
        (x >> 32u64) as u8,
        (x >> 40u64) as u8,
        (x >> 48u64) as u8,
        (x >> 56u64) as u8,
    ];
    assert(r@ =~= le_bytes(x));
    r
}

fn signed_bits(x: i64) -> (r: u64)
    ensures
        r == (if x < 0 {
            (x + 0x1_0000_0000_0000_0000) as u64
        } else {
            x as u64
        }),
{
    if x < 0 {
        let y: u64 = (x + 1 + 0x7fff_ffff_ffff_ffffi64) as u64;
        (y + 0x8000_0000_0000_0000u64) as u64
    } else {
        x as u64
    }
}

fn feed_value(h: &mut DefaultHasher, v: &ColValue)
    ensures
        final(h)@ == old(h)@.push(seq![hash_tag(v@)]).push(hash_payload(v@)),
{
    let tag: u8 = match v {
        ColValue::Null => 0,
        ColValue::Bool(_) => 15,
        ColValue::Tiny(_) => 1,
        ColValue::UnsignedTiny(_) => 2,
        ColValue::Short(_) => 3,
        ColValue::UnsignedShort(_) => 4,
        ColValue::Long(_) => 5,
        ColValue::UnsignedLong(_) => 6,
        ColValue::LongLong(_) => 7,
        ColValue::UnsignedLongLong(_) => 8,
        ColValue::FloatBits(_) => 9,
        ColValue::DoubleBits(_) => 10,
        ColValue::Year(_) => 11,
        ColValue::Bit(_) => 12,
        ColValue::SetBits(_) => 13,
        ColValue::Enum(_) => 14,
        ColValue::Decimal(_) => 20,
        ColValue::Time(_) => 21,
        ColValue::Date(_) => 22,
        ColValue::DateTime(_) => 23,
        ColValue::Timestamp(_) => 24,
        ColValue::String(_) => 25,
        ColValue::Set2(_) => 26,
        ColValue::Enum2(_) => 27,
        ColValue::Json2(_) => 28,
        ColValue::MongoDoc(_) => 29,
        ColValue::Blob(_) => 30,
        ColValue::Json(_) => 31,
    };
    let tag_bytes = vec![tag];
    assert(tag_bytes@ =~= seq![hash_tag(v@)]);
    h.write(tag_bytes.as_slice());
    match v {
        ColValue::Null => {
            let e: Vec<u8> = Vec::new();
            assert(e@ =~= hash_payload(v@));
            h.write(e.as_slice());
        },
        ColValue::Bool(b) => {
            let e = vec![if *b { 1u8 } else { 0u8 }];
            assert(e@ =~= hash_payload(v@));
            h.write(e.as_slice());
        },
        ColValue::Tiny(x) => h.write(u64_le_bytes(signed_bits(*x as i64)).as_slice()),
        ColValue::UnsignedTiny(x) => h.write(u64_le_bytes(*x as u64).as_slice()),
        ColValue::Short(x) => h.write(u64_le_bytes(signed_bits(*x as i64)).as_slice()),
        ColValue::UnsignedShort(x) => h.write(u64_le_bytes(*x as u64).as_slice()),
        ColValue::Long(x) => h.write(u64_le_bytes(signed_bits(*x as i64)).as_slice()),
        ColValue::UnsignedLong(x) => h.write(u64_le_bytes(*x as u64).as_slice()),
        ColValue::LongLong(x) => h.write(u64_le_bytes(signed_bits(*x)).as_slice()),
        ColValue::UnsignedLongLong(x) => h.write(u64_le_bytes(*x).as_slice()),
        ColValue::FloatBits(x) => h.write(u64_le_bytes(*x as u64).as_slice()),
        ColValue::DoubleBits(x) => h.write(u64_le_bytes(*x).as_slice()),
        ColValue::Year(x) => h.write(u64_le_bytes(*x as u64).as_slice()),
        ColValue::Bit(x) => h.write(u64_le_bytes(*x).as_slice()),
        ColValue::SetBits(x) => h.write(u64_le_bytes(*x).as_slice()),
        ColValue::Enum(x) => h.write(u64_le_bytes(*x as u64).as_slice()),
        ColValue::Decimal(s) | ColValue::Time(s) | ColValue::Date(s) | ColValue::DateTime(s)
        | ColValue::Timestamp(s) | ColValue::String(s) | ColValue::Set2(s) | ColValue::Enum2(s)
        | ColValue::Json2(s) | ColValue::MongoDoc(s) => h.write(s.as_str().as_bytes()),
        ColValue::Blob(b) | ColValue::Json(b) => h.write(b.as_slice()),
    }
}

/// Hashes the values of `cols` in `img` (see `key_hash`).
pub fn hash_key(cols: &Vec<String>, img: &ColValues) -> (r: u128)
    ensures
        r == key_hash(key_of(image_view(img@), cols_view(cols@))),
{
    let ghost k = key_of(image_view(img@), cols_view(cols@));
    if cols.len() == 0 {
        return 0;
    }
    let mut h = DefaultHasher::new();
    let mut i: usize = 0;
    while i < cols.len()
        invariant
            0 <= i <= cols.len(),
            k == key_of(image_view(img@), cols_view(cols@)),
            k.len() == cols.len(),
            h@ == hash_writes(k.take(i as int)),
            forall|j: int| 0 <= j < i ==> (#[trigger] k[j] is Some && !(k[j].unwrap() is Null)),
        decreases cols.len() - i,
    {
        assert(cols_view(cols@)[i as int] == cols@[i as int]@);
        match image_lookup(img, &cols[i]) {
            None => {
                assert(k[i as int] is None);
                assert(!key_hashable(k));
                return 0;
            },
            Some(v) => {
                if let ColValue::Null = v {
                    assert(k[i as int] == Some(ColValueView::Null));
                    assert(!key_hashable(k));
                    return 0;
                }
                feed_value(&mut h, v);
                assert(k.take(i + 1).drop_last() =~= k.take(i as int));
            },
        }
        i = i + 1;
    }
    assert(k.take(i as int) =~= k);
    let d = h.finish();
    d as u128 + 1
}

} // verus!
